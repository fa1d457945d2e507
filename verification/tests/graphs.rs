use rlx_fft::band_correct::BandedCorrector;
use rlx_fft::butterfly::{
    block_affine_params, butterfly_forward_real_batch, butterfly_inverse_complex_batch, num_stages,
};
use rlx_fft::butterfly_graph::{
    apply_butterfly_stage_vectorized, apply_butterfly_stage_vectorized_mapped,
    build_butterfly_forward_graph, build_butterfly_inverse_graph,
};
use rlx_fft::butterfly_train::butterfly_train_step;
use rlx_fft::config::FftLearnConfig;
use rlx_fft::deploy_graph::{
    append_banded_spectrum_correction, append_block_to_interleaved, append_hann_window,
    append_interleaved_to_block, build_distilled_mel_graph, build_learned_spectrum_graph,
    build_native_fft_post_graph,
};
use rlx_fft::graph::{GraphNode, GraphOp, GraphPlan};
use rlx_fft::lower::lower;
use rlx_fft::mel_train::{
    block_to_interleaved, gradient_through_band, interleaved_to_block, mel_loss_gradient,
    step_routed_mask, train_step_mel,
};
use rlx_fft::scalar::{raise, Divisible, Ordered, Residue, Scalar, PRIME};
use rlx_fft::spectral::{
    correct_spectrum, correction_params, mel_sums, spectrum_to_power, weigh_rows, window_batch,
    SpectrumCorrection, SpectrumDenoiser,
};
use rlx_fft::ternary_gates::CorrectorKind;

fn res(n: u64) -> Residue {
    Residue::new(n)
}

fn row(v: &[u64]) -> Vec<Residue> {
    v.iter().map(|&n| res(n)).collect()
}

fn inverse(a: Residue) -> Residue {
    raise(a, PRIME - 2)
}

/// A root of unity on the unit circle, of an order.
fn circle_root(order: u64) -> (Residue, Residue) {
    let t = raise(res(31), (PRIME - 1) / order);
    let i = raise(res(31), (PRIME - 1) / 4);
    let u = inverse(t);
    let half = inverse(res(2));
    (t.plus(u).times(half), t.minus(u).times(half).times(inverse(i)))
}

fn complex_times(a: (Residue, Residue), b: (Residue, Residue)) -> (Residue, Residue) {
    (
        a.0.times(b.0).minus(a.1.times(b.1)),
        a.0.times(b.1).plus(a.1.times(b.0)),
    )
}

fn powers_of(w: (Residue, Residue), n: usize) -> Vec<(Residue, Residue)> {
    let mut out = vec![(res(1), res(0))];
    for _ in 1..n {
        out.push(complex_times(*out.last().unwrap(), w));
    }
    out
}

fn exact(n: usize) -> (Vec<Residue>, Vec<(Residue, Residue)>) {
    let pw = powers_of(circle_root(n as u64), n);
    let mut tw = Vec::new();
    for stage in 0..num_stages(n) {
        for b in 0..n / 2 {
            let stride = 1usize << stage;
            let (re, im) = pw[(b % stride) * (n / (2 * stride))];
            tw.push(re);
            tw.push(im);
        }
    }
    (tw, pw)
}

/// Runs a plan without transforms of a backend.
fn run(plan: &GraphPlan<Residue>, leaf: &dyn Fn(&str) -> Vec<Residue>, id: usize) -> Vec<Residue> {
    let mut values: Vec<Vec<Residue>> = Vec::new();
    for node in plan.nodes.iter() {
        let inner = |shape: &Vec<usize>, axis: usize| shape[axis + 1..].iter().product::<usize>();
        let v = match &node.op {
            GraphOp::Input { name } | GraphOp::Param { name } => leaf(name),
            GraphOp::Add { a, b } => zip(&values[*a], &values[*b], |x, y| x.plus(y)),
            GraphOp::Sub { a, b } => zip(&values[*a], &values[*b], |x, y| x.minus(y)),
            GraphOp::Mul { a, b } => zip(&values[*a], &values[*b], |x, y| x.times(y)),
            GraphOp::Neg { a } => values[*a].iter().map(|x| x.negated()).collect(),
            GraphOp::Reshape { a } => values[*a].clone(),
            GraphOp::Narrow { a, axis, start, len } => {
                let shape = &plan.nodes[*a].shape;
                let below = inner(shape, *axis);
                let mut out = Vec::new();
                for block in values[*a].chunks(shape[*axis] * below) {
                    out.extend_from_slice(&block[start * below..(start + len) * below]);
                }
                out
            }
            GraphOp::Concat { parts, axis } => {
                let shape = &plan.nodes[parts[0]].shape;
                let block = shape[*axis] * inner(shape, *axis);
                let mut out = Vec::new();
                for k in 0..values[parts[0]].len() / block {
                    for p in parts.iter() {
                        out.extend_from_slice(&values[*p][k * block..(k + 1) * block]);
                    }
                }
                out
            }
            GraphOp::Matmul { a, b } => {
                let (k, m) = (plan.nodes[*b].shape[0], plan.nodes[*b].shape[1]);
                let mut out = Vec::new();
                for line in values[*a].chunks(k) {
                    for c in 0..m {
                        let mut acc = res(0);
                        for j in 0..k {
                            acc = acc.plus(line[j].times(values[*b][j * m + c]));
                        }
                        out.push(acc);
                    }
                }
                out
            }
            GraphOp::Fft { a, .. } | GraphOp::LogMel { a, .. } => values[*a].clone(),
        };
        assert_eq!(v.len(), node.shape.iter().product::<usize>());
        values.push(v);
    }
    values.swap_remove(id)
}

fn zip(a: &[Residue], b: &[Residue], f: fn(Residue, Residue) -> Residue) -> Vec<Residue> {
    a.iter()
        .enumerate()
        .map(|(i, &x)| f(x, b[i % b.len()]))
        .collect()
}

fn ramp(len: usize, from: u64) -> Vec<Residue> {
    (0..len as u64).map(|i| res(i * i * 7 + from)).collect()
}

#[test]
fn transform_is_the_fourier_sum_and_its_inverse_gives_the_input_back() {
    let n = 8;
    let (tw, pw) = exact(n);
    let x = ramp(2 * n, 3);
    let mut signal = Vec::new();
    for i in 0..n {
        signal.push(x[i]);
    }
    let spectrum = butterfly_forward_real_batch(&signal, &tw, 1, n).unwrap();
    for c in 0..n {
        let mut acc = (res(0), res(0));
        for j in 0..n {
            let w = pw[(j * c) % n];
            acc = (acc.0.plus(signal[j].times(w.0)), acc.1.plus(signal[j].times(w.1)));
        }
        assert_eq!((spectrum[2 * c], spectrum[2 * c + 1]), acc);
    }
    let back = butterfly_inverse_complex_batch(&spectrum, &tw, 1, n).unwrap();
    for c in 0..n {
        assert_eq!(back[2 * c], signal[c].times(res(n as u64)));
        assert_eq!(back[2 * c + 1], res(0));
    }
}

#[test]
fn exact_transforms_and_fitted_bands_stay_in_training() {
    let (n, batch) = (8usize, 2usize);
    let (tw, _) = exact(n);
    let signal = ramp(n * batch, 9);
    let targets = butterfly_forward_real_batch(&signal, &tw, batch, n).unwrap();
    let mut trained = tw.clone();
    let loss = butterfly_train_step(&signal, &targets, &mut trained, batch, n, res(5));
    assert_eq!(loss, res(0));
    assert_eq!(trained, tw);
    let mut other = targets.clone();
    other[0] = other[0].plus(res(1));
    let loss = butterfly_train_step(&signal, &other, &mut trained, batch, n, res(5));
    assert_ne!(loss, res(0));
    assert_ne!(trained, tw);

    let mut band: BandedCorrector<Residue> = BandedCorrector::identity(4);
    band.weights[3] = res(17);
    band.bias[1] = res(2);
    let x = ramp(16, 4);
    let target = band.apply_batch(&x, 2, 4).unwrap();
    let (weights, bias) = (band.weights.clone(), band.bias.clone());
    assert_eq!(band.train_step_mse(&x, &target, 2, 4, res(3)).unwrap(), res(0));
    assert_eq!((band.weights, band.bias), (weights, bias));
}

#[test]
fn forward_graph_computes_the_batch() {
    let cfg = FftLearnConfig::new(16, 3).unwrap();
    let (tw, _) = exact(16);
    let built = build_butterfly_forward_graph::<Residue>(&cfg, "twiddles");
    let signal = ramp(48, 11);
    let leaf = |name: &str| match name {
        "signal" => signal.clone(),
        "twiddles" => tw.clone(),
        _ => panic!("no leaf {name}"),
    };
    let got = run(&built.graph, &leaf, built.spectrum_out);
    assert_eq!(got, butterfly_forward_real_batch(&signal, &tw, 3, 16).unwrap());
    assert_eq!(built.params.len(), 1);
    assert_eq!(built.params[0].name, "twiddles");
    assert!(built.params[0].grad.is_none());
    assert_eq!(built.graph.outputs, vec![built.spectrum_out]);
    assert_eq!(built.graph.nodes[built.spectrum_out].shape, vec![3, 16, 2]);
}

#[test]
fn inverse_graph_computes_the_batch() {
    let cfg = FftLearnConfig::new(8, 2).unwrap();
    let (tw, _) = exact(8);
    let built = build_butterfly_inverse_graph::<Residue>(&cfg, "tw");
    let spectrum = ramp(32, 5);
    let leaf = |name: &str| match name {
        "spectrum" => spectrum.clone(),
        "tw" => tw.clone(),
        _ => panic!("no leaf {name}"),
    };
    let got = run(&built.graph, &leaf, built.spectrum_out);
    assert_eq!(
        got,
        butterfly_inverse_complex_batch(&spectrum, &tw, 2, 8).unwrap()
    );
    assert_eq!(built.graph.name, "ifft_butterfly");
}

#[test]
fn mapped_stage_computes_what_the_packed_one_does() {
    let (n, batch, stage) = (8usize, 2usize, 1usize);
    let (tw, _) = exact(n);
    let mut g: GraphPlan<Residue> = GraphPlan::new("stage");
    let re = g.input("re", vec![batch, n]);
    let im = g.input("im", vec![batch, n]);
    let packed = g.param("tw", vec![3, 4, 2]);
    let (a, b) = apply_butterfly_stage_vectorized(&mut g, re, im, stage, batch, n, packed);
    let mut nodes = Vec::new();
    for s in 0..3 {
        let mut of_stage = Vec::new();
        for k in 0..4 {
            let wr = g.param(&format!("{s}.{k}.re"), vec![1]);
            let wi = g.param(&format!("{s}.{k}.im"), vec![1]);
            of_stage.push((wr, wi));
        }
        nodes.push(of_stage);
    }
    let (c, d) = apply_butterfly_stage_vectorized_mapped(&mut g, re, im, stage, batch, n, &nodes);
    let leaf = |name: &str| match name {
        "re" => ramp(16, 1),
        "im" => ramp(16, 2),
        "tw" => tw.clone(),
        _ => {
            let part: Vec<&str> = name.split('.').collect();
            let at: usize = part[0].parse::<usize>().unwrap() * 4 + part[1].parse::<usize>().unwrap();
            vec![tw[2 * at + if part[2] == "im" { 1 } else { 0 }]]
        }
    };
    assert_eq!(run(&g, &leaf, a), run(&g, &leaf, c));
    assert_eq!(run(&g, &leaf, b), run(&g, &leaf, d));
    assert_ne!(run(&g, &leaf, a), ramp(16, 1));
}

#[test]
fn fused_hann_graph_builds() {
    let cfg = FftLearnConfig::new(64, 4).unwrap();
    let mut g: GraphPlan<Residue> = GraphPlan::new("test_hann");
    let signal = g.input("signal", vec![cfg.batch, cfg.n_fft]);
    let (windowed, name) = append_hann_window(&mut g, signal, cfg.batch, cfg.n_fft);
    g.set_outputs(vec![windowed]);
    assert_eq!(name, "hann");
    assert_eq!(g.nodes[windowed].shape, vec![4, 64]);
    let lowered = lower(&g).unwrap();
    assert_eq!(lowered.len(), g.nodes.len());
}

#[test]
fn native_fft_post_graph_builds() {
    let cfg = FftLearnConfig::new(64, 4).unwrap();
    let built = build_native_fft_post_graph::<Residue>(&cfg);
    assert_eq!(built.params, vec!["freq_mask", "denoise.scale", "denoise.bias"]);
    let g = lower(&built.graph).unwrap();
    assert_eq!(g.name, "learned_fft_post");
    assert_eq!(g.outputs.len(), 1);
    assert_eq!(g.shape(g.outputs[0]).num_elements(), Some(4 * 128));
}

#[test]
fn distilled_mel_graph_builds() {
    let cfg = FftLearnConfig::new(64, 4).unwrap();
    let built = build_distilled_mel_graph::<Residue>(&cfg, 16);
    assert_eq!(
        built.params,
        vec!["hann", "corr.gain", "corr.bias", "mel.filters"]
    );
    let g = lower(&built.graph).unwrap();
    assert_eq!(g.name, "distilled_mel_fused");
    assert_eq!(g.shape(g.outputs[0]).rank(), 2);
    assert_eq!(g.shape(g.outputs[0]).num_elements(), Some(4 * 16));
}

#[test]
fn learned_graph_masks_and_denoises() {
    let cfg = FftLearnConfig::new(4, 1).unwrap();
    let (tw, _) = exact(4);
    let built = build_learned_spectrum_graph::<Residue>(&cfg, "tw");
    assert_eq!(
        built.params,
        vec!["tw", "freq_mask", "denoise.scale", "denoise.bias"]
    );
    let signal = row(&[1, 2, 3, 4]);
    let leaf = |name: &str| match name {
        "signal" => signal.clone(),
        "tw" => tw.clone(),
        "freq_mask" => row(&[1, 1, 2, 2, 3, 3, 4, 4]),
        "denoise.scale" => row(&[5, 5, 5, 5, 1, 1, 1, 1]),
        "denoise.bias" => row(&[9, 0, 0, 0, 0, 0, 0, 7]),
        _ => panic!("no leaf {name}"),
    };
    let got = run(&built.graph, &leaf, built.output);
    let spectrum = butterfly_forward_real_batch(&signal, &tw, 1, 4).unwrap();
    assert_eq!(got[0], spectrum[0].times(res(5)).plus(res(9)));
    assert_eq!(got[0], res(59));
    assert_eq!(got[7], spectrum[7].times(res(4)).plus(res(7)));
    assert!(lower(&built.graph).is_some());
}

#[test]
fn lowered_graphs_hold_every_operation() {
    let cfg = FftLearnConfig::new(8, 2).unwrap();
    let built = build_butterfly_inverse_graph::<Residue>(&cfg, "tw");
    let g = lower(&built.graph).unwrap();
    assert_eq!(g.len(), built.graph.nodes.len());
    assert_eq!(g.outputs.len(), 1);
    assert_eq!(g.outputs[0].0 as usize, built.spectrum_out);
    for (i, node) in built.graph.nodes.iter().enumerate() {
        let shape = g.shape(rlx_ir::NodeId(i as u32));
        assert_eq!(shape.rank(), node.shape.len());
        for (k, &d) in node.shape.iter().enumerate() {
            assert_eq!(shape.dim(k).unwrap_static(), d);
        }
        let operands = match &node.op {
            GraphOp::Input { .. } | GraphOp::Param { .. } => 0,
            GraphOp::Neg { .. } | GraphOp::Reshape { .. } | GraphOp::Narrow { .. } => 1,
            GraphOp::Concat { parts, .. } => parts.len(),
            _ => 2,
        };
        assert_eq!(g.nodes()[i].inputs.len(), operands);
    }
    assert_eq!(g.input_id("spectrum"), Some(rlx_ir::NodeId(0)));
    assert!(g.param_id("tw").is_some());
}

fn plan_of(nodes: Vec<(GraphOp, Vec<usize>)>) -> GraphPlan<Residue> {
    let mut g: GraphPlan<Residue> = GraphPlan::new("by hand");
    for (op, shape) in nodes {
        g.nodes.push(GraphNode { op, shape });
    }
    g
}

fn leaf_of(name: &str) -> GraphOp {
    GraphOp::Input { name: name.to_string() }
}

#[test]
fn ill_shaped_plans_are_not_lowered() {
    let x = leaf_of("x");
    let y = leaf_of("y");
    let bad = vec![
        vec![
            (x.clone(), vec![2, 3]),
            (y.clone(), vec![2]),
            (GraphOp::Add { a: 0, b: 1 }, vec![2, 3]),
        ],
        vec![
            (x.clone(), vec![2, 3, 4]),
            (y.clone(), vec![2, 1, 4]),
            (GraphOp::Mul { a: 0, b: 1 }, vec![2, 3, 4]),
        ],
        vec![
            (x.clone(), vec![2, 3]),
            (y.clone(), vec![3]),
            (GraphOp::Sub { a: 0, b: 1 }, vec![3, 2]),
        ],
        vec![(x.clone(), vec![2, 3]), (GraphOp::Fft { a: 0, inverse: false }, vec![2, 3])],
        vec![
            (x.clone(), vec![2, 8]),
            (y.clone(), vec![5, 4]),
            (GraphOp::LogMel { a: 0, filters: 1 }, vec![2, 5]),
        ],
        vec![(GraphOp::Neg { a: 0 }, vec![1])],
        vec![
            (x.clone(), vec![usize::MAX, usize::MAX]),
            (GraphOp::Reshape { a: 0 }, vec![usize::MAX, usize::MAX]),
        ],
        vec![(x.clone(), vec![2, 3]), (GraphOp::Reshape { a: 0 }, vec![5])],
        vec![
            (x.clone(), vec![4]),
            (GraphOp::Narrow { a: 0, axis: 0, start: 3, len: 2 }, vec![2]),
        ],
        vec![
            (x.clone(), vec![4]),
            (y.clone(), vec![3]),
            (GraphOp::Concat { parts: vec![0, 1], axis: 0 }, vec![8]),
        ],
        vec![
            (x.clone(), vec![2, 3]),
            (y.clone(), vec![2, 3]),
            (GraphOp::Matmul { a: 0, b: 1 }, vec![2, 3]),
        ],
    ];
    for nodes in bad {
        assert!(lower(&plan_of(nodes)).is_none());
    }
    let mut g = plan_of(vec![(x, vec![2, 3])]);
    assert!(lower(&g).is_some());
    g.set_outputs(vec![1]);
    assert!(lower(&g).is_none());
}

#[test]
fn every_operation_is_lowered() {
    let mut g: GraphPlan<Residue> = GraphPlan::new("all");
    let x = g.input("x", vec![2, 8]);
    let w = g.param("w", vec![8, 8]);
    let m = g.matmul(x, w);
    let s = g.minus(m, x);
    let p = g.plus(s, x);
    let q = g.times(p, x);
    let n = g.neg(q);
    let r = g.reshape(n, vec![4, 4]);
    let c = g.narrow(r, 1, 1, 2);
    let d = g.concat(vec![c, c, c, c], 1);
    let f = g.fft(d, true);
    let filters = g.param("f", vec![6, 3]);
    let mel = g.log_mel(f, filters);
    g.set_outputs(vec![mel, f]);
    let ir = lower(&g).unwrap();
    assert_eq!(ir.len(), 13);
    assert_eq!(ir.outputs.len(), 2);
    assert_eq!(ir.shape(ir.outputs[0]).num_elements(), Some(24));
    let ops: Vec<String> = ir.nodes().iter().map(|n| format!("{:?}", n.op)).collect();
    assert!(ops[2].starts_with("MatMul"), "{}", ops[2]);
    assert!(ops[3].contains("Sub"), "{}", ops[3]);
    assert!(ops[4].contains("Add"), "{}", ops[4]);
    assert!(ops[5].contains("Mul"), "{}", ops[5]);
    assert!(ops[6].contains("Neg"), "{}", ops[6]);
    assert!(ops[8].contains("Narrow"), "{}", ops[8]);
    assert!(ops[10].contains("inverse: true"), "{}", ops[10]);
    assert!(ops[12].starts_with("LogMel"), "{}", ops[12]);
}

#[test]
fn block_layouts_in_graphs_match_the_eager_ones() {
    let (batch, n) = (2usize, 4usize);
    let v = ramp(16, 1);
    let mut g: GraphPlan<Residue> = GraphPlan::new("layout");
    let block = g.input("v", vec![batch, 2 * n]);
    let out = append_block_to_interleaved(&mut g, block, batch, n);
    let leaf = |_: &str| v.clone();
    let got = run(&g, &leaf, out);
    assert_eq!(got, block_to_interleaved(&v, batch, n));
    assert_eq!(got[1], v[4]);
    let mut g: GraphPlan<Residue> = GraphPlan::new("layout");
    let state = g.input("v", vec![batch, n, 2]);
    let out = append_interleaved_to_block(&mut g, state, batch, n);
    let got = run(&g, &leaf, out);
    assert_eq!(got, interleaved_to_block(&v, batch, n));
    assert_eq!(got[1], v[2]);
    assert_eq!(block_to_interleaved(&got, batch, n), v);
}

#[test]
fn correction_in_planes_gives_the_corrected_spectrum() {
    let (batch, n) = (2usize, 4usize);
    let block = ramp(16, 1);
    let gain = ramp(8, 2);
    let bias = ramp(8, 3);
    let (pg, pb) = block_affine_params(&gain, &bias, n);
    let planes = SpectrumDenoiser { scale: pg, bias: pb };
    let rows = SpectrumDenoiser { scale: gain, bias };
    let left = block_to_interleaved(&planes.apply_batch(&block, batch, n).unwrap(), batch, n);
    let right = rows
        .apply_batch(&block_to_interleaved(&block, batch, n), batch, n)
        .unwrap();
    assert_eq!(left, right);
    assert!(rows.apply_batch(&block, 3, n).is_none());
}

#[test]
fn dense_form_computes_the_band_in_a_graph() {
    let cfg = FftLearnConfig::new(4, 2).unwrap();
    let mut band: BandedCorrector<Residue> = BandedCorrector::identity(4);
    for (i, w) in band.weights.iter_mut().enumerate() {
        *w = res(i as u64 + 1);
    }
    for (i, b) in band.bias.iter_mut().enumerate() {
        *b = res(100 + i as u64);
    }
    let mask = ramp(8, 2);
    let x = ramp(16, 4);
    let correction = SpectrumCorrection::Band(band);
    let (rhs, bias) = correction.bake_band(&mask).unwrap();
    let mut g: GraphPlan<Residue> = GraphPlan::new("band");
    let spectrum = g.input("x", vec![2, 4, 2]);
    let mut names = Vec::new();
    let out = append_banded_spectrum_correction(&mut g, spectrum, &cfg, "corr", &mut names);
    assert_eq!(names, vec!["corr.band_rhs", "corr.bias"]);
    let leaf = |name: &str| match name {
        "x" => x.clone(),
        "corr.band_rhs" => rhs.clone(),
        "corr.bias" => bias.clone(),
        _ => panic!("no leaf {name}"),
    };
    assert_eq!(
        run(&g, &leaf, out),
        correct_spectrum(&x, &mask, &correction, 2, 4).unwrap()
    );
    assert!(lower(&g).is_some());
}

#[test]
fn identity_corrections_pass_through() {
    let x = ramp(16, 4);
    let ones = row(&[1; 8]);
    for kind in [
        CorrectorKind::Identity,
        CorrectorKind::Affine,
        CorrectorKind::BandNarrow,
        CorrectorKind::BandWide,
        CorrectorKind::Dense,
    ] {
        let c: SpectrumCorrection<Residue> = SpectrumCorrection::from_kind(kind, 4, false);
        assert_eq!(c.apply_batch(&x, 2, 4).unwrap(), x);
        assert_eq!(correct_spectrum(&x, &ones, &c, 2, 4).unwrap(), x);
        match kind {
            CorrectorKind::Identity => {
                assert!(c.bias().is_none());
                assert_eq!(c.bake_band(&row(&[7, 8])).unwrap().0, row(&[7, 0, 0, 8]));
                assert_eq!(c.apply_batch(&x, 9, 4).unwrap(), x);
            }
            CorrectorKind::Affine => {
                assert!(c.bake_band(&ones).is_none());
                assert!(c.dense_rhs_with_freq_mask(&ones).is_none());
                assert_eq!(c.affine_gain_bias().unwrap().0, ones);
                assert!(c.apply_batch(&x, 9, 4).is_none());
            }
            _ => {
                assert!(c.affine_gain_bias().is_none());
                assert_eq!(c.bias().unwrap(), row(&[0; 8]));
                assert_eq!(c.dense_rhs_with_freq_mask(&ones).unwrap().len(), 64);
            }
        }
    }
}

#[test]
fn windows_masks_and_folded_gains() {
    let signal = row(&[1, 2, 3, 4]);
    assert_eq!(window_batch(&signal, &row(&[5, 6]), 2, 2), row(&[5, 12, 15, 24]));
    let d = SpectrumDenoiser {
        scale: row(&[2, 3]),
        bias: row(&[1, 1]),
    };
    let mask = row(&[10, 20]);
    let (gain, bias) = correction_params(&mask, &d);
    assert_eq!(gain, row(&[20, 60]));
    let folded = SpectrumDenoiser { scale: gain, bias };
    let v = row(&[1, 2]);
    assert_eq!(
        folded.apply_batch(&v, 1, 1).unwrap(),
        d.apply_batch(&weigh_rows(&v, &mask), 1, 1).unwrap()
    );
    assert_eq!(folded.apply_batch(&v, 1, 1).unwrap(), row(&[21, 121]));
}

#[test]
fn power_and_mel_sums() {
    let spectrum = row(&[1, 2, 3, 4, 5, 6, 7, 8]);
    let power = spectrum_to_power(&spectrum, 4);
    assert_eq!(power, row(&[5, 25, 61]));
    assert_eq!(
        mel_sums(&power, &row(&[1, 0, 1, 0, 2, 0]), 2, 3),
        row(&[66, 50])
    );
}

/// A double as a scalar.
#[derive(Clone, Copy, Debug, PartialEq)]
struct Double(f64);

impl Scalar for Double {
    fn nought() -> Double {
        Double::zero()
    }

    fn unit() -> Double {
        Double::one()
    }

    fn sum(a: Double, b: Double) -> Double {
        a.plus(b)
    }

    fn difference(a: Double, b: Double) -> Double {
        a.minus(b)
    }

    fn product(a: Double, b: Double) -> Double {
        a.times(b)
    }

    fn opposite(a: Double) -> Double {
        a.negated()
    }

    fn zero() -> Double {
        Double(0.0)
    }

    fn one() -> Double {
        Double(1.0)
    }

    fn plus(self, other: Double) -> Double {
        Double(self.0 + other.0)
    }

    fn minus(self, other: Double) -> Double {
        Double(self.0 - other.0)
    }

    fn times(self, other: Double) -> Double {
        Double(self.0 * other.0)
    }

    fn negated(self) -> Double {
        Double(-self.0)
    }
}

impl Divisible for Double {
    fn quotient(a: Double, b: Double) -> Double {
        a.over(b)
    }

    fn counted(n: usize) -> Double {
        Double::count(n)
    }

    fn over(self, other: Double) -> Double {
        Double(self.0 / other.0)
    }

    fn count(n: usize) -> Double {
        Double(n as f64)
    }
}

impl Ordered for Double {
    fn number(a: Double) -> bool {
        a.is_number()
    }

    fn is_number(self) -> bool {
        !self.0.is_nan()
    }

    fn less(a: Double, b: Double) -> bool {
        a.is_less(b)
    }

    fn is_less(self, other: Double) -> bool {
        self.0 < other.0
    }
}

fn doubles(v: &[f64]) -> Vec<Double> {
    v.iter().map(|&x| Double(x)).collect()
}

#[test]
fn mel_steps_move_by_the_mean_gradient() {
    assert_eq!(
        mel_loss_gradient(&doubles(&[3.0, 1.0]), &doubles(&[1.0, 1.0]), 1, 2),
        doubles(&[2.0, 0.0])
    );
    let mut d = SpectrumDenoiser {
        scale: doubles(&[1.0, 1.0]),
        bias: doubles(&[0.0, 0.0]),
    };
    let mask = doubles(&[1.0, 1.0]);
    let spectrum = doubles(&[2.0, 4.0, 6.0, 8.0]);
    let grad = doubles(&[1.0, 2.0, 3.0, 6.0]);
    let stepped = train_step_mel(
        &mut d,
        &mask,
        &spectrum,
        &grad,
        2,
        Double(0.5),
    );
    assert_eq!(d.scale, doubles(&[0.0, -3.0]));
    assert_eq!(d.bias, doubles(&[-0.5, -1.0]));
    assert!((stepped[0].0 - 0.95).abs() < 1e-12 && (stepped[1].0 - 0.8).abs() < 1e-12);
    let routed = step_routed_mask(&mask, &spectrum, &grad, 2, Double(0.5));
    assert!((routed[0].0 - (1.0 - 0.025 * 20.0 / 4.0)).abs() < 1e-12);
    assert!((routed[1].0 - (1.0 - 0.025 * 56.0 / 4.0)).abs() < 1e-12);
    assert_eq!(
        step_routed_mask(&mask, &spectrum, &grad, 2, Double(-1e3)),
        doubles(&[4.0, 4.0])
    );
    let mut band: BandedCorrector<Double> = BandedCorrector::identity(1);
    band.weights[0] = Double(3.0);
    let through = gradient_through_band(&grad, &band, &doubles(&[2.0, 4.0]));
    assert_eq!(through, doubles(&[1.5, 2.0, 4.5, 6.0]));
}

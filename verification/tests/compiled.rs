use rlx_fft::butterfly::{
    block_affine_params, butterfly_forward_real_batch, butterfly_inverse_complex_batch, num_stages,
};
use rlx_fft::butterfly_graph::{build_butterfly_forward_graph, build_butterfly_inverse_graph};
use rlx_fft::compile::{plan_learned_compile, LearnedSpectrumKind};
use rlx_fft::config::FftLearnConfig;
use rlx_fft::deploy_graph::{
    append_banded_spectrum_correction, append_interleaved_to_block, build_backend_inverse_graph,
    build_distilled_mel_graph, build_distilled_spectrum_graph, build_fft_only_graph,
    build_learned_spectrum_graph, build_native_fft_post_graph, build_windowed_mel_graph,
};
use rlx_fft::device::Device;
use rlx_fft::graph::GraphPlan;
use rlx_fft::lower::lower;
use rlx_fft::mel_train::{block_to_interleaved, interleaved_to_block};
use rlx_fft::models::{DistilledFftModel, FastLearnedFftModel};
use rlx_fft::scalar::Scalar;
use rlx_fft::spectral::window_batch;
use rlx_runtime::{CompiledGraph, Session};

/// A number in single precision.
#[derive(Clone, Copy, Debug, PartialEq)]
struct Float(f32);

impl Scalar for Float {
    fn nought() -> Float {
        Float::zero()
    }

    fn unit() -> Float {
        Float::one()
    }

    fn sum(a: Float, b: Float) -> Float {
        a.plus(b)
    }

    fn difference(a: Float, b: Float) -> Float {
        a.minus(b)
    }

    fn product(a: Float, b: Float) -> Float {
        a.times(b)
    }

    fn opposite(a: Float) -> Float {
        a.negated()
    }

    fn zero() -> Float {
        Float(0.0)
    }

    fn one() -> Float {
        Float(1.0)
    }

    fn plus(self, other: Float) -> Float {
        Float(self.0 + other.0)
    }

    fn minus(self, other: Float) -> Float {
        Float(self.0 - other.0)
    }

    fn times(self, other: Float) -> Float {
        Float(self.0 * other.0)
    }

    fn negated(self) -> Float {
        Float(-self.0)
    }
}

fn wrap(v: &[f32]) -> Vec<Float> {
    v.iter().map(|&x| Float(x)).collect()
}

fn plain(v: &[Float]) -> Vec<f32> {
    v.iter().map(|x| x.0).collect()
}

fn exact(n: usize) -> Vec<f32> {
    let mut tw = Vec::new();
    for stage in 0..num_stages(n) {
        for b in 0..n / 2 {
            let stride = 1usize << stage;
            let angle = -std::f64::consts::PI * (b % stride) as f64 / stride as f64;
            tw.push(angle.cos() as f32);
            tw.push(angle.sin() as f32);
        }
    }
    tw
}

fn compiled<T: Scalar>(plan: &GraphPlan<T>) -> CompiledGraph {
    Session::new(rlx_runtime::Device::Cpu).compile(lower(plan).unwrap())
}

fn near(a: &[f32], b: &[f32], limit: f32) {
    assert_eq!(a.len(), b.len());
    let err = a
        .iter()
        .zip(b)
        .map(|(x, y)| (x - y).abs())
        .fold(0.0, f32::max);
    assert!(err < limit, "err={err}");
}

fn forward(signal: &[f32], batch: usize, n: usize) -> Vec<f32> {
    let v = butterfly_forward_real_batch(&wrap(signal), &wrap(&exact(n)), batch, n).unwrap();
    plain(&v)
}

fn hann(n: usize) -> Vec<f32> {
    (0..n)
        .map(|i| (std::f32::consts::PI * i as f32 / n as f32).sin().powi(2))
        .collect()
}

/// Filters that each let a few bins through.
fn filters(n_mels: usize, n_bins: usize) -> Vec<f32> {
    let mut v = vec![0f32; n_mels * n_bins];
    for m in 0..n_mels {
        for k in 0..n_bins {
            if (k * n_mels) / n_bins == m || (k * n_mels) / n_bins == m + 1 {
                v[m * n_bins + k] = 0.5 + 0.01 * k as f32;
            }
        }
    }
    v
}

#[test]
fn compiled_forward_graph_matches_the_eager_transform() {
    let cfg = FftLearnConfig::new(16, 3).unwrap();
    let built = build_butterfly_forward_graph::<Float>(&cfg, "tw");
    let mut graph = compiled(&built.graph);
    let mut tw = exact(16);
    for (i, w) in tw.iter_mut().enumerate() {
        *w += 0.01 * (i as f32).sin();
    }
    graph.set_param("tw", &tw);
    let signal: Vec<f32> = (0..48).map(|i| (i as f32 * 0.3).sin()).collect();
    let got = graph.run(&[("signal", &signal)]).remove(0);
    let want = butterfly_forward_real_batch(&wrap(&signal), &wrap(&tw), 3, 16).unwrap();
    near(&got, &plain(&want), 1e-4);
}

#[test]
fn compiled_inverse_graph_matches_the_eager_transform() {
    let cfg = FftLearnConfig::new(8, 2).unwrap();
    let built = build_butterfly_inverse_graph::<Float>(&cfg, "tw");
    let mut graph = compiled(&built.graph);
    let tw = exact(8);
    graph.set_param("tw", &tw);
    let spectrum: Vec<f32> = (0..32).map(|i| (i as f32 * 0.7).cos()).collect();
    let got = graph.run(&[("spectrum", &spectrum)]).remove(0);
    let want = butterfly_inverse_complex_batch(&wrap(&spectrum), &wrap(&tw), 2, 8).unwrap();
    near(&got, &plain(&want), 1e-4);
}

#[test]
fn rlx_fft_graph_builds() {
    let cfg = FftLearnConfig::new(64, 2).unwrap();
    let plan = build_distilled_spectrum_graph::<Float>(&cfg);
    let mut graph = compiled(&plan.graph);
    let signal: Vec<f32> = (0..128).map(|i| (i as f32 * 0.02).sin()).collect();
    let block = graph.run(&[("signal", &signal)]).remove(0);
    let rows = plain(&block_to_interleaved(&wrap(&block), 2, 64));
    near(&rows, &forward(&signal, 2, 64), 1e-3);
    let back = build_backend_inverse_graph::<Float>(&cfg);
    let mut graph = compiled(&back.graph);
    let block = graph.run(&[("spectrum", &block)]).remove(0);
    let rows = plain(&block_to_interleaved(&wrap(&block), 2, 64));
    for (i, x) in signal.iter().enumerate() {
        assert!((rows[2 * i] - 64.0 * x).abs() < 1e-2);
        assert!(rows[2 * i + 1].abs() < 1e-2);
    }
}

#[test]
fn compiled_native_graph_masks_and_denoises() {
    let cfg = FftLearnConfig::new(8, 2).unwrap();
    let plan = build_native_fft_post_graph::<Float>(&cfg);
    let mut model: FastLearnedFftModel<Float> =
        FastLearnedFftModel::new(8, 2, vec![], vec![], vec![]);
    for i in 0..16 {
        model.freq_mask[i] = Float(1.0 - 0.05 * i as f32);
        model.denoiser.scale[i] = Float(0.5 + 0.1 * i as f32);
        model.denoiser.bias[i] = Float(0.01 * i as f32);
    }
    let mut graph = compiled(&plan.graph);
    graph.set_param("freq_mask", &plain(&model.freq_mask));
    graph.set_param("denoise.scale", &plain(&model.denoiser.scale));
    graph.set_param("denoise.bias", &plain(&model.denoiser.bias));
    let signal: Vec<f32> = (0..16).map(|i| (i as f32 * 0.9).sin()).collect();
    let got = graph.run(&[("signal", &signal)]).remove(0);
    let want = model
        .forward_spectrum(&wrap(&forward(&signal, 2, 8)), 2, true)
        .unwrap();
    near(&got, &plain(&want), 1e-3);
}

#[test]
fn compiled_distilled_matches_eager() {
    let (n, batch, n_mels) = (64usize, 4usize, 16usize);
    let cfg = FftLearnConfig::new(64, 4).unwrap();
    let bank = filters(n_mels, n / 2 + 1);
    let mut model: DistilledFftModel<Float> = DistilledFftModel::new(64, 16, wrap(&bank));
    for i in 0..2 * n {
        model.freq_mask[i] = Float(1.0 + 0.002 * i as f32);
        model.denoiser.bias[i] = Float(0.001 * i as f32);
    }
    let signal: Vec<f32> = (0..256).map(|i| (i as f32 * 0.02).sin()).collect();
    let window = hann(n);
    let windowed = plain(&window_batch(&wrap(&signal), &wrap(&window), batch, n));
    let spectrum = model
        .correct_fft_spectrum(&wrap(&forward(&windowed, batch, n)), batch)
        .unwrap();
    let mut eager = vec![0f32; batch * n_mels];
    rlx_ir::audio::log_mel_interleaved_f32(
        &plain(&spectrum),
        &bank,
        batch,
        n,
        n / 2 + 1,
        n_mels,
        &mut eager,
    );
    let plan = build_distilled_mel_graph::<Float>(&cfg, n_mels);
    let mut graph = compiled(&plan.graph);
    let (gain, bias) = model.correction_params();
    let (block_gain, block_bias) = block_affine_params(&gain, &bias, n);
    graph.set_param("hann", &window);
    graph.set_param("corr.gain", &plain(&block_gain));
    graph.set_param("corr.bias", &plain(&block_bias));
    graph.set_param("mel.filters", &bank);
    let comp = graph.run(&[("signal", &signal)]).remove(0);
    near(&eager, &comp, 1e-3);
    let bare = build_windowed_mel_graph::<Float>(&cfg, n_mels);
    assert_eq!(bare.params.len(), 3);
    let mut graph = compiled(&bare.graph);
    graph.set_param("corr.gain", &plain(&block_gain));
    graph.set_param("corr.bias", &plain(&block_bias));
    graph.set_param("mel.filters", &bank);
    let skipped = graph.run(&[("signal", &windowed)]).remove(0);
    near(&eager, &skipped, 1e-3);
}

#[test]
fn compile_learned_cpu_butterfly() {
    let cfg = FftLearnConfig::new(64, 4).unwrap();
    let first = plan_learned_compile(Device::Cpu)[0];
    assert_eq!(first.kind, LearnedSpectrumKind::Butterfly);
    assert_eq!(first.device, Device::Cpu);
    let plan = build_learned_spectrum_graph::<Float>(&cfg, "tw");
    let mut graph = compiled(&plan.graph);
    graph.set_param("tw", &exact(64));
    graph.set_param("freq_mask", &vec![1.0; 128]);
    graph.set_param("denoise.scale", &vec![1.0; 128]);
    graph.set_param("denoise.bias", &vec![0.0; 128]);
    let signal = vec![0.1f32; 4 * 64];
    let windowed = plain(&window_batch(&wrap(&signal), &wrap(&hann(64)), 4, 64));
    let got = graph.run(&[("signal", &windowed)]).remove(0);
    near(&got, &forward(&windowed, 4, 64), 1e-3);
}

#[test]
fn compiled_banded_correction_reads_planes() {
    let cfg = FftLearnConfig::new(4, 2).unwrap();
    let mut g: GraphPlan<Float> = GraphPlan::new("band");
    let state = g.input("x", vec![2, 4, 2]);
    let block = append_interleaved_to_block(&mut g, state, 2, 4);
    let mut names = Vec::new();
    let out = append_banded_spectrum_correction(&mut g, block, &cfg, "corr", &mut names);
    g.set_outputs(vec![out]);
    let mut graph = compiled(&g);
    let rhs: Vec<f32> = (0..64).map(|i| (i as f32 * 0.11).cos()).collect();
    let bias: Vec<f32> = (0..8).map(|i| i as f32).collect();
    graph.set_param("corr.band_rhs", &rhs);
    graph.set_param("corr.bias", &bias);
    let x: Vec<f32> = (0..16).map(|i| (i as f32 * 0.4).sin()).collect();
    let got = graph.run(&[("x", &x)]).remove(0);
    let planes = plain(&interleaved_to_block(&wrap(&x), 2, 4));
    let mut want = Vec::new();
    for b in 0..2 {
        for c in 0..8 {
            let mut acc = bias[c];
            for j in 0..8 {
                acc += planes[b * 8 + j] * rhs[j * 8 + c];
            }
            want.push(acc);
        }
    }
    near(&got, &want, 1e-4);
}

#[test]
fn a_transform_alone_gives_planes() {
    let plan = build_fft_only_graph::<Float>(3, 16);
    assert_eq!(plan.output, 3);
    let mut graph = compiled(&plan.graph);
    let segs: Vec<f32> = (0..48).map(|i| (i as f32 * 0.4).cos()).collect();
    let block = graph.run(&[("segs", &segs)]).remove(0);
    let rows = plain(&block_to_interleaved(&wrap(&block), 3, 16));
    near(&rows, &forward(&segs, 3, 16), 1e-3);
}

#[test]
fn compile_learned_metal_butterfly_or_fallback() {
    let cfg = FftLearnConfig::new(64, 4).unwrap();
    let attempts = plan_learned_compile(Device::Metal);
    assert!(!attempts.is_empty());
    let signal = vec![0.1f32; 4 * 64];
    for attempt in attempts {
        assert_eq!(attempt.device, Device::Metal);
        let plan = match attempt.kind {
            LearnedSpectrumKind::Butterfly => build_learned_spectrum_graph::<Float>(&cfg, "tw"),
            LearnedSpectrumKind::NativeFftPost => build_native_fft_post_graph::<Float>(&cfg),
        };
        let lowered = lower(&plan.graph).unwrap();
        assert_eq!(lowered.name, plan.graph.name);
        let mut graph = compiled(&plan.graph);
        if matches!(attempt.kind, LearnedSpectrumKind::Butterfly) {
            graph.set_param("tw", &exact(64));
        }
        graph.set_param("freq_mask", &vec![1.0; 128]);
        graph.set_param("denoise.scale", &vec![1.0; 128]);
        graph.set_param("denoise.bias", &vec![0.0; 128]);
        near(&graph.run(&[("signal", &signal)]).remove(0), &forward(&signal, 4, 64), 1e-3);
    }
}

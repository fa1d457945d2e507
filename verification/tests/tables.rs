use rlx_fft::ablation::{AblationReport, AblationRow};
use rlx_fft::ablation_ternary::TernaryArchConfig;
use rlx_fft::deploy_graph::{build_backend_inverse_graph, build_distilled_spectrum_graph};
use rlx_fft::e2e_bench::{E2eBenchMeta, E2eBenchReport, E2eBenchRow, GateStatus};
use rlx_fft::figure::Figure;
use rlx_fft::lower::lower;
use rlx_fft::models::{DistilledFftModel, DistilledTernaryFftModel, FastLearnedFftModel};
use rlx_fft::peaks_text::{rows_compared, welch_peaks_text, Gain, WelchPeaksBenchReport};
use rlx_fft::scalar::Residue;
use rlx_fft::tables::{
    ablation_table, e2e_table, encdec_bench_table, verdict_text, EncDecBenchRow, Verdict,
};
use rlx_fft::ternary_gates::GateLayout;
use rlx_fft::welch_peaks::{peaks_table, WelchPeaksBenchRow};

fn fig(x: f64) -> Figure {
    Figure {
        bits: x.to_bits(),
        plain: format!("{x}"),
        fixed0: format!("{x:.0}"),
        fixed1: format!("{x:.1}"),
        fixed3: format!("{x:.3}"),
        fixed4: format!("{x:.4}"),
        fixed6: format!("{x:.6}"),
        sci2: format!("{x:.2e}"),
        sci3: format!("{x:.3e}"),
        sci4: format!("{x:.4e}"),
        sci6: format!("{x:.6e}"),
        json: if x.is_finite() {
            format!("{x:?}")
        } else {
            "null".to_string()
        },
    }
}

fn study_row(variant: &str, n_fft: usize, device: &str, ms: f64) -> AblationRow {
    AblationRow {
        tier: "A".to_string(),
        variant: variant.to_string(),
        direction: "Forward".to_string(),
        n_fft,
        batch: 8,
        device: device.to_string(),
        iters: 3,
        ms: fig(ms),
        max_err: fig(0.001),
        train_steps: 0,
        param_count: 0,
        memory_bytes: 0,
        status: "ok".to_string(),
        note: None,
    }
}

#[test]
fn ablation_table_lists_cells_in_order_and_rows_by_time() {
    let report = AblationReport {
        iters: 3,
        train_steps: 5,
        both_dirs: true,
        with_welch: false,
        limit_sweep: false,
        n_ffts: vec![64],
        elapsed_ms: fig(12.34),
        rows: vec![
            study_row("slow", 128, "cpu", 2.0),
            study_row("lost", 64, "metal", f64::NAN),
            study_row("slow", 64, "cpu", 2.0),
            study_row("fast", 64, "cpu", 1.5),
            study_row("tied", 64, "cpu", 2.0),
        ],
    };
    let expected = format!(
        "\n=== FFT variant ablation (iters=3, train_steps=5, both_dirs=true, with_welch=false) ===\n\n\
         --- Forward n_fft=64 batch=8 device=cpu ---\n{head}\n\
         {:<24} {:>6} {:>10.4} {:>10.3e}\n{:<24} {:>6} {:>10.4} {:>10.3e}\n{:<24} {:>6} {:>10.4} {:>10.3e}\n\
         \x20 → fastest: fast (1.5000 ms)\n\n\
         --- Forward n_fft=64 batch=8 device=metal ---\n{head}\n\
         {:<24} {:>6} {:>10.4} {:>10.3e}\n\
         \x20 → fastest: lost (NaN ms)\n\n\
         --- Forward n_fft=128 batch=8 device=cpu ---\n{head}\n\
         {:<24} {:>6} {:>10.4} {:>10.3e}\n\
         \x20 → fastest: slow (2.0000 ms)\n\n\
         Total ablation time: 12.3 ms\n\n",
        "fast", "A", 1.5, 0.001, "slow", "A", 2.0, 0.001, "tied", "A", 2.0, 0.001,
        "lost", "A", f64::NAN, 0.001, "slow", "A", 2.0, 0.001,
        head = format!("{:<24} {:>6} {:>10} {:>10}", "variant", "tier", "ms", "max_err"),
    );
    assert_eq!(ablation_table(&report), expected);
}

fn bench_row(pipeline: &str, backend: &str, ms: f64, gate: Option<&str>) -> E2eBenchRow {
    E2eBenchRow {
        pipeline: pipeline.to_string(),
        backend: backend.to_string(),
        n_fft: 64,
        batch: 4,
        device: "cpu".to_string(),
        iters: 2,
        ms: fig(ms),
        max_err: fig(0.25),
        mean_gate: gate.map(str::to_string),
    }
}

#[test]
fn e2e_table_lists_pipelines_in_order_and_rows_by_time() {
    let report = E2eBenchReport {
        n_mels: 16,
        iters: 2,
        elapsed_ms: fig(9.0),
        rows: vec![
            bench_row("welch", "rustfft_ref", 3.0, None),
            bench_row("mel", "learned_model", 2.0, Some("0.500")),
            bench_row("mel", "rustfft_ref", 1.0, None),
        ],
        meta: E2eBenchMeta {
            n_fft: 64,
            seed: 1,
            devices: vec![],
            batches: vec![],
            peak_k: 8,
            train_steps: None,
            distill_steps: None,
            teacher: None,
            distill: None,
            per_batch: vec![],
        },
    };
    let head = format!("{:<18} {:>8} {:>10} {:>12}", "backend", "ms", "max_err", "mean_gate");
    let line = |b: &str, ms: f64, g: &str| {
        format!("{b:<18} {ms:>8.4} {:>10.3e} {g:>12}\n", 0.25)
    };
    let expected = format!(
        "\n=== E2E learned FFT validation (n_mels=16, iters=2) ===\n\n\
         --- pipeline: mel ---\n{head}\n{}{}  → fastest: rustfft_ref (1.0000 ms)\n\n\
         --- pipeline: welch ---\n{head}\n{}  → fastest: rustfft_ref (3.0000 ms)\n\n\
         Total bench time: 9.0 ms\n\n",
        line("rustfft_ref", 1.0, "-"),
        line("learned_model", 2.0, "0.500"),
        line("rustfft_ref", 3.0, "-"),
    );
    assert_eq!(e2e_table(&report), expected);
}

#[test]
fn encdec_table_shows_compiled_round_trips() {
    let row = |label: &str, compiled: Option<f64>| EncDecBenchRow {
        label: label.to_string(),
        encoder_ms: fig(1.0),
        decoder_ms: fig(2.0),
        roundtrip_ms: fig(3.0),
        rustfft_ms: fig(0.5),
        encoder_spectrum_max_err: fig(0.001),
        decoder_time_max_err: fig(0.002),
        roundtrip_max_err: fig(0.003),
        roundtrip_compiled_ms: compiled.map(fig),
    };
    let line = |label: &str| {
        format!(
            "{:<16} {:>10.4} {:>10.4} {:>10.4} {:>10.4} | {:>10.3e} {:>10.3e} {:>10.3e}\n",
            label, 1.0, 2.0, 3.0, 0.5, 0.001, 0.002, 0.003
        )
    };
    let expected = format!(
        "\n{:<16} {:>10} {:>10} {:>10} {:>10} | {:>10} {:>10} {:>10}\n{}{}  └ roundtrip compiled: 4.2500 ms\n",
        "phase", "enc ms", "dec ms", "rt ms", "rust ms", "enc max", "dec max", "rt max",
        line("exact"),
        line("joint"),
    );
    assert_eq!(
        encdec_bench_table(&vec![row("exact", None), row("joint", Some(4.25))]),
        expected
    );
}

fn res(v: &[u64]) -> Vec<Residue> {
    v.iter().map(|&n| Residue::new(n)).collect()
}

fn teacher() -> FastLearnedFftModel<Residue> {
    let mut t = FastLearnedFftModel::new(1, 2, res(&[]), res(&[]), res(&[4]));
    t.freq_mask = res(&[2, 3]);
    t.denoiser.scale = res(&[5, 7]);
    t.denoiser.bias = res(&[1, 1]);
    t
}

#[test]
fn students_correct_spectra_as_their_teacher_does() {
    let t = teacher();
    let spectrum = res(&[10, 20]);
    let learned = t.forward_spectrum(&spectrum, 1, true).unwrap();
    assert_eq!(learned, res(&[101, 421]));
    assert_eq!(t.forward_spectrum(&spectrum, 1, false).unwrap(), res(&[20, 60]));
    assert!(t.forward_spectrum(&spectrum, 2, true).is_none());
    let s = DistilledFftModel::from_teacher(&t);
    assert_eq!(s.correct_fft_spectrum(&spectrum, 1).unwrap(), learned);
    assert!(s.correct_fft_spectrum(&spectrum, 2).is_none());
    assert_eq!(s.correction_params(), (res(&[10, 21]), res(&[1, 1])));
    let fresh: DistilledFftModel<Residue> = DistilledFftModel::new(1, 2, res(&[]));
    assert_eq!(fresh.correct_fft_spectrum(&spectrum, 1).unwrap(), spectrum);
}

#[test]
fn architectures_route_both_paths() {
    let mut m: DistilledTernaryFftModel<Residue> =
        DistilledTernaryFftModel::new(8, 2, res(&[]), res(&[]));
    assert_eq!(m.gate_counts(), (0, 12, 0));
    m.gates[0] = 0;
    m.gates[1] = -1;
    assert_eq!(m.gate_counts(), (1, 10, 1));
    assert_eq!(m.spec_gates_slice(), m.mel_gates());
    m.apply_arch_config(&TernaryArchConfig::dual_path_mel_sparse());
    assert_eq!(m.gate_layout, GateLayout::DualMelSpec);
    assert_eq!(m.gate_counts(), (1, 11, 0));
    assert_eq!(m.spec_gates_slice(), &vec![1i8; 12]);
    m.apply_arch_config(&TernaryArchConfig::fusion_only());
    assert_eq!(m.gate_counts(), (0, 12, 0));
    let x = res(&[7; 16]);
    assert_eq!(m.spectrum_batch(&x, 1).unwrap(), x);
    m.freq_mask[0] = Residue::new(2);
    assert_eq!(m.spectrum_batch_raw(&x, 1).unwrap()[0], Residue::new(14));
    m.reset_correction_for_gates();
    assert_eq!(m.spectrum_batch_raw(&x, 1).unwrap(), x);
    assert!(m.spectrum_batch_raw(&x, 2).is_none());
    m.gate_layout = GateLayout::SingleSparse;
    m.gates[3] = 0;
    m.sync_spec_gates();
    assert_eq!(m.spec_gates[3], 0);
}

#[test]
fn students_start_from_their_teachers() {
    let t = teacher();
    let mut wide: FastLearnedFftModel<Residue> =
        FastLearnedFftModel::new(8, 2, res(&[]), res(&[]), res(&[4]));
    wide.freq_mask[5] = Residue::new(9);
    let m = DistilledTernaryFftModel::from_teacher(&wide, res(&[1]));
    assert_eq!(m.freq_mask[5], Residue::new(9));
    assert_eq!(m.mel_filters, res(&[4]));
    let base = DistilledFftModel::from_teacher(&t);
    let m = DistilledTernaryFftModel::from_distilled(&base, &wide, res(&[1]));
    assert_eq!(m.freq_mask[5], Residue::new(1));
    assert_eq!(m.twiddles, res(&[1]));
}

#[test]
fn backend_graphs_lower() {
    let cfg = rlx_fft::config::FftLearnConfig::new(8, 3).unwrap();
    let g = lower(&build_distilled_spectrum_graph::<Residue>(&cfg).graph).unwrap();
    assert_eq!(g.shape(g.outputs[0]).num_elements(), Some(48));
    let g = lower(&build_backend_inverse_graph::<Residue>(&cfg).graph).unwrap();
    assert!(g.input_id("spectrum").is_some());
    assert_eq!(g.len(), 2);
}

fn peaks_row(path: &str, batch: usize, k: usize, ms: f64, err: Option<f64>) -> WelchPeaksBenchRow {
    WelchPeaksBenchRow {
        path: path.to_string(),
        n_fft: 64,
        batch,
        k,
        device: "cpu".to_string(),
        iters: 1,
        ms: fig(ms),
        output_len: 12,
        peak_err: err.map(fig),
        algo_bw_gbps: None,
    }
}

fn peaks_text(rows: Vec<WelchPeaksBenchRow>) -> String {
    let report = WelchPeaksBenchReport {
        n_fft: 64,
        batch: 4,
        k: 8,
        elapsed_ms: fig(3.21),
        rows,
    };
    let gains: Vec<Gain> = peaks_table(&report.rows)
        .into_iter()
        .map(|line| match rows_compared(line) {
            Some((a, b)) => {
                let x = f64::from_bits(report.rows[a].ms.bits) / f64::from_bits(report.rows[b].ms.bits);
                Gain { text: format!("{x:.2}"), wins: x >= 1.0 }
            }
            None => Gain { text: String::new(), wins: false },
        })
        .collect();
    welch_peaks_text(&report, &gains)
}

#[test]
fn peaks_table_of_one_setting_shows_gains() {
    let text = peaks_text(vec![
        peaks_row("welch_full_psd", 4, 8, 4.0, None),
        peaks_row("welch_fast_peaks_rustfft", 4, 8, 2.0, Some(0.5)),
        peaks_row("welch_fast_peaks_streaming", 4, 8, 1.0, None),
    ]);
    let row = |path: &str, ms: f64, err: &str| {
        format!("  {path:40} ms={ms:8.4} out={:6} peak_err={err}\n", 12)
    };
    let expected = format!(
        "\n=== Welch peaks bench n_fft=64 batch=4 k=8 ===\n\n{}{}{}\n  fast_peaks vs full_welch: 2.00x\n  welch_fast_peaks_streaming vs rustfft_fast: 2.00x\n\nTotal: 3.2 ms\n\n",
        row("welch_full_psd", 4.0, "n/a"),
        row("welch_fast_peaks_rustfft", 2.0, "5.000e-1"),
        row("welch_fast_peaks_streaming", 1.0, "n/a"),
    );
    assert_eq!(text, expected);
}

#[test]
fn peaks_table_of_batches_shows_the_crossover() {
    let text = peaks_text(vec![
        peaks_row("welch_fast_peaks_rustfft", 4, 8, 2.0, None),
        peaks_row("welch_peaks_picker_ultra", 4, 8, 1.0, None),
        peaks_row("welch_fast_peaks_rustfft", 16, 8, 2.0, None),
        peaks_row("welch_fast_peaks_rlx_fused", 16, 8, 4.0, None),
    ]);
    assert!(text.contains(&format!(
        "  [batch=4 k=8] {:40} ms={:8.4} out={:6} peak_err=n/a\n",
        "welch_fast_peaks_rustfft", 2.0, 12
    )));
    assert!(text.contains(
        "\n  --- batch crossover (rustfft_fast vs auto picker) ---\n  batch=     4 k=8 rustfft=2.0000ms picker=1.0000ms (ultra) ratio=2.00x picker wins\n  batch=    16 k=8 rustfft=2.0000ms rlx_fused=4.0000ms ratio=0.50x rustfft wins\n"
    ));
}

#[test]
fn peaks_table_of_counts_shows_every_path() {
    let text = peaks_text(vec![
        peaks_row("welch_fast_peaks_rustfft", 4, 8, 2.0, None),
        peaks_row("welch_fast_peaks_rlx_fused", 4, 8, 1.0, None),
        peaks_row("welch_fast_peaks_streaming", 4, 16, 3.0, None),
        peaks_row("welch_peaks_picker_fast", 4, 16, 5.0, None),
    ]);
    assert!(text.contains(
        "\n  --- k crossover (ms by path) ---\n  batch=4:\n    k=  8 rustfft=2.0000ms rlx=1.0000ms (rlx 2.00x vs rustfft)\n    k= 16 stream=3.0000ms picker=5.0000ms\n\nTotal: 3.2 ms\n"
    ));
}

#[test]
fn verdicts_name_times_errors_and_status() {
    let rows = vec![
        bench_row("mel", "rustfft_ref", 1.0, None),
        bench_row("mel", "learned_distilled_ternary", 1.25, Some("0.960")),
    ];
    let verdict = Verdict {
        device: "cpu".to_string(),
        batch: 4,
        baseline: 0,
        candidate: 1,
        compute: "Some(0.96)".to_string(),
        status: GateStatus::of(false, true),
    };
    assert_eq!(
        verdict_text(&rows, &vec![verdict.clone()], true),
        "--- mel speed gate (learned_distilled_ternary vs rustfft_ref, +5% latency) ---\n  cpu batch=4: rust=1.0000ms err=2.500e-1 | ternary=1.2500ms err=2.500e-1 compute=Some(0.96) PASS_ACC\n\n"
    );
    assert_eq!(
        verdict_text(&rows, &vec![verdict], false),
        "--- mel speed gate (learned_distilled vs rlx_op_fft, +5% latency, mel err ≤ 1.5× rlx) ---\n  cpu batch=4: rlx=1.0000ms err=2.500e-1 | distilled=1.2500ms err=2.500e-1 PASS_ACC\n\n"
    );
}

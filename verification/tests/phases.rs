use rlx_fft::device::{Available, Device};
use rlx_fft::figure::Figure;
use rlx_fft::fusion_phases::{
    check_phase_bench, fft_only_profile, find_phase, fusion_report_text, fusion_sweep_summary,
    fusion_target_for_device, phase_report, plan_fusion_sweep, signed_text, FusionTarget,
    IoProfile, PhaseError, PhaseTimes,
};
use rlx_fft::report_kind::{files_read, kind_of, report_kind, KindFacts, ReportKind};
use rlx_fft::training::{
    name_source, phase_checkpoints, plan_curve, twiddle_source, Convergence, ConvergenceRule,
    Judgement, TwiddleSource,
};

fn fig(x: f64) -> Figure {
    Figure {
        bits: x.to_bits(),
        plain: format!("{x}"),
        fixed0: format!("{x:.0}"),
        fixed1: format!("{x:.1}"),
        fixed3: format!("{x:.3}"),
        fixed4: format!("{x:.4}"),
        fixed6: format!("{x:.6}"),
        sci2: format!("{x:.2e}"),
        sci3: format!("{x:.3e}"),
        sci4: format!("{x:.4e}"),
        sci6: format!("{x:.6e}"),
        json: if x.is_finite() {
            format!("{x:?}")
        } else {
            "null".to_string()
        },
    }
}

fn live() -> Available {
    Available {
        cpu: true,
        metal: true,
        mlx: false,
        ane: false,
        cuda: false,
        rocm: false,
        xdna: false,
        egpu: false,
        one_api: false,
        tpu: false,
        hexagon: false,
        gpu: false,
        vulkan: false,
        open_gl: false,
        direct_x: false,
        web_gpu: false,
    }
}

fn dense() -> IoProfile {
    IoProfile {
        kernel_launches: 3,
        sync_points: 0,
        host_output_bytes: 33_554_432,
        device_traffic_bytes: 184_549_376,
    }
}

fn fused() -> IoProfile {
    IoProfile {
        kernel_launches: 4,
        sync_points: 1,
        host_output_bytes: 1_048_576,
        device_traffic_bytes: 219_152_384,
    }
}

fn times() -> PhaseTimes {
    PhaseTimes {
        baseline: fig(4.0),
        block_layout: fig(2.0),
        fused: fig(1.0),
        predicted_cost_ns: fig(0.0),
    }
}

#[test]
fn fusion_pays_on_metal_but_not_on_wgpu() {
    assert!(dense().is_countable());
    let metal = phase_report(64, 8, 4, "metal", Device::Metal, dense(), fused(), &times());
    assert!(metal.fusion_gate_fuse);
    assert_eq!(metal.fusion_launches_saved, -1);
    assert_eq!(metal.fusion_sync_saved, -1);
    assert_eq!(metal.fusion_readback_saved, 32_505_856);
    let wgpu = phase_report(64, 8, 4, "wgpu", Device::Gpu, dense(), fused(), &times());
    assert!(!wgpu.fusion_gate_fuse);
    assert_eq!(find_phase(&metal.rows, "phase1_block_layout"), Some(1));
    assert_eq!(find_phase(&metal.rows, "phase9"), None);
    assert_eq!(fusion_target_for_device(Device::Ane), FusionTarget::Mlx);
    let speedups = vec!["1.00".to_string(), "2.00".to_string(), "4.00".to_string()];
    let text = fusion_report_text(&metal, &speedups);
    assert!(text.contains("  IO fft-only: launches=3 sync=0 host_out=33554432 B device_traffic=184549376 B\n"));
    assert!(text.contains("  IO fused:    launches=4 "));
    assert!(text.contains("launches_saved=-1 sync_saved=-1 readback_saved=32505856 B gate_fuse=true\n"));
    assert!(text.contains(&format!("  {:32} ms={:8.4} speedup={:.2}x host_out={} B\n", "phase1_block_layout", 2.0, 2.0, 33554432)));
    let pair = ("2.00".to_string(), "4.00".to_string());
    assert_eq!(fusion_sweep_summary(&vec![metal.clone()], &vec![pair.clone()]), "");
    let both = fusion_sweep_summary(&vec![metal, wgpu], &vec![pair.clone(), pair]);
    assert!(both.contains(&format!("{:>8} {:>7.2}x {:>7.2}x {:>12}\n", 8, 2.0, 4.0, 32505856)), "{both}");
    assert!(both.contains(&format!("{:>8} {:>8} {:>8} {:>12}\n", "batch", "phase1", "phase2", "readback B")));
    assert_eq!(signed_text(i64::MIN), i64::MIN.to_string());
}

#[test]
fn phase_benches_are_checked() {
    assert_eq!(plan_fusion_sweep(&vec![1, 4096], 40), vec![(1, 40), (4096, 15)]);
    assert!(matches!(check_phase_bench(0, 1, "cpu", None, live()), Err(PhaseError::Empty)));
    assert!(matches!(check_phase_bench(1, 0, "cpu", None, live()), Err(PhaseError::Empty)));
    assert!(matches!(check_phase_bench(1, 1, "mlx", None, live()), Err(PhaseError::Device(_))));
    assert!(matches!(check_phase_bench(1, 1, "mps", None, live()), Ok(Device::Metal)));
}

#[test]
fn reports_tell_their_kind() {
    let kind = |s: &str| report_kind(&s.as_bytes().to_vec());
    assert_eq!(kind("{\"n_ffts\":[],\"rows\":[{\"regime\":1}]}"), Some(ReportKind::MultiTrain));
    assert_eq!(kind("{\"n_mels\":1,\"rows\":[{\"pipeline\":\"mel\"}]}"), Some(ReportKind::EndToEnd));
    assert_eq!(kind("{\"train_steps\":1,\"rows\":[]}"), Some(ReportKind::Ablation));
    assert_eq!(kind("{\"rows\":[{\"variant\":\"x\"}]}"), Some(ReportKind::Ablation));
    assert_eq!(kind("{\"rows\":[{},{\"variant\":\"x\"}]}"), Some(ReportKind::Sweep));
    assert_eq!(kind("{\"rows\":{\"0\":{\"variant\":\"x\"}}}"), Some(ReportKind::Sweep));
    assert_eq!(kind("not json"), None);
    let none = KindFacts {
        has_n_ffts: true,
        has_n_mels: true,
        has_train_steps: true,
        row_has_regime: false,
        row_has_pipeline: true,
        row_has_variant: true,
    };
    assert_eq!(kind_of(none), ReportKind::EndToEnd);
    assert_eq!(files_read(ReportKind::EndToEnd, 3), 3);
    assert_eq!(files_read(ReportKind::Sweep, 3), 1);
}

#[test]
fn training_stops_when_it_stops_improving() {
    let rule = ConvergenceRule { max_steps: 10, min_steps: 2, every: 2, patience: 2 };
    let mut c = Convergence::start();
    let mut measured = Vec::new();
    while c.is_running(&rule) {
        if c.stepped(&rule) {
            measured.push(c.step);
            let j = if c.step == 2 { Judgement::Improved } else { Judgement::Stale };
            c.judge(&rule, j);
        }
    }
    assert_eq!(measured, vec![2, 4, 6]);
    assert!(c.converged);
    let mut c = Convergence::start();
    while c.is_running(&rule) {
        if c.stepped(&rule) {
            c.judge(&rule, Judgement::Unusable);
        }
    }
    assert_eq!(c.step, 10);
    assert!(!c.converged);
}

#[test]
fn curves_have_points_at_both_ends() {
    assert_eq!(plan_curve(5, 2, 4), vec![(0, 0), (2, 8), (4, 16), (5, 20)]);
    assert_eq!(plan_curve(2, 0, 1), vec![(0, 0), (1, 1), (2, 2)]);
    assert_eq!(plan_curve(0, 3, 1), vec![(0, 0)]);
}

#[test]
fn checkpoints_and_sources_are_named() {
    let all = phase_checkpoints("run");
    assert_eq!(all[0].path, "run/phase1_encoder/encdec.safetensors");
    assert_eq!(all[2].phase, "phase3_joint");
    assert_eq!(twiddle_source(false, true), TwiddleSource::Exact);
    assert_eq!(name_source(TwiddleSource::Exact, true, "w"), "exact twiddles");
    assert_eq!(name_source(twiddle_source(true, true), true, "w"), "learned (w)");
    assert_eq!(name_source(twiddle_source(true, false), false, "w"), "learned encdec decoder (w)");
}

#[test]
fn a_transform_alone_launches_three_nodes() {
    let p = fft_only_profile(8, 512);
    assert_eq!(p.kernel_launches, 3);
    assert_eq!(p.sync_points, 0);
    assert_eq!(p.host_output_bytes, 8 * 512 * 2 * 4);
    assert_eq!(p.device_traffic_bytes, 8 * 512 * 44);
    assert_ne!(fft_only_profile(3, 5), fft_only_profile(5, 4));
}

use rlx_fft::device::Device;
use rlx_fft::e2e_bench::{
    backend_route, check_e2e, error_rule, gate_rule, lookup_row, merge_e2e_reports, plan_batch,
    plan_e2e, plan_run, reference_output, reported_steps, E2eBackend, E2eBatchTrainMeta,
    E2eBenchInputs, E2eBenchMeta, E2eBenchReport, E2eBenchRow, E2eError, E2ePipeline, ErrorRule,
    GateStatus, Output, PeakCaches, PeakShape, PeakShapes, RunInput, Source,
    StudentPlan, TeacherStats, TernaryPlan, TrainFlags,
};
use rlx_fft::e2e_html::{
    backend_color, gates_to_judge, heat_grid, render_e2e_html, E2ePage, GateLine,
};
use rlx_fft::figure::Figure;
use rlx_fft::tables::pipeline_table;

fn fig(x: f64) -> Figure {
    Figure {
        bits: x.to_bits(),
        plain: format!("{x}"),
        fixed0: format!("{x:.0}"),
        fixed1: format!("{x:.1}"),
        fixed3: format!("{x:.3}"),
        fixed4: format!("{x:.4}"),
        fixed6: format!("{x:.6}"),
        sci2: format!("{x:.2e}"),
        sci3: format!("{x:.3e}"),
        sci4: format!("{x:.4e}"),
        sci6: format!("{x:.6e}"),
        json: if x.is_finite() {
            format!("{x:?}")
        } else {
            "null".to_string()
        },
    }
}

fn inputs() -> E2eBenchInputs {
    E2eBenchInputs {
        n_fft: 64,
        batch: 8,
        iters: 2,
        device: Device::Cpu,
        peak_k: 0,
        has_model: true,
        model_uses_q8: false,
        has_distilled: true,
        has_distilled_ternary: false,
        with_learned_hard: false,
        with_learned_compiled: true,
        with_learned_distilled: true,
        with_learned_distilled_ternary: true,
        with_eager_learned: true,
    }
}

fn row(p: E2ePipeline, b: E2eBackend, ms: f64, err: f64) -> E2eBenchRow {
    E2eBenchRow::new(&inputs(), p, b, fig(ms), fig(err), None)
}

fn report() -> E2eBenchReport {
    E2eBenchReport {
        n_mels: 16,
        iters: 2,
        elapsed_ms: fig(5.0),
        rows: vec![
            row(E2ePipeline::Mel, E2eBackend::RlxOpFft, 2.0, 0.5),
            row(E2ePipeline::Mel, E2eBackend::LearnedDistilled, 1.0, 0.25),
            row(E2ePipeline::Welch, E2eBackend::RlxOpFft, 4.0, 0.5),
        ],
        meta: E2eBenchMeta {
            n_fft: 64,
            seed: 1,
            devices: Vec::new(),
            batches: Vec::new(),
            peak_k: 4,
            train_steps: None,
            distill_steps: Some(9),
            teacher: Some(TeacherStats {
                steps: 3,
                spectrum_max_err: fig(0.1),
                mel_max_err: fig(0.2),
                welch_max_err: fig(0.3),
                mean_gate: "0.500".to_string(),
                active_gates: 7,
                active_gates_hard: 6,
                q8_enabled: true,
                elapsed_ms: fig(11.0),
            }),
            distill: None,
            per_batch: vec![E2eBatchTrainMeta { batch: 8, teacher: None, distill: None }],
        },
    }
}

#[test]
fn runs_are_planned() {
    let plan = plan_e2e(&inputs());
    assert!(plan.contains(&(E2ePipeline::Mel, E2eBackend::RustfftRef)));
    assert!(!plan.iter().any(|(_, b)| matches!(b, E2eBackend::LearnedQ8 | E2eBackend::ButterflyEager)));
    assert!(plan.iter().all(|(p, b)| !matches!(b, E2eBackend::WelchPeaksAuto) || matches!(p, E2ePipeline::WelchPeaks)));
    let large = plan_e2e(&E2eBenchInputs { batch: 32, ..inputs() });
    assert!(!large.iter().any(|(p, _)| matches!(p, E2ePipeline::Welch)));
    assert_eq!(check_e2e(&inputs()).unwrap().peak_k, 1);
    assert!(matches!(check_e2e(&E2eBenchInputs { iters: 0, ..inputs() }), Err(E2eError::NoIterations)));
    assert!(matches!(check_e2e(&E2eBenchInputs { n_fft: 6, ..inputs() }), Err(E2eError::Config(_))));
    assert!(backend_route(E2ePipeline::Mel, E2eBackend::WelchPeaksAuto).is_none());
    assert!(backend_route(E2ePipeline::Mel, E2eBackend::RlxOpFft).is_some());
    let metal = E2eBenchInputs { n_fft: 256, batch: 8, device: Device::Metal, ..inputs() };
    let fused = plan_run(&metal, E2ePipeline::Mel, E2eBackend::LearnedDistilled).unwrap();
    assert_eq!(fused.route.output, Output::LogMel);
    assert_eq!(fused.route.source, Source::CompiledDistilled);
    assert_eq!(fused.device, Device::Cpu);
    let large = E2eBenchInputs { batch: 128, ..metal };
    let fused = plan_run(&large, E2ePipeline::Mel, E2eBackend::LearnedDistilledTernary).unwrap();
    assert_eq!(fused.route.source, Source::CompiledTernary);
    assert_eq!(fused.device, Device::Metal);
    let plain = plan_run(&large, E2ePipeline::Denoise, E2eBackend::LearnedDistilled).unwrap();
    assert_eq!((plain.route.source, plain.device), (Source::Distilled, Device::Cpu));
    let op = plan_run(&metal, E2ePipeline::Mel, E2eBackend::RlxOpFft).unwrap();
    assert_eq!((op.device, op.input), (Device::Metal, RunInput::Windowed));
    let hard = plan_run(&metal, E2ePipeline::WelchPeaksUltra, E2eBackend::LearnedCompiled).unwrap();
    assert_eq!((hard.route.source, hard.input), (Source::CompiledHardModel, RunInput::WelchSignal));
    let soft = plan_run(&metal, E2ePipeline::Mel, E2eBackend::LearnedCompiled).unwrap();
    assert_eq!((soft.route.source, soft.input), (Source::CompiledModel, RunInput::Windowed));
    assert_eq!(fused.input, RunInput::Signal);
    assert!(plan_run(&metal, E2ePipeline::Mel, E2eBackend::WelchPeaksAuto).is_none());
    assert!(matches!(error_rule(E2ePipeline::Mel, E2eBackend::RustfftRef), ErrorRule::Zero));
    let _ = (reference_output(E2ePipeline::Mel), gate_rule(E2eBackend::LearnedModel));
}

#[test]
fn peak_work_is_cached_by_shape() {
    let fast = PeakShape { n_fft: 64, n_segments: 2, hop: 32, k: 4 };
    let shapes = PeakShapes {
        reference: PeakShape { n_segments: 8, ..fast },
        fast,
        ultra_fast: PeakShape { n_segments: 1, ..fast },
    };
    let (plain, ultra) = (E2ePipeline::WelchPeaks, E2ePipeline::WelchPeaksUltra);
    let mut c = PeakCaches::new();
    let work = c.prepare(plain, E2eBackend::RlxOpFft, shapes);
    assert!(work.build && work.truncate);
    assert_eq!(work.shape, shapes.fast);
    assert!(!c.prepare(plain, E2eBackend::RlxOpFft, shapes).build);
    assert!(c.prepare(plain, E2eBackend::LearnedCompiled, shapes).build);
    let work = c.prepare(ultra, E2eBackend::RlxOpFft, shapes);
    assert!(work.build);
    assert_eq!(work.shape, shapes.ultra_fast);
    assert!(c.learned.is_none());
    let work = c.prepare(ultra, E2eBackend::RustfftRef, shapes);
    assert!(!work.truncate && !work.build);
    assert_eq!(work.shape, shapes.reference);
}

#[test]
fn reports_merge() {
    assert!(matches!(merge_e2e_reports(&Vec::new(), fig(0.0)), Err(E2eError::NothingToMerge)));
    let m = merge_e2e_reports(&vec![report(), report()], fig(10.0)).unwrap();
    assert_eq!(m.rows.len(), 6);
    assert_eq!(m.n_mels, 16);
    assert_eq!(m.meta.per_batch.len(), 1);
    assert_eq!(lookup_row(&m.rows, "mel", "cpu", 8, "learned_distilled"), Some(1));
    assert_eq!(lookup_row(&m.rows, "mel", "cpu", 9, "learned_distilled"), None);
    assert_eq!(pipeline_table(&m.rows, "mel"), vec![1, 4, 0, 3]);
}

#[test]
fn batches_are_trained_as_asked() {
    let f = TrainFlags { train_first: false, distill_first: true, ternary_distill_first: true };
    let p = plan_batch(f, 10, 8);
    assert_eq!(p.teacher_seed, Some(18));
    assert_eq!(p.student, StudentPlan::Distilled { seed: 19 });
    assert_eq!(p.ternary, TernaryPlan::DistilledFromStudent { seed: 21 });
    assert_eq!(reported_steps(f, 5, 6), (Some(5), Some(6)));
    let none = TrainFlags { train_first: false, distill_first: false, ternary_distill_first: false };
    assert_eq!(plan_batch(none, u64::MAX, 1).bench_seed, 0);
    assert_eq!(reported_steps(none, 5, 6), (None, None));
}

#[test]
fn gates_have_a_status() {
    assert_eq!(GateStatus::of(true, true).label(), "PASS");
    assert_eq!(GateStatus::of(true, false).label(), "PASS_SPEED");
    assert_eq!(GateStatus::of(false, true).label(), "PASS_ACC");
    assert_eq!(GateStatus::of(false, false).label(), "FAIL");
    assert_eq!(GateStatus::of(false, false).class(), "fail");
    assert_eq!(GateStatus::of(false, true).class(), "warn");
}

#[test]
fn pages_of_benches_hold_their_sections() {
    let r = report();
    let pairs = gates_to_judge(&r);
    assert_eq!(pairs.len(), 1);
    let gates = pairs
        .iter()
        .map(|p| GateLine {
            device: p.device.clone(),
            batch: p.batch,
            baseline: p.baseline,
            candidate: p.candidate,
            status: GateStatus::of(true, true),
            speed_ratio: "0.500".to_string(),
            err_ratio: "0.500".to_string(),
        })
        .collect();
    assert_eq!(heat_grid(&r), vec![vec![Some((0, 1))]]);
    let page = E2ePage {
        generated: "unix 0".to_string(),
        json: "{}".to_string(),
        gates,
        speed: vec![vec!["0.5".to_string()]],
        error: vec![vec!["0.5".to_string()]],
    };
    let html = render_e2e_html(&r, &page);
    assert!(html.contains("<div class=\"value\">3</div><div class=\"sub\">teacher butterfly</div>"));
    assert!(html.contains("<div class=\"value\">9</div><div class=\"sub\">student deploy</div>"));
    assert!(html.contains("1.0000 ms (cpu/8)"));
    assert!(html.contains("<td class=\"pass\">PASS</td>"));
    assert!(html.contains("\"z\":[[0.5]],\"zmid\":1.0}"));
    assert!(html.contains("makeGroupedBar('lat-mel-0', [8], [{\"backgroundColor\":\"#f28e2b\""));
    assert!(html.contains("makeGroupedBar('err-welch-0', [8], "));
    assert!(html.contains("<section><h2>Other pipelines</h2><h3>welch</h3>"));
    assert!(html.contains("{\"learned_distilled\":\"#ff7f0e\",\"rlx_op_fft\":\"#f28e2b\"}"));
    assert!(html.contains("7 / 6 hard"));
    assert!(html.contains("[2.0000e-1, 3.0000e-1, null, null, null]"));
    assert_eq!(backend_color("learned_q8"), "#b07aa1");
    assert_eq!(backend_color("unknown"), "#8b949e");
}

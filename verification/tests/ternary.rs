use rlx_fft::ablation_ternary::{
    cell_seeds, group_point, plan_cell, post_prune_steps, quick_ablation_opts, route_ternary,
    ternary_ablation_row_ok, ternary_groups, ternary_pareto_frontier, ternary_recommendation,
    trained_arch, variant_matrix, warm_up_runs, Ratio, TernaryAblationOpts, TernaryAblationRow,
    TernaryArchVariantId, TernaryExecMode, TernaryParetoPoint,
};
use rlx_fft::e2e_bench::{E2ePipeline, Output, Route, Source};
use rlx_fft::figure::Figure;
use rlx_fft::ternary_html::{
    distinct_configs, distinct_ternary_devices, render_ternary_ablation_html, ternary_csv_text,
    ternary_terminal_section, TernaryAblationReport, TernaryPage, TernarySection,
};

fn fig(x: f64) -> Figure {
    Figure {
        bits: x.to_bits(),
        plain: format!("{x}"),
        fixed0: format!("{x:.0}"),
        fixed1: format!("{x:.1}"),
        fixed3: format!("{x:.3}"),
        fixed4: format!("{x:.4}"),
        fixed6: format!("{x:.6}"),
        sci2: format!("{x:.2e}"),
        sci3: format!("{x:.3e}"),
        sci4: format!("{x:.4e}"),
        sci6: format!("{x:.6e}"),
        json: if x.is_finite() {
            format!("{x:?}")
        } else {
            "null".to_string()
        },
    }
}

fn ratio(x: f64) -> Ratio {
    Ratio {
        bits: x.to_bits(),
        debug: format!("{x:?}"),
        fixed3: format!("{x:.3}"),
        fixed4: format!("{x:.4}"),
        fixed6: format!("{x:.6}"),
    }
}

fn sample_point(variant: &str, ms: f64, mel: f64, den: f64, q8: f64, welch: f64) -> TernaryParetoPoint {
    TernaryParetoPoint {
        variant: variant.to_string(),
        mode: "eager".to_string(),
        prune_target: Some(ratio(0.96)),
        mean_ms: fig(ms),
        max_norm_err: fig(mel.max(den).max(q8).max(welch)),
        mel_norm: fig(mel),
        denoise_norm: fig(den),
        q8_norm: fig(q8),
        welch_norm: fig(welch),
        compute_fraction: Some(ratio(0.96)),
    }
}

#[test]
fn pareto_frontier_drops_dominated() {
    let points = vec![
        sample_point("slow_good", 10.0, 0.01, 0.01, 0.1, 0.01),
        sample_point("fast_ok", 5.0, 0.05, 0.05, 0.12, 0.05),
        sample_point("dominated", 12.0, 0.2, 0.2, 0.2, 0.2),
    ];
    let front = ternary_pareto_frontier(&points);
    let labels: Vec<_> = front.iter().map(|p| p.variant.as_str()).collect();
    assert!(!labels.contains(&"dominated"));
    assert!(labels.contains(&"slow_good"));
    assert!(labels.contains(&"fast_ok"));
    assert_eq!(labels[0], "fast_ok");
    assert_eq!(
        ternary_recommendation(&points).unwrap(),
        "fast_ok@eager prune=Some(0.96) (mean_ms=5.0000 max_norm=1.200e-1)"
    );
    assert!(ternary_recommendation(&Vec::new()).is_none());
}

#[test]
fn variant_matrix_quick_smaller() {
    let q = variant_matrix(true, &vec![1.0f64.to_bits(), 0.96f64.to_bits()]);
    let f = variant_matrix(
        false,
        &vec![1.0f64.to_bits(), 0.98f64.to_bits(), 0.96f64.to_bits(), 0.94f64.to_bits()],
    );
    assert!(q.len() < f.len());
}

fn row(pipeline: &str, ms: f64, err: f64) -> TernaryAblationRow {
    TernaryAblationRow {
        variant: "fusion_only".to_string(),
        pipeline: pipeline.to_string(),
        mode: "eager".to_string(),
        n_fft: 64,
        batch: 8,
        device: "cpu".to_string(),
        iters: 3,
        ms: fig(ms),
        max_err: fig(err * 2.0),
        norm_err: fig(err),
        compute_fraction: None,
        skip_gates: Some(4),
        prune_target: Some(ratio(0.96)),
        status: "ok".to_string(),
        note: None,
    }
}

fn section() -> (Vec<TernaryAblationRow>, TernarySection) {
    let rows = vec![row("mel", 1.0, 0.1), row("denoise", 3.0, 0.3), row("q8", 2.0, f64::NAN)];
    let groups = ternary_groups(&rows, "cpu", 64, 8);
    assert_eq!(groups, vec![vec![0, 1, 2]]);
    let point = group_point(&rows, &groups[0], fig(2.0));
    (
        rows,
        TernarySection { n_fft: 64, batch: 8, device: "cpu".to_string(), points: vec![point] },
    )
}

#[test]
fn groups_become_points() {
    let (rows, s) = section();
    let p = &s.points[0];
    assert_eq!(f64::from_bits(p.max_norm_err.bits), 0.3);
    assert_eq!(f64::from_bits(p.mel_norm.bits), 0.1);
    assert!(f64::from_bits(p.welch_norm.bits).is_nan());
    assert!(ternary_ablation_row_ok(&rows[0]));
    let mut bad = row("mel", 0.0, 0.1);
    assert!(!ternary_ablation_row_ok(&bad));
    bad.ms = fig(1.0);
    bad.status = "bench_fail".to_string();
    assert!(!ternary_ablation_row_ok(&bad));
}

#[test]
fn reports_on_ternary_ablations_are_written() {
    let (rows, s) = section();
    let csv = ternary_csv_text(&rows);
    assert!(csv.starts_with("variant,pipeline,exec,n_fft,"));
    assert!(csv.contains("fusion_only,mel,eager,64,8,cpu,3,1.000000,2.000000e-1,1.000000e-1,-,4,0.960,ok\n"));
    assert_eq!(distinct_configs(&rows), vec![(64, (8, "cpu".to_string()))]);
    assert_eq!(distinct_ternary_devices(&rows), vec!["cpu"]);
    let text = ternary_terminal_section(&s);
    assert!(text.starts_with("--- n_fft=64 batch=8 device=cpu ---\n  Pareto pick: fusion_only@eager prune=Some(0.96)"));
    assert!(text.contains("  Frontier (1):\n    fusion_only eager prune=Some(0.96) ms=2.0000 mel=1.00e-1"));
    let report = TernaryAblationReport {
        quick: true,
        iters: 3,
        teacher_steps: 1,
        distill_steps: 1,
        ternary_steps: 1,
        n_ffts: vec![64],
        batches: vec![8],
        prune_targets: vec![ratio(0.96)],
        elapsed_ms: fig(7.0),
        rows,
    };
    let page = TernaryPage { json: "{}".to_string(), devices: "{\"cpu\"}".to_string() };
    let html = render_ternary_ablation_html(&report, &vec![s], &page);
    assert!(html.contains("<p>quick=true elapsed_ms=7.0 devices={\"cpu\"}</p>"));
    assert!(html.contains("<h2>n_fft=64 batch=8 device=cpu</h2>"));
    assert!(html.contains("{x:[2.0000],y:[3.0000e-1],mode:'markers',name:'fusion_only eager Some(0.96)',text:['fusion_only@eager']},"));
}

#[test]
fn seeds_of_a_cell_differ() {
    let (a, b, c, d) = cell_seeds(1, 64, 8);
    let mut all = vec![a, b, c, d];
    all.sort();
    all.dedup();
    assert!(all.len() > 1);
    let _ = plan_cell;
}

#[test]
fn variants_are_trained_and_routed() {
    let half = 0.5f64.to_bits();
    assert_eq!(trained_arch(TernaryArchVariantId::RefRustfft, half), None);
    let dual = trained_arch(TernaryArchVariantId::DualPath, half).unwrap();
    assert_eq!(dual.target_compute_fraction, half);
    assert_eq!(dual.target_spec_compute_fraction, 1.0f64.to_bits());
    assert_eq!(
        route_ternary(
            TernaryArchVariantId::RefRlxOpFft,
            E2ePipeline::Welch,
            TernaryExecMode::Eager
        ),
        Some(Route { output: Output::WelchPsd, source: Source::Reference })
    );
    assert_eq!(
        route_ternary(
            TernaryArchVariantId::DualPath,
            E2ePipeline::Mel,
            TernaryExecMode::CompiledMel
        ),
        Some(Route { output: Output::LogMel, source: Source::CompiledTernary })
    );
    assert_eq!((warm_up_runs(0), warm_up_runs(5)), (0, 4));
}

#[test]
fn studies_start_from_known_settings() {
    let full = TernaryAblationOpts::default();
    assert_eq!((full.n_ffts.as_slice(), full.batches.as_slice()), ([128].as_slice(), [8].as_slice()));
    assert_eq!((full.iters, full.teacher_steps, full.distill_steps), (20, 400, 600));
    assert_eq!((full.ternary_steps, full.seed, full.quick), (600, 42, false));
    let targets: Vec<f32> = full.prune_targets.iter().map(|&b| f64::from_bits(b) as f32).collect();
    assert_eq!(targets, vec![1.0, 0.98, 0.96, 0.94]);
    assert_eq!(full.devices[0], "cpu");
    let quick = quick_ablation_opts();
    assert_eq!((quick.iters, quick.teacher_steps, quick.ternary_steps), (12, 200, 300));
    assert_eq!(quick.prune_targets.len(), 2);
    assert!(quick.can_run());
    assert_eq!(post_prune_steps(true), Some((120, 120)));
    assert_eq!(post_prune_steps(false), None);
}

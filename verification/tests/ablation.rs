use rlx_fft::ablation::{
    ablation_row_ok, ablation_winners, merge_ablation_reports, tier_summary, top5_variants_per_n_fft,
    AblationReport, AblationRow,
};
use rlx_fft::ablation_csv::{
    ablation_csv_bundle_paths, limits_csv_text, meta_csv_text, meta_from_csv_text, report_from_csv,
    rows_csv_text, rows_from_csv_text, top5_csv_text, CsvError,
};
use rlx_fft::ablation_html::{
    render_ablation_html, shading_facts, tiers_ranked, unique_variants, AblationPage, TierBar,
    VARIANT_COLORS,
};
use rlx_fft::figure::{format_err, format_ms, is_less, is_nan, Figure};
use rlx_fft::grid::Shade;
use rlx_fft::html::colours_json;
use rlx_fft::report_kind::{report_kind, ReportKind};
use serde_json::Value;

fn fig(x: f64) -> Figure {
    Figure {
        bits: x.to_bits(),
        plain: format!("{x}"),
        fixed0: format!("{x:.0}"),
        fixed1: format!("{x:.1}"),
        fixed3: format!("{x:.3}"),
        fixed4: format!("{x:.4}"),
        fixed6: format!("{x:.6}"),
        sci2: format!("{x:.2e}"),
        sci3: format!("{x:.3e}"),
        sci4: format!("{x:.4e}"),
        sci6: format!("{x:.6e}"),
        json: if x.is_finite() {
            format!("{x:?}")
        } else {
            "null".to_string()
        },
    }
}

fn row(tier: &str, variant: &str, n: usize, batch: usize, device: &str, ms: f64) -> AblationRow {
    AblationRow {
        tier: tier.to_string(),
        variant: variant.to_string(),
        direction: "Forward".to_string(),
        n_fft: n,
        batch,
        device: device.to_string(),
        iters: 5,
        ms: fig(ms),
        max_err: fig(0.0),
        train_steps: 0,
        param_count: 100,
        memory_bytes: 400,
        status: "ok".to_string(),
        note: None,
    }
}

fn report(rows: Vec<AblationRow>) -> AblationReport {
    AblationReport {
        iters: 5,
        train_steps: 0,
        both_dirs: true,
        with_welch: true,
        limit_sweep: false,
        n_ffts: vec![64, 128],
        elapsed_ms: fig(1.0),
        rows,
    }
}

#[test]
fn top5_picks_distinct_variants_per_n_fft() {
    let ab = report(vec![
        row("baseline", "rustfft", 64, 8, "cpu", 0.01),
        row("baseline", "rustfft", 64, 8, "cpu", 0.02),
        row("baseline", "rlx_op_fft", 64, 8, "cpu", 0.015),
        row("baseline", "butterfly_eager", 64, 8, "cpu", 0.012),
        row("baseline", "rustfft", 128, 8, "cpu", 0.02),
        row("baseline", "rlx_op_fft", 128, 8, "cpu", 0.018),
    ]);
    let top = top5_variants_per_n_fft(&ab);
    assert_eq!(top.len(), 2);
    let n64 = top.iter().find(|(n, _)| *n == 64).unwrap();
    assert_eq!(n64.1.len(), 3);
    assert_eq!(n64.1[0].variant, "rustfft");
    assert_eq!(f64::from_bits(n64.1[0].ms.bits), 0.01);
}

#[test]
fn csv_roundtrip_rows() {
    let mut one = row("baseline", "rustfft", 128, 8, "metal", 0.01);
    one.param_count = 896;
    one.memory_bytes = 3584;
    let mut report = report(vec![one]);
    report.iters = 3;
    report.train_steps = 8;
    report.limit_sweep = true;
    report.elapsed_ms = fig(99.0);
    let rows = rows_csv_text(&report.rows);
    let meta = meta_csv_text(&report);
    let raw = rows_from_csv_text(&rows).unwrap();
    let rows: Vec<AblationRow> = raw
        .into_iter()
        .map(|r| {
            let ms = fig(r.ms.parse().unwrap());
            let err = fig(r.max_err.parse().unwrap());
            r.with_figures(ms, err)
        })
        .collect();
    let loaded = report_from_csv(Some(meta_from_csv_text(&meta)), rows, fig(99.0));
    assert_eq!(loaded.rows.len(), 1);
    assert_eq!(loaded.rows[0].variant, "rustfft");
    assert_eq!(loaded.iters, 3);
    let paths = ablation_csv_bundle_paths("out");
    assert_eq!(paths.len(), 4);
    assert!(!top5_csv_text(&report).is_empty());
    assert!(!limits_csv_text(&report).is_empty());
    assert_eq!(f64::from_bits(loaded.rows[0].ms.bits), 0.01);
    assert_eq!(loaded.n_ffts, vec![64, 128]);
    assert!(loaded.limit_sweep);
}

#[test]
fn csv_errors_are_told_apart() {
    assert!(matches!(rows_from_csv_text(""), Err(CsvError::Empty)));
    assert!(matches!(rows_from_csv_text("a,b\n"), Err(CsvError::BadHeader)));
    let good = rows_csv_text(&vec![row("A", "x", 64, 1, "cpu", 1.0)]);
    let head = good.lines().next().unwrap().to_string();
    assert!(matches!(rows_from_csv_text(&format!("{head}\na,b\n")), Err(CsvError::BadRow { .. })));
    let broken = good.replace(",64,", ",many,");
    assert!(matches!(rows_from_csv_text(&broken), Err(CsvError::BadNumber { field: "n_fft" })));
    let mut quoted = row("A", "x", 64, 1, "cpu", 1.0);
    quoted.note = Some("a, \"b\"".to_string());
    let text = rows_csv_text(&vec![quoted]);
    let back = rows_from_csv_text(&text).unwrap();
    assert_eq!(back[0].note.as_deref(), Some("a, \"b\""));
}

#[test]
fn winners_are_the_fastest_of_their_cells() {
    let ab = report(vec![
        row("B", "slow", 64, 8, "cpu", 2.0),
        row("A", "fast", 64, 8, "cpu", 1.0),
        row("A", "other", 64, 8, "cpu", f64::NAN),
        row("B", "alone", 64, 1, "cpu", 3.0),
    ]);
    let w = ablation_winners(&ab);
    assert_eq!(w.iter().map(|r| r.variant.as_str()).collect::<Vec<_>>(), vec!["alone", "fast"]);
    let mut tiers = tier_summary(&ab);
    tiers.sort();
    assert_eq!(tiers, vec![("A".to_string(), 1), ("B".to_string(), 1)]);
    assert!(ablation_row_ok(&ab.rows[0]));
    assert!(!ablation_row_ok(&ab.rows[2]));
}

#[test]
fn merged_reports_hold_every_row() {
    let a = report(vec![row("A", "x", 64, 1, "cpu", 1.0)]);
    let mut b = report(vec![row("B", "y", 256, 1, "cpu", 1.0)]);
    b.n_ffts = vec![256];
    let m = merge_ablation_reports(&vec![a, b], fig(2.0));
    assert_eq!(m.rows.len(), 2);
    assert_eq!(m.n_ffts, vec![64, 128, 256]);
}

fn sample_report() -> AblationReport {
    let mut r = report(vec![
        row("baseline", "rustfft", 256, 8, "cpu", 0.5),
        row("baseline", "rlx_op_fft", 256, 8, "cpu", 0.3),
        row("A", "stockham_eager", 256, 8, "cpu", 0.8),
    ]);
    r.iters = 10;
    r.train_steps = 20;
    r.n_ffts = vec![256];
    r.elapsed_ms = fig(1234.0);
    r
}

fn page(report: &AblationReport) -> AblationPage {
    AblationPage {
        generated: "UTC 0".to_string(),
        json: "{}".to_string(),
        elapsed: report.elapsed_ms.fixed0.clone(),
        bars: tiers_ranked(report)
            .into_iter()
            .map(|(tier, wins)| TierBar { tier, wins, percent: 100 })
            .collect(),
        shades: report
            .rows
            .iter()
            .map(|_| Shade { background: "transparent".to_string(), best: false })
            .collect(),
    }
}

#[test]
fn render_contains_key_sections() {
    let report = sample_report();
    let html = render_ablation_html(&report, &page(&report));
    assert!(html.contains("RLX-FFT Variant Ablation"));
    assert!(html.contains("Tier win counts"));
    assert!(html.contains("Performance heatmaps"));
    assert!(html.contains("stockham_eager"));
    assert!(html.contains("buildPrecisionTable"));
}

fn number(x: &Figure) -> Value {
    Value::from(f64::from_bits(x.bits))
}

fn to_json(report: &AblationReport) -> String {
    let mut rows = Vec::new();
    for r in &report.rows {
        let mut m = serde_json::Map::new();
        m.insert("tier".into(), r.tier.as_str().into());
        m.insert("variant".into(), r.variant.as_str().into());
        m.insert("direction".into(), r.direction.as_str().into());
        m.insert("n_fft".into(), r.n_fft.into());
        m.insert("batch".into(), r.batch.into());
        m.insert("device".into(), r.device.as_str().into());
        m.insert("iters".into(), r.iters.into());
        m.insert("ms".into(), number(&r.ms));
        m.insert("max_err".into(), number(&r.max_err));
        m.insert("train_steps".into(), r.train_steps.into());
        m.insert("param_count".into(), r.param_count.into());
        m.insert("memory_bytes".into(), r.memory_bytes.into());
        m.insert("status".into(), r.status.as_str().into());
        m.insert("note".into(), r.note.clone().map_or(Value::Null, Value::from));
        rows.push(Value::Object(m));
    }
    let mut m = serde_json::Map::new();
    m.insert("iters".into(), report.iters.into());
    m.insert("train_steps".into(), report.train_steps.into());
    m.insert("both_dirs".into(), report.both_dirs.into());
    m.insert("with_welch".into(), report.with_welch.into());
    m.insert("limit_sweep".into(), report.limit_sweep.into());
    m.insert("n_ffts".into(), report.n_ffts.clone().into());
    m.insert("elapsed_ms".into(), number(&report.elapsed_ms));
    m.insert("rows".into(), Value::Array(rows));
    serde_json::to_string_pretty(&Value::Object(m)).unwrap()
}

fn from_json(text: &str) -> AblationReport {
    let v: Value = serde_json::from_str(text).unwrap();
    let count = |v: &Value, key: &str| v[key].as_u64().unwrap() as usize;
    let words = |v: &Value, key: &str| v[key].as_str().unwrap().to_string();
    let rows = v["rows"].as_array().unwrap().iter();
    AblationReport {
        iters: count(&v, "iters"),
        train_steps: count(&v, "train_steps"),
        both_dirs: v["both_dirs"].as_bool().unwrap(),
        with_welch: v["with_welch"].as_bool().unwrap(),
        limit_sweep: v["limit_sweep"].as_bool().unwrap(),
        n_ffts: v["n_ffts"].as_array().unwrap().iter().map(|n| n.as_u64().unwrap() as usize).collect(),
        elapsed_ms: fig(v["elapsed_ms"].as_f64().unwrap()),
        rows: rows
            .map(|r| AblationRow {
                tier: words(r, "tier"),
                variant: words(r, "variant"),
                direction: words(r, "direction"),
                n_fft: count(r, "n_fft"),
                batch: count(r, "batch"),
                device: words(r, "device"),
                iters: count(r, "iters"),
                ms: fig(r["ms"].as_f64().unwrap()),
                max_err: fig(r["max_err"].as_f64().unwrap()),
                train_steps: count(r, "train_steps"),
                param_count: count(r, "param_count"),
                memory_bytes: count(r, "memory_bytes"),
                status: words(r, "status"),
                note: r["note"].as_str().map(str::to_string),
            })
            .collect(),
    }
}

#[test]
fn roundtrip_json_html() {
    let report = sample_report();
    let text = to_json(&report);
    assert_eq!(report_kind(&text.clone().into_bytes()), Some(ReportKind::Ablation));
    let loaded = from_json(&text);
    let html = render_ablation_html(&loaded, &page(&loaded));
    assert!(html.contains("rlx_op_fft"));
    assert_eq!(html, render_ablation_html(&report, &page(&report)));
}

#[test]
fn pages_show_the_rows() {
    let report = sample_report();
    let html = render_ablation_html(&report, &page(&report));
    assert!(html.contains("<td>0.3000</td></tr>"), "the winner");
    assert!(html.contains("Tier baseline"));
    assert!(html.contains("0.8000<br>"));
    assert!(html.contains("&quot;kind&quot;:&quot;winner&quot;"));
    assert!(html.contains("[\"stockham_eager\",\"rlx_op_fft\",\"rustfft\"]"));
    assert_eq!(unique_variants(&report.rows), vec!["stockham_eager", "rlx_op_fft", "rustfft"]);
    let facts = shading_facts(&report);
    assert_eq!(f64::from_bits(facts[0].best), 0.3);
    assert_eq!(f64::from_bits(facts[0].least), 0.5);
    assert_eq!(f64::from_bits(facts[0].greatest), 0.5);
}

#[test]
fn figures_compare_like_doubles() {
    let xs = [0.0, -0.0, 1.0, -1.0, f64::INFINITY, f64::NEG_INFINITY, f64::NAN, 1e-300, 0.01];
    for a in xs {
        assert_eq!(is_nan(a.to_bits()), a.is_nan());
        for b in xs {
            assert_eq!(is_less(a.to_bits(), b.to_bits()), a < b, "{a} {b}");
        }
    }
    assert_eq!(format_ms(&fig(f64::NAN)), "n/a");
    assert_eq!(format_ms(&fig(0.005)), "5.00e-3");
    assert_eq!(format_ms(&fig(0.01)), "0.0100");
    assert_eq!(format_err(&None), "—");
    assert_eq!(format_err(&Some(fig(f64::NAN))), "—");
    assert_eq!(format_err(&Some(fig(0.5))), "5.00e-1");
}

#[test]
fn objects_are_ordered_by_their_keys() {
    let mut members: Vec<String> =
        VARIANT_COLORS.iter().map(|(k, v)| format!("\"{k}\":\"{v}\"")).collect();
    members.sort();
    assert_eq!(colours_json(&VARIANT_COLORS), format!("{{{}}}", members.join(",")));
}

use rlx_fft::bench_sweep::{
    decide_cell, grid_of, plan_sweep, sweep_markdown_chart, sweep_rows, sweep_terminal_chart,
    BenchReport, SweepAction, SweepCell, SweepError, SweepReport,
};
use rlx_fft::config::TransformDir;
use rlx_fft::device::{Available, Device, DeviceError};
use rlx_fft::figure::Figure;
use rlx_fft::grid::{axis_values, find_cell, Shade};
use rlx_fft::html::{html_escape, slug};
use rlx_fft::max_batch::LimitedBy;
use rlx_fft::sweep_html::{render_sweep_html, shading_facts, SweepPage};

fn fig(x: f64) -> Figure {
    Figure {
        bits: x.to_bits(),
        plain: format!("{x}"),
        fixed0: format!("{x:.0}"),
        fixed1: format!("{x:.1}"),
        fixed3: format!("{x:.3}"),
        fixed4: format!("{x:.4}"),
        fixed6: format!("{x:.6}"),
        sci2: format!("{x:.2e}"),
        sci3: format!("{x:.3e}"),
        sci4: format!("{x:.4e}"),
        sci6: format!("{x:.6e}"),
        json: if x.is_finite() {
            format!("{x:?}")
        } else {
            "null".to_string()
        },
    }
}

fn live() -> Available {
    Available {
        cpu: true,
        metal: false,
        mlx: false,
        ane: false,
        cuda: false,
        rocm: false,
        xdna: false,
        egpu: false,
        one_api: false,
        tpu: false,
        hexagon: false,
        gpu: true,
        vulkan: false,
        open_gl: false,
        direct_x: false,
        web_gpu: false,
    }
}

fn measured(dir: TransformDir, ms: f64) -> BenchReport {
    BenchReport {
        direction: dir,
        n_fft: 64,
        batch: 8,
        iters: 3,
        device: Device::Cpu,
        butterfly_weights: "exact twiddles".to_string(),
        rustfft_ms: fig(ms),
        rlx_fft_ms: fig(ms * 2.0),
        butterfly_eager_ms: fig(ms * 3.0),
        butterfly_compiled_ms: fig(f64::NAN),
        rlx_fft_err: fig(1e-5),
        butterfly_eager_err: fig(2e-5),
        butterfly_compiled_err: fig(f64::NAN),
    }
}

fn cell(dir: TransformDir, batch: usize, device: &str) -> SweepCell {
    SweepCell { dir, n_fft: 64, batch, device: device.to_string() }
}

fn report() -> SweepReport {
    let mut rows = sweep_rows(&cell(TransformDir::Forward, 8, "cpu"), 3, true, &measured(TransformDir::Forward, 0.5));
    rows.extend(sweep_rows(&cell(TransformDir::Inverse, 8, "cpu"), 3, true, &measured(TransformDir::Inverse, 0.25)));
    SweepReport {
        iters: 3,
        with_butterfly_compiled: true,
        weights: None,
        elapsed_ms: fig(12.0),
        rows,
    }
}

#[test]
fn sweeps_visit_directions_sizes_batches_and_devices_in_order() {
    let dirs = vec![TransformDir::Forward, TransformDir::Inverse];
    let devices = vec!["cpu".to_string(), "wgpu".to_string()];
    let run = plan_sweep(&dirs, &vec![64, 128], &vec![1, 8], &devices, 1).unwrap();
    assert_eq!(run.unsupported, None);
    assert_eq!(run.cells.len(), 16);
    assert_eq!(run.cells[1].device, "wgpu");
    assert_eq!(run.cells[2].batch, 8);
    assert_eq!(run.cells[4].n_fft, 128);
    assert!(matches!(run.cells[8].dir, TransformDir::Inverse));
    let run = plan_sweep(&dirs, &vec![64, 96, 128], &vec![1], &devices, 1).unwrap();
    assert_eq!(run.unsupported, Some(96));
    assert_eq!(run.cells.len(), 2);
    assert!(matches!(plan_sweep(&dirs, &vec![64], &vec![1], &devices, 0), Err(SweepError::NoIterations)));
}

#[test]
fn batches_above_the_capacity_are_passed_over() {
    let budget = Some("1048576");
    match decide_cell(&cell(TransformDir::Forward, 65536, "wgpu"), None, budget, live(), None) {
        Ok(SweepAction::Skip { max_batch, limited_by }) => {
            assert_eq!(max_batch, 65535);
            assert_eq!(limited_by, LimitedBy::Dispatch);
        }
        other => panic!("{other:?}"),
    }
    assert!(matches!(
        decide_cell(&cell(TransformDir::Forward, 65535, "wgpu"), None, budget, live(), None),
        Ok(SweepAction::Bench { device: Device::Gpu })
    ));
    assert!(matches!(
        decide_cell(&cell(TransformDir::Forward, 1, "metal"), None, budget, live(), None),
        Err(DeviceError::NotAvailable { device: Device::Metal })
    ));
}

#[test]
fn places_leave_three_or_four_rows() {
    let r = report();
    let names: Vec<&str> = r.rows.iter().map(|x| x.implementation.as_str()).collect();
    assert_eq!(
        names,
        vec![
            "rustfft", "rlx_op_fft", "butterfly_eager", "butterfly_compiled", "rustfft", "rlx_op_ifft",
            "butterfly_eager", "butterfly_compiled"
        ]
    );
    assert!(r.rows[0].max_err.is_none());
    assert_eq!(r.rows[5].direction, "Inverse");
    let three = sweep_rows(&cell(TransformDir::Forward, 8, "cpu"), 3, false, &measured(TransformDir::Forward, 0.5));
    assert_eq!(three.len(), 3);
}

#[test]
fn markdown_lists_each_direction() {
    let md = sweep_markdown_chart(&report(), "12");
    let head = "# RLX-FFT benchmark sweep\n\niters=3, compiled=true, sweep_ms=12\n\n## Forward — `cpu`\n\n| n_fft \\ batch | **b=8** |\n| --- | --- |\n| **rustfft** | n64: 0.5000ms |\n| **rlx_op_fft** | n64: 1.0000ms |\n| **rlx_op_ifft** |  |\n";
    assert!(md.starts_with(head), "{md}");
    assert!(md.contains("## Inverse — `cpu`"));
    assert!(md.ends_with("| **butterfly_compiled** | n64: NaNms |\n\n"));
}

#[test]
fn terminal_chart_pads_its_columns() {
    let text = sweep_terminal_chart(&report(), "12.0");
    assert!(text.starts_with("\n=== FFT benchmark sweep (iters=3, compiled=true) ===\n\n--- Forward @ cpu ---\n\n  batch=8\n"));
    let line = format!(
        "  {:<8} {}\n",
        "n_fft",
        ["rustfft", "rlx_op_fft", "rlx_op_ifft", "butterfly_eager", "butterfly_compiled"]
            .iter()
            .map(|s| format!("{s:>16}"))
            .collect::<Vec<_>>()
            .join(" | ")
    );
    assert!(text.contains(&line), "{text}");
    assert!(text.contains(&format!("  n={:<5} {:>12.4} | {:>12.4} |            n/a | {:>12.4} |            n/a\n", 64, 0.5, 1.0, 1.5)));
    assert!(text.ends_with("Total sweep time: 12.0 ms\n\n"));
}

#[test]
fn pages_of_sweeps_hold_their_sections() {
    let r = report();
    let shades = r.rows.iter().map(|_| Shade { background: "transparent".to_string(), best: true }).collect();
    let page = SweepPage {
        generated: "UTC 0".to_string(),
        json: "{}".to_string(),
        elapsed: "12".to_string(),
        shades,
    };
    let html = render_sweep_html(&r, &page);
    assert!(html.contains("<title>RLX-FFT Benchmark Report</title>"));
    assert!(html.contains("exact twiddles"));
    assert!(html.contains("<h3>Forward — cpu</h3>"));
    assert!(html.contains("<td class=\"best\" style=\"background:transparent\">0.5000<br>"));
    assert!(html.contains("id=\"hm-Inverse-cpu\""));
    assert!(html.contains("&quot;title&quot;:&quot;rustfft · Forward · cpu&quot;"));
    let facts = shading_facts(&r);
    assert_eq!(f64::from_bits(facts[1].best), 0.5);
    let cells = grid_of(&r.rows);
    assert_eq!(axis_values(&cells, "Forward", "cpu"), (vec![64], vec![8]));
    assert_eq!(find_cell(&cells, "Inverse", "cpu", 8, 64, "rlx_op_ifft"), Some(5));
    assert_eq!(find_cell(&cells, "Inverse", "cpu", 8, 64, "rlx_op_fft"), None);
}

#[test]
fn markup_is_escaped() {
    assert_eq!(html_escape("<a href=\"x\">'&'</a>"), "&lt;a href=&quot;x&quot;&gt;&#39;&amp;&#39;&lt;/a&gt;");
    assert_eq!(slug("hm-Forward-cpu 0"), "hm-Forward-cpu-0");
}

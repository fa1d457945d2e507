//! The frames of report pages: fixed text around the parts that a report fills in.

use crate::html::str_views;
use vstd::prelude::*;

verus! {

/// Fixed parts with fields between them.
pub open spec fn filled(parts: Seq<Seq<char>>, fields: Seq<Seq<char>>) -> Seq<char>
    decreases fields.len(),
{
    if fields.len() == 0 {
        parts[0]
    } else {
        filled(parts, fields.drop_last()) + fields.last() + parts[fields.len() as int]
    }
}

/// The parts of a list, one after another.
pub open spec fn each(n: nat, part: spec_fn(int) -> Seq<char>) -> Seq<char>
    decreases n,
{
    if n == 0 {
        Seq::empty()
    } else {
        each((n - 1) as nat, part) + part(n - 1)
    }
}

/// Puts fields between fixed parts.
pub fn fill(parts: &[&str], fields: &[&str]) -> (r: String)
    requires
        parts@.len() == fields@.len() + 1,
    ensures
        r@ == filled(str_views(parts@), str_views(fields@)),
{
    let ghost p = str_views(parts@);
    let ghost f = str_views(fields@);
    let mut out = parts[0].to_owned();
    let mut i: usize = 0;
    assert(f.take(0) =~= Seq::empty());
    while i < fields.len()
        invariant
            i <= fields.len(),
            parts@.len() == fields@.len() + 1,
            p == str_views(parts@),
            f == str_views(fields@),
            out@ == filled(p, f.take(i as int)),
        decreases fields.len() - i,
    {
        assert(f.take(i + 1).drop_last() =~= f.take(i as int));
        out.push_str(fields[i]);
        out.push_str(parts[i + 1]);
        i += 1;
    }
    assert(f.take(f.len() as int) =~= f);
    out
}

/// The frame of the page of an ablation report.
pub const ABLATION_PAGE: [&'static str; 16] = [
    "<!DOCTYPE html>\n<html lang=\"en\">\n<head>\n<meta charset=\"utf-8\"/>\n<meta name=\"viewport\" content=\"width=device-width, initial-scale=1\"/>\n<title>RLX-FFT Ablation Report</title>\n<script src=\"https://cdn.jsdelivr.net/npm/chart.js@4.4.1/dist/chart.umd.min.js\"></script>\n<script src=\"https://cdn.jsdelivr.net/npm/plotly.js-dist-min@2.27.0/plotly.min.js\"></script>\n<style>\n  :root {\n    --bg: #0f1419;\n    --panel: #1a2332;\n    --text: #e6edf3;\n    --muted: #8b949e;\n    --border: #30363d;\n    --accent: #58a6ff;\n    --fast: #238636;\n    --slow: #da3633;\n  }\n  * { box-sizing: border-box; }\n  body {\n    margin: 0;\n    font-family: \"SF Pro Text\", -apple-system, BlinkMacSystemFont, \"Segoe UI\", sans-serif;\n    background: var(--bg);\n    color: var(--text);\n    line-height: 1.5;\n  }\n  header {\n    padding: 2rem 2.5rem 1rem;\n    border-bottom: 1px solid var(--border);\n    background: linear-gradient(180deg, #161b22 0%, var(--bg) 100%);\n  }\n  h1 { margin: 0 0 0.5rem; font-size: 1.75rem; font-weight: 600; }\n  .meta { color: var(--muted); font-size: 0.95rem; }\n  .meta span { margin-right: 1.25rem; }\n  main { padding: 1.5rem 2.5rem 3rem; max-width: 1400px; margin: 0 auto; }\n  section { margin-bottom: 2.5rem; }\n  h2 {\n    font-size: 1.25rem;\n    margin: 0 0 1rem;\n    padding-bottom: 0.5rem;\n    border-bottom: 1px solid var(--border);\n  }\n  h3 { font-size: 1rem; color: var(--accent); margin: 1.5rem 0 0.75rem; }\n  .note {\n    background: var(--panel);\n    border: 1px solid var(--border);\n    border-radius: 8px;\n    padding: 1rem 1.25rem;\n    color: var(--muted);\n    font-size: 0.9rem;\n    margin-bottom: 2rem;\n  }\n  .grid {\n    display: grid;\n    grid-template-columns: repeat(auto-fit, minmax(420px, 1fr));\n    gap: 1.25rem;\n  }\n  .card {\n    background: var(--panel);\n    border: 1px solid var(--border);\n    border-radius: 10px;\n    padding: 1rem 1rem 0.5rem;\n  }\n  .card h4 {\n    margin: 0 0 0.75rem;\n    font-size: 0.9rem;\n    font-weight: 500;\n    color: var(--muted);\n  }\n  canvas { max-height: 320px; }\n  .plotly { width: 100%; min-height: 360px; }\n  .tabs { display: flex; flex-wrap: wrap; gap: 0.5rem; margin-bottom: 1rem; }\n  .tab {\n    background: #21262d; border: 1px solid var(--border); color: var(--muted);\n    padding: 0.35rem 0.75rem; border-radius: 6px; cursor: pointer; font-size: 0.85rem;\n  }\n  .tab.active { background: var(--accent); color: #0d1117; border-color: var(--accent); font-weight: 600; }\n  .panel { display: none; }\n  .panel.active { display: block; }\n  table {\n    width: 100%;\n    border-collapse: collapse;\n    font-size: 0.85rem;\n    margin-bottom: 1.5rem;\n  }\n  th, td {\n    border: 1px solid var(--border);\n    padding: 0.45rem 0.6rem;\n    text-align: right;\n  }\n  th { background: #21262d; color: var(--muted); font-weight: 500; }\n  th.left, td.left { text-align: left; }\n  td.best { outline: 2px solid var(--fast); outline-offset: -2px; font-weight: 600; }\n  .tier-pill {\n    display: inline-block;\n    padding: 0.1rem 0.45rem;\n    border-radius: 4px;\n    font-size: 0.75rem;\n    background: #21262d;\n    color: var(--muted);\n  }\n  .legend {\n    display: flex;\n    flex-wrap: wrap;\n    gap: 1rem;\n    margin: 1rem 0 2rem;\n    font-size: 0.85rem;\n  }\n  .legend-item { display: flex; align-items: center; gap: 0.4rem; }\n  .swatch { width: 12px; height: 12px; border-radius: 2px; }\n  footer {\n    padding: 1rem 2.5rem 2rem;\n    color: var(--muted);\n    font-size: 0.8rem;\n    border-top: 1px solid var(--border);\n  }\n</style>\n</head>\n<body>\n<header>\n  <h1>RLX-FFT Variant Ablation</h1>\n  <div class=\"meta\">\n    <span>Generated ",
    "</span>\n    <span>iters=",
    "</span>\n    <span>train_steps=",
    "</span>\n    <span>elapsed ",
    " ms</span>\n    <span>",
    " variants</span>\n  </div>\n</header>\n<main>\n  <div class=\"note\">\n    <strong>How to read this report.</strong>\n    Timings are milliseconds per forward FFT iteration (lower is faster).\n    <code>max_err</code> is vs <code>rustfft</code> on the same fixed signal (lower is better).\n    Tier A = Stockham / fused spectral; B = compiled / Q8; C = unitary / domain-adaptive.\n    Green cell outline = fastest variant for that n_fft × batch cell.\n  </div>\n\n  <section>\n    <h2>Tier win counts</h2>\n    <p style=\"color:var(--muted);font-size:0.9rem;margin-top:0\">\n      Number of (n_fft, batch, device) cells where a tier’s variant was fastest.\n    </p>\n    ",
    "\n    ",
    "\n  </section>\n\n  <div class=\"legend\">",
    "</div>\n\n  <section>\n    <h2>Performance heatmaps</h2>\n    <p style=\"color:var(--muted);font-size:0.9rem;margin-top:0\">\n      ms/iter over <strong>n_fft × batch</strong>. Use tabs to switch variant or view winner / ratio panels.\n    </p>\n    ",
    "\n  </section>\n\n  <section>\n    <h2>Bar charts (fixed batch)</h2>\n    ",
    "\n  </section>\n\n  <section>\n    <h2>Full tables</h2>\n    ",
    "\n  </section>\n\n  <section>\n    <h2>Precision summary</h2>\n    <div id=\"precision-table\"></div>\n  </section>\n</main>\n<footer>rlx-fft ablation · devices: ",
    "</footer>\n<script>\nconst REPORT = ",
    ";\nconst VARIANTS = ",
    ";\nconst COLORS = ",
    ";\n\nfunction lookup(rows, device, batch, n, variant) {\n  const hit = rows.find(r =>\n    r.device === device && r.batch === batch &&\n    r.n_fft === n && r.variant === variant\n  );\n  return hit ? hit : null;\n}\n\nfunction fmtMs(v) {\n  if (v == null || Number.isNaN(v)) return 'n/a';\n  if (v < 0.01) return v.toExponential(2);\n  return v.toFixed(4);\n}\n\nfunction fmtErr(v) {\n  if (v == null || Number.isNaN(v)) return '—';\n  return v.toExponential(2);\n}\n\nfunction buildMatrix(device, variant, n_ffts, batches) {\n  const z = n_ffts.map(n =>\n    batches.map(b => {\n      const r = lookup(REPORT.rows, device, b, n, variant);\n      return r ? r.ms : null;\n    })\n  );\n  return { z, n_ffts, batches };\n}\n\nfunction buildErrMatrix(device, variant, n_ffts, batches) {\n  const z = n_ffts.map(n =>\n    batches.map(b => {\n      const r = lookup(REPORT.rows, device, b, n, variant);\n      return r ? r.max_err : null;\n    })\n  );\n  return { z, n_ffts, batches };\n}\n\nfunction winnerMatrix(device, n_ffts, batches) {\n  const z = n_ffts.map(n =>\n    batches.map(b => {\n      let best = null, bestMs = Infinity;\n      for (let i = 0; i < VARIANTS.length; i++) {\n        const r = lookup(REPORT.rows, device, b, n, VARIANTS[i]);\n        if (r && r.ms != null && !Number.isNaN(r.ms) && r.ms < bestMs) {\n          bestMs = r.ms; best = i;\n        }\n      }\n      return best;\n    })\n  );\n  return { z, n_ffts, batches };\n}\n\nfunction ratioMatrix(device, numer, denom, n_ffts, batches) {\n  const z = n_ffts.map(n =>\n    batches.map(b => {\n      const a = lookup(REPORT.rows, device, b, n, numer);\n      const d = lookup(REPORT.rows, device, b, n, denom);\n      if (!a || !d || d.ms == null || d.ms === 0) return null;\n      return a.ms / d.ms;\n    })\n  );\n  return { z, n_ffts, batches };\n}\n\nconst PLOTLY_LAYOUT = {\n  paper_bgcolor: '#1a2332',\n  plot_bgcolor: '#1a2332',\n  font: { color: '#e6edf3', size: 11 },\n  margin: { l: 60, r: 20, t: 40, b: 50 },\n};\n\nfunction plotHeatmap(el, title, z, x, y, colorscale, zmid, errMode) {\n  const zPlot = errMode\n    ? z\n    : z.map(row => row.map(v => (v == null || v <= 0) ? null : Math.log10(v)));\n  const data = [{\n    z: zPlot, x, y, type: 'heatmap',\n    customdata: z,\n    colorscale: colorscale || 'Viridis',\n    zmid: (!errMode && zmid != null) ? Math.log10(zmid) : zmid,\n    hovertemplate: errMode\n      ? 'n=%{y} batch=%{x}<br>err %{customdata:.2e}<extra></extra>'\n      : 'n=%{y} batch=%{x}<br>%{customdata:.4f} ms<extra></extra>',\n    colorbar: { tickfont: { color: '#8b949e' }, title: errMode ? 'max_err' : 'log10(ms)' },\n  }];\n  const layout = {\n    ...PLOTLY_LAYOUT,\n    title: { text: title, font: { size: 13, color: '#8b949e' } },\n    xaxis: { title: 'batch', type: 'log', tickvals: x },\n    yaxis: { title: 'n_fft', tickvals: y },\n  };\n  Plotly.newPlot(el, data, layout, { responsive: true, displayModeBar: true });\n}\n\nfunction plotWinnerHeatmap(el, title, z, x, y) {\n  const labels = VARIANTS;\n  const data = [{\n    z, x, y, type: 'heatmap',\n    colorscale: [\n      [0, '#4e79a7'], [0.2, '#f28e2b'], [0.4, '#59a14f'], [0.6, '#76b7b2'],\n      [0.8, '#b07aa1'], [1, '#e15759']\n    ],\n    zmin: 0, zmax: Math.max(0, labels.length - 1),\n    hovertemplate: 'n=%{y} batch=%{x}<br>winner: %{text}<extra></extra>',\n    text: z.map(row => row.map(i => i == null ? '' : labels[i])),\n    showscale: false,\n  }];\n  const layout = {\n    ...PLOTLY_LAYOUT,\n    title: { text: title, font: { size: 13, color: '#8b949e' } },\n    xaxis: { title: 'batch', type: 'log', tickvals: x },\n    yaxis: { title: 'n_fft', tickvals: y },\n  };\n  Plotly.newPlot(el, data, layout, { responsive: true, displayModeBar: true });\n}\n\ndocument.querySelectorAll('[data-plotly]').forEach(el => {\n  const spec = JSON.parse(el.dataset.plotly);\n  let z, n_ffts = spec.n_ffts, batches = spec.batches;\n  if (spec.kind === 'winner') {\n    ({ z, n_ffts, batches }) = winnerMatrix(spec.device, spec.n_ffts, spec.batches);\n    plotWinnerHeatmap(el, spec.title, z, batches, n_ffts);\n  } else if (spec.kind === 'ratio') {\n    ({ z, n_ffts, batches }) = ratioMatrix(spec.device, spec.numer, spec.denom, spec.n_ffts, spec.batches);\n    plotHeatmap(el, spec.title, z, batches, n_ffts, 'RdYlGn_r', 1.0, false);\n  } else if (spec.kind === 'err') {\n    ({ z, n_ffts, batches }) = buildErrMatrix(spec.device, spec.variant, spec.n_ffts, spec.batches);\n    plotHeatmap(el, spec.title, z, batches, n_ffts, 'YlOrRd', null, true);\n  } else {\n    ({ z, n_ffts, batches }) = buildMatrix(spec.device, spec.variant, spec.n_ffts, spec.batches);\n    plotHeatmap(el, spec.title, z, batches, n_ffts, 'Viridis', null, false);\n  }\n});\n\ndocument.querySelectorAll('.tab-group').forEach(group => {\n  const tabs = group.querySelectorAll('.tab');\n  const panels = group.querySelectorAll('.panel');\n  tabs.forEach((tab, i) => {\n    tab.addEventListener('click', () => {\n      tabs.forEach(t => t.classList.remove('active'));\n      panels.forEach(p => p.classList.remove('active'));\n      tab.classList.add('active');\n      panels[i].classList.add('active');\n      panels[i].querySelectorAll('[data-plotly]').forEach(el => Plotly.Plots.resize(el));\n    });\n  });\n});\n\nfunction buildPrecisionTable() {\n  const rows = REPORT.rows.filter(r => r.variant !== 'rustfft' && r.max_err != null && !Number.isNaN(r.max_err));\n  const byVar = {};\n  for (const r of rows) {\n    if (!byVar[r.variant]) byVar[r.variant] = [];\n    byVar[r.variant].push(r.max_err);\n  }\n  let html = '<table><thead><tr><th class=\"left\">Variant</th><th>tier</th><th>count</th><th>max err</th><th>median err</th></tr></thead><tbody>';\n  for (const v of VARIANTS) {\n    const errs = byVar[v] || [];\n    if (!errs.length) continue;\n    errs.sort((a,b) => a-b);\n    const tier = rows.find(r => r.variant === v)?.tier || '—';\n    const max = errs[errs.length-1];\n    const med = errs[Math.floor(errs.length/2)];\n    html += `<tr><td class=\"left\">${v}</td><td><span class=\"tier-pill\">${tier}</span></td><td>${errs.length}</td><td>${fmtErr(max)}</td><td>${fmtErr(med)}</td></tr>`;\n  }\n  html += '</tbody></table>';\n  document.getElementById('precision-table').innerHTML = html;\n}\n\nconst charts = [];\ndocument.querySelectorAll('canvas[data-chart]').forEach(canvas => {\n  const spec = JSON.parse(canvas.dataset.chart);\n  const datasets = spec.variants.map(v => {\n    const pts = spec.n_ffts.map(n => {\n      const r = lookup(REPORT.rows, spec.device, spec.batch, n, v);\n      return r ? r.ms : null;\n    });\n    return {\n      label: v,\n      data: pts,\n      borderColor: COLORS[v] || '#999',\n      backgroundColor: (COLORS[v] || '#999') + '99',\n      tension: 0.2,\n      spanGaps: false,\n    };\n  });\n  charts.push(new Chart(canvas, {\n    type: 'bar',\n    data: { labels: spec.n_ffts.map(String), datasets },\n    options: {\n      responsive: true,\n      plugins: {\n        legend: { labels: { color: '#8b949e', boxWidth: 12 } },\n        title: { display: false },\n      },\n      scales: {\n        x: { title: { display: true, text: 'n_fft', color: '#8b949e' }, ticks: { color: '#8b949e' }, grid: { color: '#30363d' } },\n        y: { type: spec.log ? 'logarithmic' : 'linear', title: { display: true, text: 'ms', color: '#8b949e' }, ticks: { color: '#8b949e' }, grid: { color: '#30363d' } },\n      },\n    },\n  }));\n});\n\nbuildPrecisionTable();\n</script>\n</body>\n</html>",
];

/// The frame of the page of a benchmark sweep.
pub const SWEEP_PAGE: [&'static str; 15] = [
    "<!DOCTYPE html>\n<html lang=\"en\">\n<head>\n<meta charset=\"utf-8\"/>\n<meta name=\"viewport\" content=\"width=device-width, initial-scale=1\"/>\n<title>RLX-FFT Benchmark Report</title>\n<script src=\"https://cdn.jsdelivr.net/npm/chart.js@4.4.1/dist/chart.umd.min.js\"></script>\n<script src=\"https://cdn.jsdelivr.net/npm/plotly.js-dist-min@2.27.0/plotly.min.js\"></script>\n<style>\n  :root {\n    --bg: #0f1419;\n    --panel: #1a2332;\n    --text: #e6edf3;\n    --muted: #8b949e;\n    --border: #30363d;\n    --accent: #58a6ff;\n    --fast: #238636;\n    --slow: #da3633;\n  }\n  * { box-sizing: border-box; }\n  body {\n    margin: 0;\n    font-family: \"SF Pro Text\", -apple-system, BlinkMacSystemFont, \"Segoe UI\", sans-serif;\n    background: var(--bg);\n    color: var(--text);\n    line-height: 1.5;\n  }\n  header {\n    padding: 2rem 2.5rem 1rem;\n    border-bottom: 1px solid var(--border);\n    background: linear-gradient(180deg, #161b22 0%, var(--bg) 100%);\n  }\n  h1 { margin: 0 0 0.5rem; font-size: 1.75rem; font-weight: 600; }\n  .meta { color: var(--muted); font-size: 0.95rem; }\n  .meta span { margin-right: 1.25rem; }\n  main { padding: 1.5rem 2.5rem 3rem; max-width: 1400px; margin: 0 auto; }\n  section { margin-bottom: 2.5rem; }\n  h2 {\n    font-size: 1.25rem;\n    margin: 0 0 1rem;\n    padding-bottom: 0.5rem;\n    border-bottom: 1px solid var(--border);\n  }\n  h3 { font-size: 1rem; color: var(--accent); margin: 1.5rem 0 0.75rem; }\n  .note {\n    background: var(--panel);\n    border: 1px solid var(--border);\n    border-radius: 8px;\n    padding: 1rem 1.25rem;\n    color: var(--muted);\n    font-size: 0.9rem;\n    margin-bottom: 2rem;\n  }\n  .grid {\n    display: grid;\n    grid-template-columns: repeat(auto-fit, minmax(420px, 1fr));\n    gap: 1.25rem;\n  }\n  .card {\n    background: var(--panel);\n    border: 1px solid var(--border);\n    border-radius: 10px;\n    padding: 1rem 1rem 0.5rem;\n  }\n  .card h4 {\n    margin: 0 0 0.75rem;\n    font-size: 0.9rem;\n    font-weight: 500;\n    color: var(--muted);\n  }\n  canvas { max-height: 280px; }\n  .plotly { width: 100%; min-height: 360px; }\n  .plotly-3d { min-height: 480px; }\n  .tabs { display: flex; flex-wrap: wrap; gap: 0.5rem; margin-bottom: 1rem; }\n  .tab {\n    background: #21262d; border: 1px solid var(--border); color: var(--muted);\n    padding: 0.35rem 0.75rem; border-radius: 6px; cursor: pointer; font-size: 0.85rem;\n  }\n  .tab.active { background: var(--accent); color: #0d1117; border-color: var(--accent); font-weight: 600; }\n  .panel { display: none; }\n  .panel.active { display: block; }\n  table {\n    width: 100%;\n    border-collapse: collapse;\n    font-size: 0.85rem;\n    margin-bottom: 1.5rem;\n  }\n  th, td {\n    border: 1px solid var(--border);\n    padding: 0.45rem 0.6rem;\n    text-align: right;\n  }\n  th { background: #21262d; color: var(--muted); font-weight: 500; }\n  th.left, td.left { text-align: left; }\n  td.best { outline: 2px solid var(--fast); outline-offset: -2px; font-weight: 600; }\n  .legend {\n    display: flex;\n    flex-wrap: wrap;\n    gap: 1rem;\n    margin: 1rem 0 2rem;\n    font-size: 0.85rem;\n  }\n  .legend-item { display: flex; align-items: center; gap: 0.4rem; }\n  .swatch { width: 12px; height: 12px; border-radius: 2px; }\n  footer {\n    padding: 1rem 2.5rem 2rem;\n    color: var(--muted);\n    font-size: 0.8rem;\n    border-top: 1px solid var(--border);\n  }\n</style>\n</head>\n<body>\n<header>\n  <h1>RLX-FFT Benchmark Report</h1>\n  <div class=\"meta\">\n    <span>Generated ",
    "</span>\n    <span>iters=",
    "</span>\n    <span>compiled=",
    "</span>\n    <span>weights=",
    "</span>\n    <span>sweep ",
    " ms</span>\n  </div>\n</header>\n<main>\n  <div class=\"note\">\n    <strong>How to read this report.</strong>\n    Timings are milliseconds per iteration (lower is faster).\n    <code>rustfft</code> and <code>butterfly_eager</code> always run on CPU.\n    <code>rlx_op_fft</code> runs on the backend named in each section (CPU or Metal/CUDA/…).\n    Green cell outline = fastest implementation for that n_fft × batch cell.\n    Max-error columns show precision vs rustfft (when available).\n  </div>\n  <div class=\"legend\">",
    "</div>\n\n  <section>\n    <h2>Performance heatmaps &amp; 3D surfaces</h2>\n    <p style=\"color:var(--muted);font-size:0.9rem;margin-top:0\">\n      Each panel shows ms/iter over <strong>n_fft × batch</strong>. Use tabs to switch implementation.\n      3D surfaces use log-Z. Ratio heatmaps: green &lt; 1 = faster than rustfft.\n    </p>\n    ",
    "\n  </section>\n\n  <section>\n    <h2>Line charts (fixed batch)</h2>\n    ",
    "\n  </section>\n\n  <section>\n    <h2>Full tables</h2>\n    ",
    "\n  </section>\n\n  <section>\n    <h2>Precision summary</h2>\n    <div id=\"precision-table\"></div>\n  </section>\n</main>\n<footer>rlx-fft bench-sweep · backends: ",
    " · directions: ",
    "</footer>\n<script>\nconst REPORT = ",
    ";\nconst IMPLS = ",
    ";\nconst COLORS = ",
    ";\n\nfunction rowKey(r) {\n  return [r.direction, r.device, r.batch, r.n_fft, r.implementation].join('|');\n}\n\nfunction lookup(rows, dir, device, batch, n, impl) {\n  const hit = rows.find(r =>\n    r.direction === dir && r.device === device &&\n    r.batch === batch && r.n_fft === n && r.implementation === impl\n  );\n  return hit ? hit.ms : null;\n}\n\nfunction fmtMs(v) {\n  if (v == null || Number.isNaN(v)) return 'n/a';\n  if (v < 0.01) return v.toExponential(2);\n  return v.toFixed(4);\n}\n\nfunction fmtErr(v) {\n  if (v == null || Number.isNaN(v)) return '—';\n  return v.toExponential(2);\n}\n\nfunction bestImpl(rows, dir, device, batch, n, impls) {\n  let best = null, bestMs = Infinity;\n  for (const imp of impls) {\n    const ms = lookup(rows, dir, device, batch, n, imp);\n    if (ms != null && ms < bestMs) { bestMs = ms; best = imp; }\n  }\n  return best;\n}\n\nfunction heatColor(ms, minMs, maxMs) {\n  if (ms == null || Number.isNaN(ms)) return 'transparent';\n  const t = maxMs > minMs ? (ms - minMs) / (maxMs - minMs) : 0;\n  const r = Math.round(35 + t * 120);\n  const g = Math.round(134 - t * 90);\n  const b = Math.round(54 - t * 20);\n  return `rgba(${r},${g},${b},0.25)`;\n}\n\nfunction buildPrecisionTable() {\n  const rows = REPORT.rows.filter(r => r.implementation !== 'rustfft' && r.max_err != null && !Number.isNaN(r.max_err));\n  const byImpl = {};\n  for (const r of rows) {\n    if (!byImpl[r.implementation]) byImpl[r.implementation] = [];\n    byImpl[r.implementation].push(r.max_err);\n  }\n  let html = '<table><thead><tr><th class=\"left\">Implementation</th><th>count</th><th>max err</th><th>median err</th></tr></thead><tbody>';\n  for (const imp of IMPLS) {\n    const errs = byImpl[imp] || [];\n    if (!errs.length) continue;\n    errs.sort((a,b) => a-b);\n    const max = errs[errs.length-1];\n    const med = errs[Math.floor(errs.length/2)];\n    html += `<tr><td class=\"left\">${imp}</td><td>${errs.length}</td><td>${fmtErr(max)}</td><td>${fmtErr(med)}</td></tr>`;\n  }\n  html += '</tbody></table>';\n  document.getElementById('precision-table').innerHTML = html;\n}\n\nfunction buildMatrix(dir, device, impl, n_ffts, batches) {\n  const z = n_ffts.map(n =>\n    batches.map(b => lookup(REPORT.rows, dir, device, b, n, impl))\n  );\n  return { z, n_ffts, batches };\n}\n\nfunction winnerMatrix(dir, device, n_ffts, batches) {\n  const z = n_ffts.map(n =>\n    batches.map(b => {\n      let best = null, bestMs = Infinity;\n      for (let i = 0; i < IMPLS.length; i++) {\n        const ms = lookup(REPORT.rows, dir, device, b, n, IMPLS[i]);\n        if (ms != null && ms < bestMs) { bestMs = ms; best = i; }\n      }\n      return best;\n    })\n  );\n  return { z, n_ffts, batches };\n}\n\nfunction ratioMatrix(dir, device, numer, denom, n_ffts, batches) {\n  const z = n_ffts.map(n =>\n    batches.map(b => {\n      const a = lookup(REPORT.rows, dir, device, b, n, numer);\n      const d = lookup(REPORT.rows, dir, device, b, n, denom);\n      if (a == null || d == null || d === 0) return null;\n      return a / d;\n    })\n  );\n  return { z, n_ffts, batches };\n}\n\nconst PLOTLY_LAYOUT = {\n  paper_bgcolor: '#1a2332',\n  plot_bgcolor: '#1a2332',\n  font: { color: '#e6edf3', size: 11 },\n  margin: { l: 60, r: 20, t: 40, b: 50 },\n};\n\nfunction plotHeatmap(el, title, z, x, y, colorscale, zmid) {\n  const zLog = z.map(row => row.map(v => (v == null || v <= 0) ? null : Math.log10(v)));\n  const data = [{\n    z: zLog, x, y, type: 'heatmap',\n    customdata: z,\n    colorscale: colorscale || 'Viridis',\n    zmid: zmid != null ? Math.log10(zmid) : undefined,\n    hovertemplate: 'n=%{y} batch=%{x}<br>%{customdata:.4f} ms<extra></extra>',\n    colorbar: { tickfont: { color: '#8b949e' }, title: 'log10(ms)' },\n  }];\n  const layout = {\n    ...PLOTLY_LAYOUT,\n    title: { text: title, font: { size: 13, color: '#8b949e' } },\n    xaxis: { title: 'batch', type: 'log', tickvals: x },\n    yaxis: { title: 'n_fft', tickvals: y },\n  };\n  Plotly.newPlot(el, data, layout, { responsive: true, displayModeBar: true });\n}\n\nfunction plotSurface3d(el, title, z, x, y) {\n  const data = [{\n    z, x, y, type: 'surface',\n    colorscale: 'Viridis',\n    hovertemplate: 'n=%{y} batch=%{x}<br>%{z:.4f} ms<extra></extra>',\n    colorbar: { tickfont: { color: '#8b949e' } },\n  }];\n  const layout = {\n    ...PLOTLY_LAYOUT,\n    title: { text: title, font: { size: 13, color: '#8b949e' } },\n    scene: {\n      xaxis: { title: 'batch', type: 'log', backgroundcolor: '#1a2332', gridcolor: '#30363d' },\n      yaxis: { title: 'n_fft', backgroundcolor: '#1a2332', gridcolor: '#30363d' },\n      zaxis: { title: 'ms (log)', type: 'log', backgroundcolor: '#1a2332', gridcolor: '#30363d' },\n      bgcolor: '#1a2332',\n    },\n    margin: { l: 0, r: 0, t: 40, b: 0 },\n  };\n  Plotly.newPlot(el, data, layout, { responsive: true, displayModeBar: true });\n}\n\nfunction plotWinnerHeatmap(el, title, z, x, y) {\n  const labels = IMPLS;\n  const data = [{\n    z, x, y, type: 'heatmap',\n    colorscale: [\n      [0, '#4e79a7'], [0.33, '#f28e2b'], [0.66, '#59a14f'], [1, '#e15759']\n    ],\n    zmin: 0, zmax: Math.max(0, labels.length - 1),\n    hovertemplate: 'n=%{y} batch=%{x}<br>winner: %{text}<extra></extra>',\n    text: z.map(row => row.map(i => i == null ? '' : labels[i])),\n    showscale: false,\n  }];\n  const layout = {\n    ...PLOTLY_LAYOUT,\n    title: { text: title, font: { size: 13, color: '#8b949e' } },\n    xaxis: { title: 'batch', type: 'log', tickvals: x },\n    yaxis: { title: 'n_fft', tickvals: y },\n  };\n  Plotly.newPlot(el, data, layout, { responsive: true, displayModeBar: true });\n}\n\ndocument.querySelectorAll('[data-plotly]').forEach(el => {\n  const spec = JSON.parse(el.dataset.plotly);\n  const { z, n_ffts, batches } = spec.kind === 'winner'\n    ? winnerMatrix(spec.dir, spec.device, spec.n_ffts, spec.batches)\n    : spec.kind === 'ratio'\n    ? ratioMatrix(spec.dir, spec.device, spec.numer, spec.denom, spec.n_ffts, spec.batches)\n    : buildMatrix(spec.dir, spec.device, spec.impl, spec.n_ffts, spec.batches);\n  const title = spec.title;\n  if (spec.kind === 'surface') plotSurface3d(el, title, z, batches, n_ffts);\n  else if (spec.kind === 'winner') plotWinnerHeatmap(el, title, z, batches, n_ffts);\n  else if (spec.kind === 'ratio') plotHeatmap(el, title, z, batches, n_ffts, 'RdYlGn_r', 1.0);\n  else plotHeatmap(el, title, z, batches, n_ffts);\n});\n\ndocument.querySelectorAll('.tab-group').forEach(group => {\n  const tabs = group.querySelectorAll('.tab');\n  const panels = group.querySelectorAll('.panel');\n  tabs.forEach((tab, i) => {\n    tab.addEventListener('click', () => {\n      tabs.forEach(t => t.classList.remove('active'));\n      panels.forEach(p => p.classList.remove('active'));\n      tab.classList.add('active');\n      panels[i].classList.add('active');\n      panels[i].querySelectorAll('[data-plotly]').forEach(el => Plotly.Plots.resize(el));\n    });\n  });\n});\n\nconst charts = [];\ndocument.querySelectorAll('canvas[data-chart]').forEach(canvas => {\n  const spec = JSON.parse(canvas.dataset.chart);\n  const labels = spec.n_ffts.map(n => 'n=' + n);\n  const datasets = spec.impls.map(imp => ({\n    label: imp,\n    data: spec.n_ffts.map(n => lookup(REPORT.rows, spec.dir, spec.device, spec.batch, n, imp)),\n    borderColor: COLORS[imp] || '#999',\n    backgroundColor: (COLORS[imp] || '#999') + '99',\n    tension: 0.15,\n    spanGaps: true,\n  }));\n  charts.push(new Chart(canvas, {\n    type: spec.log ? 'line' : 'bar',\n    data: { labels, datasets },\n    options: {\n      responsive: true,\n      plugins: {\n        legend: { labels: { color: '#8b949e' } },\n        title: { display: false },\n      },\n      scales: {\n        x: { ticks: { color: '#8b949e' }, grid: { color: '#30363d' } },\n        y: {\n          type: spec.log ? 'logarithmic' : 'linear',\n          title: { display: true, text: 'ms / iter', color: '#8b949e' },\n          ticks: { color: '#8b949e' },\n          grid: { color: '#30363d' },\n        },\n      },\n    },\n  }));\n});\n\nbuildPrecisionTable();\n</script>\n</body>\n</html>",
];

/// The frame of the page of an end-to-end bench.
pub const E2E_PAGE: [&'static str; 23] = [
    "<!DOCTYPE html>\n<html lang=\"en\">\n<head>\n<meta charset=\"utf-8\"/>\n<meta name=\"viewport\" content=\"width=device-width, initial-scale=1\"/>\n<title>RLX-FFT E2E Validation Report</title>\n<script src=\"https://cdn.jsdelivr.net/npm/chart.js@4.4.1/dist/chart.umd.min.js\"></script>\n<script src=\"https://cdn.jsdelivr.net/npm/plotly.js-dist-min@2.27.0/plotly.min.js\"></script>\n<style>\n  :root {\n    --bg: #0f1419; --panel: #1a2332; --text: #e6edf3; --muted: #8b949e;\n    --border: #30363d; --accent: #58a6ff; --pass: #238636; --fail: #da3633;\n  }\n  * { box-sizing: border-box; }\n  body {\n    margin: 0; font-family: \"SF Pro Text\", -apple-system, BlinkMacSystemFont, \"Segoe UI\", sans-serif;\n    background: var(--bg); color: var(--text); line-height: 1.5;\n  }\n  header {\n    padding: 2rem 2.5rem 1rem; border-bottom: 1px solid var(--border);\n    background: linear-gradient(180deg, #161b22 0%, var(--bg) 100%);\n  }\n  h1 { margin: 0 0 0.5rem; font-size: 1.75rem; font-weight: 600; }\n  .meta { color: var(--muted); font-size: 0.95rem; }\n  .meta span { margin-right: 1.25rem; }\n  main { padding: 1.5rem 2.5rem 3rem; max-width: 1400px; margin: 0 auto; }\n  section { margin-bottom: 2.5rem; }\n  h2 {\n    font-size: 1.25rem; margin: 0 0 1rem; padding-bottom: 0.5rem;\n    border-bottom: 1px solid var(--border);\n  }\n  h3 { font-size: 1rem; color: var(--accent); margin: 1.5rem 0 0.75rem; }\n  .note {\n    background: var(--panel); border: 1px solid var(--border); border-radius: 8px;\n    padding: 1rem 1.25rem; color: var(--muted); font-size: 0.9rem; margin-bottom: 2rem;\n  }\n  .cards {\n    display: grid; grid-template-columns: repeat(auto-fit, minmax(180px, 1fr)); gap: 1rem;\n    margin-bottom: 1.5rem;\n  }\n  .card-stat {\n    background: var(--panel); border: 1px solid var(--border); border-radius: 10px;\n    padding: 1rem 1.1rem;\n  }\n  .card-stat .label { color: var(--muted); font-size: 0.8rem; text-transform: uppercase; letter-spacing: 0.04em; }\n  .card-stat .value { font-size: 1.35rem; font-weight: 600; margin-top: 0.25rem; }\n  .card-stat .sub { color: var(--muted); font-size: 0.85rem; margin-top: 0.15rem; }\n  .grid {\n    display: grid; grid-template-columns: repeat(auto-fit, minmax(420px, 1fr)); gap: 1.25rem;\n  }\n  .card {\n    background: var(--panel); border: 1px solid var(--border); border-radius: 10px;\n    padding: 1rem 1rem 0.5rem;\n  }\n  .card h4 { margin: 0 0 0.75rem; font-size: 0.9rem; font-weight: 500; color: var(--muted); }\n  canvas { max-height: 300px; }\n  .plotly { width: 100%; min-height: 340px; }\n  .tabs { display: flex; flex-wrap: wrap; gap: 0.5rem; margin-bottom: 1rem; }\n  .tab {\n    background: #21262d; border: 1px solid var(--border); color: var(--muted);\n    padding: 0.35rem 0.85rem; border-radius: 6px; cursor: pointer; font-size: 0.85rem;\n  }\n  .tab.active { background: #30363d; color: var(--text); border-color: var(--accent); }\n  .panel { display: none; }\n  .panel.active { display: block; }\n  table { width: 100%; border-collapse: collapse; font-size: 0.85rem; }\n  th, td { padding: 0.45rem 0.65rem; border-bottom: 1px solid var(--border); text-align: right; }\n  th.left, td.left { text-align: left; }\n  th { color: var(--muted); font-weight: 500; }\n  tr:hover td { background: rgba(88,166,255,0.06); }\n  .pass { color: var(--pass); font-weight: 600; }\n  .fail { color: var(--fail); font-weight: 600; }\n  .warn { color: #d29922; font-weight: 600; }\n  .legend { display: flex; flex-wrap: wrap; gap: 0.75rem 1.25rem; margin: 1rem 0 2rem; }\n  .legend-item { display: flex; align-items: center; gap: 0.4rem; font-size: 0.85rem; color: var(--muted); }\n  .swatch { width: 12px; height: 12px; border-radius: 3px; }\n  footer { padding: 1rem 2.5rem 2rem; color: var(--muted); font-size: 0.85rem; border-top: 1px solid var(--border); }\n</style>\n</head>\n<body>\n<header>\n  <h1>RLX-FFT E2E Validation Report</h1>\n  <div class=\"meta\">\n    <span>generated ",
    "</span>\n    <span>n_fft=",
    "</span>\n    <span>n_mels=",
    "</span>\n    <span>bench iters=",
    "</span>\n    <span>devices: ",
    "</span>\n    <span>batches: ",
    "</span>\n  </div>\n</header>\n<main>\n  <div class=\"note\">\n    Compares reference (<code>rustfft_ref</code>), native RLX FFT (<code>rlx_op_fft</code>),\n    compiled learned teacher (<code>learned_compiled</code>), and distilled deploy\n    (<code>learned_distilled</code>) across mel, welch, q8, and denoise pipelines.\n    Speed gate: distilled mel latency ≤ 1.05× <code>rlx_op_fft</code> and error ≤ 1.5× on GPU.\n  </div>\n\n  <section>\n    <h2>Summary</h2>\n    ",
    "\n  </section>\n\n  ",
    "\n\n  ",
    "\n\n  <section>\n    <h2>Speed gate (mel pipeline)</h2>\n    ",
    "\n  </section>\n\n  <div class=\"legend\">",
    "</div>\n\n  <section>\n    <h2>Mel pipeline — latency &amp; precision</h2>\n    ",
    "\n  </section>\n\n  <section>\n    <h2>Latency vs batch (mel)</h2>\n    ",
    "\n  </section>\n\n  <section>\n    <h2>Precision vs speed (mel scatter)</h2>\n    ",
    "\n  </section>\n\n  <section>\n    <h2>Heatmaps — distilled vs RLX FFT (mel)</h2>\n    <p style=\"color:var(--muted);font-size:0.9rem;margin-top:0\">\n      Ratio &lt; 1 means distilled is faster than <code>rlx_op_fft</code>; error ratio &lt; 1 means lower max error.\n    </p>\n    ",
    "\n  </section>\n\n  ",
    "\n\n  <section>\n    <h2>Full results table</h2>\n    ",
    "\n  </section>\n</main>\n<footer>rlx-fft bench-e2e · total bench time ",
    " ms</footer>\n\n<script>\nconst REPORT = ",
    ";\nconst CHART_BACKENDS = ",
    ";\nconst COLORS = ",
    ";\n\nfunction lookup(pipeline, device, batch, backend) {\n  return REPORT.rows.find(r =>\n    r.pipeline === pipeline && r.device === device &&\n    r.batch === batch && r.backend === backend\n  ) || null;\n}\n\nfunction fmtMs(v) {\n  if (v == null || Number.isNaN(v)) return 'n/a';\n  if (v < 0.01) return v.toExponential(2);\n  return v.toFixed(4);\n}\n\nfunction fmtErr(v) {\n  if (v == null || Number.isNaN(v)) return '—';\n  return v.toExponential(2);\n}\n\nconst PLOTLY_LAYOUT = {\n  paper_bgcolor: '#1a2332', plot_bgcolor: '#1a2332',\n  font: { color: '#e6edf3', size: 11 },\n  margin: { l: 60, r: 20, t: 40, b: 50 },\n};\n\nfunction plotRatioHeatmap(el, title, z, x, y, zmid) {\n  const data = [{\n    z, x, y, type: 'heatmap', colorscale: 'RdYlGn_r', zmid,\n    hovertemplate: 'device=%{y} batch=%{x}<br>ratio %{z:.3f}<extra></extra>',\n    colorbar: { tickfont: { color: '#8b949e' }, title: 'ratio' },\n  }];\n  Plotly.newPlot(el, data, {\n    ...PLOTLY_LAYOUT,\n    title: { text: title, font: { size: 13, color: '#8b949e' } },\n    xaxis: { title: 'batch' },\n    yaxis: { title: 'device' },\n  }, { responsive: true, displayModeBar: true });\n}\n\ndocument.querySelectorAll('[data-plotly]').forEach(el => {\n  const spec = JSON.parse(el.dataset.plotly);\n  plotRatioHeatmap(el, spec.title, spec.z, spec.batches, spec.devices, spec.zmid);\n});\n\ndocument.querySelectorAll('.tab-group').forEach(group => {\n  const tabs = group.querySelectorAll('.tab');\n  const panels = group.querySelectorAll('.panel');\n  tabs.forEach((tab, i) => {\n    tab.addEventListener('click', () => {\n      tabs.forEach(t => t.classList.remove('active'));\n      panels.forEach(p => p.classList.remove('active'));\n      tab.classList.add('active');\n      panels[i].classList.add('active');\n      if (window.chartRegistry) {\n        panels[i].querySelectorAll('canvas').forEach(c => {\n          const ch = window.chartRegistry[c.id];\n          if (ch) ch.resize();\n        });\n      }\n      panels[i].querySelectorAll('[data-plotly]').forEach(el => Plotly.Plots.resize(el));\n    });\n  });\n});\n\nwindow.chartRegistry = {};\n\nfunction makeGroupedBar(canvasId, labels, datasets, yLabel, logY) {\n  const ctx = document.getElementById(canvasId);\n  if (!ctx) return;\n  if (window.chartRegistry[canvasId]) window.chartRegistry[canvasId].destroy();\n  window.chartRegistry[canvasId] = new Chart(ctx, {\n    type: 'bar',\n    data: { labels, datasets },\n    options: {\n      responsive: true,\n      plugins: { legend: { labels: { color: '#8b949e' } } },\n      scales: {\n        x: { ticks: { color: '#8b949e' }, grid: { color: '#30363d' } },\n        y: {\n          type: logY ? 'logarithmic' : 'linear',\n          title: { display: true, text: yLabel, color: '#8b949e' },\n          ticks: { color: '#8b949e' },\n          grid: { color: '#30363d' },\n        },\n      },\n    },\n  });\n}\n\nfunction makeLineChart(canvasId, labels, datasets, yLabel) {\n  const ctx = document.getElementById(canvasId);\n  if (!ctx) return;\n  if (window.chartRegistry[canvasId]) window.chartRegistry[canvasId].destroy();\n  window.chartRegistry[canvasId] = new Chart(ctx, {\n    type: 'line',\n    data: { labels, datasets },\n    options: {\n      responsive: true,\n      plugins: { legend: { labels: { color: '#8b949e' } } },\n      scales: {\n        x: { title: { display: true, text: 'batch', color: '#8b949e' }, ticks: { color: '#8b949e' }, grid: { color: '#30363d' } },\n        y: {\n          type: 'logarithmic',\n          title: { display: true, text: yLabel, color: '#8b949e' },\n          ticks: { color: '#8b949e' },\n          grid: { color: '#30363d' },\n        },\n      },\n    },\n  });\n}\n\nfunction makeScatter(canvasId, datasets) {\n  const ctx = document.getElementById(canvasId);\n  if (!ctx) return;\n  if (window.chartRegistry[canvasId]) window.chartRegistry[canvasId].destroy();\n  window.chartRegistry[canvasId] = new Chart(ctx, {\n    type: 'scatter',\n    data: { datasets },\n    options: {\n      responsive: true,\n      plugins: {\n        legend: { labels: { color: '#8b949e' } },\n        tooltip: {\n          callbacks: {\n            label: (ctx) => `${ctx.dataset.label}: ${fmtMs(ctx.parsed.x)} ms, err ${fmtErr(ctx.parsed.y)}`,\n          },\n        },\n      },\n      scales: {\n        x: {\n          type: 'logarithmic',\n          title: { display: true, text: 'latency (ms)', color: '#8b949e' },\n          ticks: { color: '#8b949e' }, grid: { color: '#30363d' },\n        },\n        y: {\n          type: 'logarithmic',\n          title: { display: true, text: 'max_err', color: '#8b949e' },\n          ticks: { color: '#8b949e' }, grid: { color: '#30363d' },\n        },\n      },\n    },\n  });\n}\n\n",
    "\n</script>\n</body>\n</html>",
];

/// The frame of the page of a ternary ablation.
pub const TERNARY_PAGE: [&'static str; 9] = [
    "<!DOCTYPE html>\n<html lang=\"en\"><head><meta charset=\"utf-8\"/>\n<title>Ternary Architecture Ablation</title>\n<script src=\"https://cdn.jsdelivr.net/npm/plotly.js-dist-min@2.27.0/plotly.min.js\"></script>\n<style>\nbody{font-family:system-ui,sans-serif;margin:1rem;background:#0f1419;color:#e6edf3}\n.card{background:#1a2332;padding:1rem;margin:1rem 0;border-radius:8px}\ntable{border-collapse:collapse;width:100%} th,td{border:1px solid #30363d;padding:.4rem;text-align:left}\nh1{color:#58a6ff}\n</style></head><body>\n<h1>Ternary Architecture Ablation</h1>\n<p>quick=",
    " elapsed_ms=",
    " devices=",
    "</p>\n<div id=\"",
    "\" style=\"height:420px\"></div>\n",
    "\n<script>\nconst data=[",
    "];\nPlotly.newPlot('",
    "',data,{title:'Pareto: mean latency vs max normalized error',xaxis:{title:'mean ms'},yaxis:{title:'max norm err',type:'log'}},{responsive:true});\nconst report=",
    ";\n</script>\n</body></html>",
];

/// The cards at the top of the page of an end-to-end bench.
pub const SUMMARY_CARDS: [&'static str; 11] = [
    "<div class=\"cards\">\n  <div class=\"card-stat\"><div class=\"label\">n_fft</div><div class=\"value\">",
    "</div><div class=\"sub\">transform size</div></div>\n  <div class=\"card-stat\"><div class=\"label\">Train iterations</div><div class=\"value\">",
    "</div><div class=\"sub\">teacher butterfly</div></div>\n  <div class=\"card-stat\"><div class=\"label\">Distill iterations</div><div class=\"value\">",
    "</div><div class=\"sub\">student deploy</div></div>\n  <div class=\"card-stat\"><div class=\"label\">Teacher mel err</div><div class=\"value\">",
    "</div><div class=\"sub\">vs rustfft ref</div></div>\n  <div class=\"card-stat\"><div class=\"label\">Distill vs teacher</div><div class=\"value\">",
    "</div><div class=\"sub\">mel max err</div></div>\n  <div class=\"card-stat\"><div class=\"label\">Distill vs ref</div><div class=\"value\">",
    "</div><div class=\"sub\">mel max err</div></div>\n  <div class=\"card-stat\"><div class=\"label\">Fastest distilled</div><div class=\"value\">",
    "</div><div class=\"sub\">",
    " devices · ",
    " batches</div></div>\n  <div class=\"card-stat\"><div class=\"label\">Bench iters</div><div class=\"value\">",
    "</div><div class=\"sub\">per backend timing</div></div>\n</div>",
];

/// The section on training for each batch.
pub const PER_BATCH_SECTION: [&'static str; 9] = [
    "<section>\n  <h2>Training &amp; distillation vs batch</h2>\n  <div class=\"grid\">\n    <div class=\"card\"><h4>Max mel error vs batch</h4><canvas id=\"train-err-batch\"></canvas></div>\n    <div class=\"card\"><h4>Train / distill time vs batch</h4><canvas id=\"train-ms-batch\"></canvas></div>\n  </div>\n  <h3>Per-batch summary</h3>\n  <table>\n    <thead><tr>\n      <th class=\"left\">batch</th><th>teacher mel err</th><th>distill vs teacher</th>\n      <th>distill vs ref</th><th>train ms</th><th>distill ms</th>\n    </tr></thead>\n    <tbody>",
    "</tbody>\n  </table>\n</section>\n<script>\n(function() {\n  const labels = ",
    ";\n  const errDatasets = [\n    { label: 'teacher vs ref (mel)', data: ",
    ", borderColor: '#e15759', backgroundColor: '#e15759', fill: false, tension: 0.15 },\n    { label: 'distill vs teacher (mel)', data: ",
    ", borderColor: '#ff7f0e', backgroundColor: '#ff7f0e', fill: false, tension: 0.15 },\n    { label: 'distill vs ref (mel)', data: ",
    ", borderColor: '#59a14f', backgroundColor: '#59a14f', fill: false, tension: 0.15 },\n    { label: 'teacher vs ref (welch)', data: ",
    ", borderColor: '#76b7b2', backgroundColor: '#76b7b2', fill: false, tension: 0.15, borderDash: [4,4] },\n  ];\n  const msDatasets = [\n    { label: 'train ms', data: ",
    ", borderColor: '#f28e2b', backgroundColor: '#f28e2b', fill: false, tension: 0.15 },\n    { label: 'distill ms', data: ",
    ", borderColor: '#4e79a7', backgroundColor: '#4e79a7', fill: false, tension: 0.15 },\n  ];\n  window.chartRegistry = window.chartRegistry || {};\n  function line(id, datasets, yLabel, logY) {\n    const ctx = document.getElementById(id);\n    if (!ctx) return;\n    if (window.chartRegistry[id]) window.chartRegistry[id].destroy();\n    window.chartRegistry[id] = new Chart(ctx, {\n      type: 'line',\n      data: { labels, datasets },\n      options: {\n        responsive: true,\n        scales: {\n          x: { type: 'logarithmic', title: { display: true, text: 'batch', color: '#8b949e' }, ticks: { color: '#8b949e' }, grid: { color: '#30363d' } },\n          y: { type: logY ? 'logarithmic' : 'linear', title: { display: true, text: yLabel, color: '#8b949e' }, ticks: { color: '#8b949e' }, grid: { color: '#30363d' } },\n        },\n      },\n    });\n  }\n  line('train-err-batch', errDatasets, 'max_err', true);\n  line('train-ms-batch', msDatasets, 'ms', true);\n})();\n</script>",
];

/// The section on the precision of training.
pub const DISTILL_SECTION: [&'static str; 11] = [
    "<section>\n  <h2>Training &amp; distillation precision</h2>\n  <div class=\"grid\">\n    <div class=\"card\">\n      <h4>Max error after training / distillation</h4>\n      <canvas id=\"distill-bar\"></canvas>\n    </div>\n    <div class=\"card\">\n      <h4>Teacher training stats</h4>\n      <table>\n        <tr><td class=\"left\">Spectrum err</td><td>",
    "</td></tr>\n        <tr><td class=\"left\">Mel err</td><td>",
    "</td></tr>\n        <tr><td class=\"left\">Welch err</td><td>",
    "</td></tr>\n        <tr><td class=\"left\">Mean gate</td><td>",
    "</td></tr>\n        <tr><td class=\"left\">Active gates</td><td>",
    " / ",
    " hard</td></tr>\n        <tr><td class=\"left\">Q8</td><td>",
    "</td></tr>\n        <tr><td class=\"left\">Train time</td><td>",
    " ms</td></tr>\n      </table>\n    </div>\n  </div>\n</section>\n<script>\n(function() {\n  const labels = ",
    ";\n  const vals = ",
    ";\n  const ctx = document.getElementById('distill-bar');\n  if (!ctx) return;\n  window.chartRegistry = window.chartRegistry || {};\n  window.chartRegistry['distill-bar'] = new Chart(ctx, {\n    type: 'bar',\n    data: {\n      labels,\n      datasets: [{\n        label: 'max_err',\n        data: vals,\n        backgroundColor: ['#e15759','#76b7b2','#ff7f0e','#edc948','#59a14f'],\n      }],\n    },\n    options: {\n      indexAxis: 'y',\n      responsive: true,\n      plugins: { legend: { display: false } },\n      scales: {\n        x: { type: 'logarithmic', title: { display: true, text: 'max_err', color: '#8b949e' }, ticks: { color: '#8b949e' }, grid: { color: '#30363d' } },\n        y: { ticks: { color: '#8b949e' }, grid: { color: '#30363d' } },\n      },\n    },\n  });\n})();\n</script>",
];

/// The table of speed gates.
pub const GATE_TABLE: [&'static str; 2] = [
    "<table>\n<thead><tr>\n  <th class=\"left\">device</th><th>batch</th><th>rlx ms</th><th>distilled ms</th><th>compiled ms</th>\n  <th>speed ratio</th><th>rlx err</th><th>dist err</th><th>err ratio</th><th>gate</th>\n</tr></thead>\n<tbody>",
    "</tbody>\n</table>",
];

/// The panel of a pipeline on a device.
pub const PIPELINE_PANEL: [&'static str; 12] = [
    "<div class=\"panel",
    "\" id=\"panel-",
    "-",
    "\">\n  <div class=\"grid\">\n    <div class=\"card\"><h4>Latency (ms) — ",
    " / ",
    "</h4><canvas id=\"lat-",
    "-",
    "\"></canvas></div>\n    <div class=\"card\"><h4>Max error — ",
    " / ",
    "</h4><canvas id=\"err-",
    "-",
    "\"></canvas></div>\n  </div>\n</div>",
];

/// The panels of a pipeline.
pub const PIPELINE_GROUP: [&'static str; 5] = [
    "<h3>",
    "</h3>\n<div class=\"tab-group\" id=\"tg-",
    "\">\n  <div class=\"tabs\">",
    "</div>\n  ",
    "\n</div>",
];

/// The heatmaps of speed and error ratios.
pub const RATIO_HEATMAPS: [&'static str; 3] = [
    "<div class=\"grid\">\n  <div class=\"card\"><div class=\"plotly\" data-plotly='",
    "'></div></div>\n  <div class=\"card\"><div class=\"plotly\" data-plotly='",
    "'></div></div>\n</div>",
];

/// The scatter panel of a device.
pub const SCATTER_PANEL: [&'static str; 5] = [
    "<div class=\"panel",
    "\" id=\"panel-scatter-",
    "\">\n  <div class=\"card\"><h4>Latency vs max_err — mel / ",
    "</h4><canvas id=\"scatter-",
    "\"></canvas></div>\n</div>",
];

/// The scatter panels.
pub const SCATTER_GROUP: [&'static str; 3] = [
    "<div class=\"tab-group\" id=\"tg-scatter\">\n  <div class=\"tabs\">",
    "</div>\n  ",
    "\n</div>",
];

/// The line panel of a device.
pub const LINE_PANEL: [&'static str; 5] = [
    "<div class=\"panel",
    "\" id=\"panel-line-",
    "\">\n  <div class=\"card\"><h4>Latency vs batch — mel / ",
    "</h4><canvas id=\"line-",
    "\"></canvas></div>\n</div>",
];

/// The line panels.
pub const LINE_GROUP: [&'static str; 3] = [
    "<div class=\"tab-group\" id=\"tg-line\">\n  <div class=\"tabs\">",
    "</div>\n  ",
    "\n</div>",
];

/// The table of every row.
pub const FULL_TABLE: [&'static str; 2] = [
    "<table>\n<thead><tr>\n  <th class=\"left\">pipeline</th><th class=\"left\">backend</th><th class=\"left\">device</th>\n  <th>batch</th><th>n_fft</th><th>ms</th><th>max_err</th><th>mean_gate</th>\n</tr></thead>\n<tbody>",
    "</tbody>\n</table>",
];

} // verus!

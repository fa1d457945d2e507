//! The page of an ablation report: tier wins, winners, heatmaps, charts and tables.

use crate::ablation::{
    ablation_winners, count_tiers, count_views, ref_views, row_views, tier_counts, tier_for, tier_of,
    winners, AblationReport, AblationRow, RowView,
};
use crate::figure::figure_view;
use crate::grid::{
    axis_values, cell_facts, cell_views, distinct_devices, devices_of, facts_of, section_batches,
    section_sizes, section_table, shade_views, show_section, CellFacts, CellView, GridCell, Shade,
    ShadeView,
};
use crate::html::{
    active, active_mark, colour_fields, colours_json, fields_view, html_escape,
    html_text, json_list, json_list_text, json_object, json_object_text, legend, legend_items, list_value, slug,
    slug_text, str_views, text_value, JsonValue, JsonView,
};
use crate::order::{arranged, arranged_is, models, sorted_distinct, stable_order, stable_order_of};
use crate::pages::{each, fill, filled, ABLATION_PAGE};
use crate::text::{
    copy_text, copy_texts, decimal, decimal_text, join_texts, joined, same_text, texts, usize_text,
};
use vstd::prelude::*;

verus! {

/// The colour of each variant.
pub const VARIANT_COLORS: [(&'static str, &'static str); 16] = [
    ("rustfft", "#4e79a7"),
    ("rlx_op_fft", "#f28e2b"),
    ("rlx_op_ifft", "#ff9d4d"),
    ("butterfly_eager", "#59a14f"),
    ("butterfly_compiled", "#e15759"),
    ("stockham_eager", "#76b7b2"),
    ("stockham_compiled", "#edc948"),
    ("fused_spectral_eager", "#b07aa1"),
    ("fused_spectral_compiled", "#ff9da7"),
    ("butterfly_q8", "#9c755f"),
    ("butterfly_unitary", "#bab0ac"),
    ("domain_twiddle", "#86bcb6"),
    ("welch_rustfft", "#4c78a8"),
    ("welch_rlx_op_fft", "#f58518"),
    ("welch_butterfly_eager", "#54a24b"),
    ("welch_butterfly_compiled", "#e45756"),
];

// ---------------------------------------------------------------------------
// Rows as timings
// ---------------------------------------------------------------------------

/// A row as a timing; directions are not told apart.
pub open spec fn cell_of(r: RowView) -> CellView {
    CellView {
        dir: ""@,
        device: r.device,
        name: r.variant,
        n_fft: r.n_fft,
        batch: r.batch,
        ms: r.ms,
        max_err: Some(r.max_err),
    }
}

/// Rows as timings.
pub open spec fn cells_of(rows: Seq<RowView>) -> Seq<CellView> {
    rows.map_values(|r: RowView| cell_of(r))
}

/// Rows as timings.
pub fn grid_of(rows: &Vec<AblationRow>) -> (r: Vec<GridCell>)
    ensures
        cell_views(r@) == cells_of(row_views(rows@)),
{
    let mut out: Vec<GridCell> = Vec::new();
    let mut i: usize = 0;
    while i < rows.len()
        invariant
            i <= rows.len(),
            out.len() == i,
            forall|k: int| 0 <= k < i ==> (#[trigger] out@[k])@ == cell_of(rows@[k]@),
        decreases rows.len() - i,
    {
        let row = &rows[i];
        let cell = GridCell {
            dir: "".to_owned(),
            device: copy_text(&row.device),
            name: copy_text(&row.variant),
            n_fft: row.n_fft,
            batch: row.batch,
            ms: row.ms.copy(),
            max_err: Some(row.max_err.copy()),
        };
        assert(figure_view(cell.max_err) == Some(row.max_err@));
        out.push(cell);
        i += 1;
    }
    assert(cell_views(out@) =~= cells_of(row_views(rows@)));
    out
}

/// The tier and the name of each row's variant; the tier is that of the variant's first row.
pub open spec fn tiered_names(all: Seq<RowView>, rows: Seq<RowView>) -> Seq<(Seq<char>, Seq<char>)> {
    rows.map_values(|r: RowView| (tier_of(all, r.variant), r.variant))
}

/// The second texts of some pairs.
pub open spec fn seconds(v: Seq<(Seq<char>, Seq<char>)>) -> Seq<Seq<char>> {
    v.map_values(|p: (Seq<char>, Seq<char>)| p.1)
}

/// The variants of some rows, each once, by tier and then by name.
pub open spec fn variants_in_order(rows: Seq<RowView>) -> Seq<Seq<char>> {
    seconds(arranged::<(String, String)>(tiered_names(rows, rows)))
}

/// The variants of some rows, each once, by tier and then by name.
pub fn unique_variants(rows: &Vec<AblationRow>) -> (r: Vec<String>)
    ensures
        texts(r@) == variants_in_order(row_views(rows@)),
{
    let ghost v = row_views(rows@);
    let mut keys: Vec<(String, String)> = Vec::new();
    let mut i: usize = 0;
    while i < rows.len()
        invariant
            i <= rows.len(),
            v == row_views(rows@),
            keys.len() == i,
            forall|k: int|
                0 <= k < i ==> (#[trigger] keys@[k]).0@ == tier_of(v, v[k].variant) && keys@[k].1@
                    == v[k].variant,
        decreases rows.len() - i,
    {
        let tier = tier_for(rows, rows[i].variant.as_str());
        keys.push((tier, copy_text(&rows[i].variant)));
        i += 1;
    }
    assert(models(keys@) =~= tiered_names(v, v));
    let sorted = sorted_distinct(keys);
    proof {
        arranged_is::<(String, String)>(tiered_names(v, v), models(sorted@));
    }
    let mut out: Vec<String> = Vec::new();
    let mut i: usize = 0;
    while i < sorted.len()
        invariant
            i <= sorted.len(),
            out.len() == i,
            forall|k: int| 0 <= k < i ==> (#[trigger] out@[k])@ == sorted@[k].1@,
        decreases sorted.len() - i,
    {
        out.push(copy_text(&sorted[i].1));
        i += 1;
    }
    assert(texts(out@) =~= seconds(models(sorted@)));
    out
}

// ---------------------------------------------------------------------------
// Tier wins
// ---------------------------------------------------------------------------

/// Counts as keys that put the highest first.
pub open spec fn falling_keys(wins: Seq<(Seq<char>, usize)>) -> Seq<usize> {
    wins.map_values(|p: (Seq<char>, usize)| (usize::MAX - p.1) as usize)
}

/// Counted tiers in some order.
pub open spec fn in_order(wins: Seq<(Seq<char>, usize)>, order: Seq<usize>) -> Seq<
    (Seq<char>, usize),
> {
    order.map_values(|i: usize| wins[i as int])
}

/// Whether `out` lists the wins of every winning tier, most wins first.
pub open spec fn tiers_by_wins(rows: Seq<RowView>, out: Seq<(Seq<char>, usize)>) -> bool {
    exists|w: Seq<RowView>, wins: Seq<(Seq<char>, usize)>, order: Seq<usize>| #[trigger]
        winners(rows, w) && #[trigger] tier_counts(rows, w, wins) && #[trigger]
        stable_order_of::<usize>(falling_keys(wins), order) && out == in_order(wins, order)
}

/// The wins of every winning tier, most wins first.
pub fn tiers_ranked(report: &AblationReport) -> (r: Vec<(String, usize)>)
    ensures
        tiers_by_wins(report.row_views(), count_views(r@)),
{
    let w = ablation_winners(report);
    let wins = count_tiers(&report.rows, &w);
    let mut keys: Vec<usize> = Vec::new();
    let mut i: usize = 0;
    while i < wins.len()
        invariant
            i <= wins.len(),
            keys.len() == i,
            forall|k: int| 0 <= k < i ==> (#[trigger] keys@[k]) == usize::MAX - wins@[k].1,
        decreases wins.len() - i,
    {
        keys.push(usize::MAX - wins[i].1);
        i += 1;
    }
    let ghost counted = count_views(wins@);
    assert(models(keys@) =~= falling_keys(counted));
    let order = stable_order(&keys);
    let mut out: Vec<(String, usize)> = Vec::new();
    let mut i: usize = 0;
    while i < order.len()
        invariant
            i <= order.len(),
            counted == count_views(wins@),
            stable_order_of::<usize>(falling_keys(counted), order@),
            out.len() == i,
            forall|k: int|
                0 <= k < i ==> (#[trigger] out@[k]).0@ == counted[order@[k] as int].0 && out@[k].1
                    == counted[order@[k] as int].1,
        decreases order.len() - i,
    {
        let at: usize = order[i];
        assert(order@[i as int] < counted.len());
        out.push((copy_text(&wins[at].0), wins[at].1));
        i += 1;
    }
    proof {
        assert forall|k: int| 0 <= k < out@.len() implies count_views(out@)[k] == in_order(
            counted,
            order@,
        )[k] by {
            assert(out@[k].0@ == counted[order@[k] as int].0);
        }
        assert(count_views(out@) =~= in_order(counted, order@));
        assert(winners(report.row_views(), ref_views(w@)));
    }
    out
}

/// A tier on the page: its wins, and their share of the most wins in percent.
#[derive(Clone, Debug)]
pub struct TierBar {
    pub tier: String,
    pub wins: usize,
    pub percent: u32,
}

/// What a tier on the page stands for.
pub struct BarView {
    pub tier: Seq<char>,
    pub wins: usize,
    pub percent: u32,
}

impl View for TierBar {
    type V = BarView;

    open spec fn view(&self) -> BarView {
        BarView { tier: self.tier@, wins: self.wins, percent: self.percent }
    }
}

/// The views of some tiers.
pub open spec fn bar_views(v: Seq<TierBar>) -> Seq<BarView> {
    v.map_values(|b: TierBar| b@)
}

pub const TIER_CARD: [&'static str; 4] = [
    "<div class=\"card\"><h4>Tier ",
    "</h4><div style=\"font-size:2rem;font-weight:600\">",
    "</div><div style=\"color:var(--muted);font-size:0.85rem\">wins · bar ",
    "%</div></div>",
];

/// The cards of some tiers.
pub open spec fn tier_cards(bars: Seq<BarView>) -> spec_fn(int) -> Seq<char> {
    |i: int|
        filled(
            str_views(TIER_CARD@),
            seq![bars[i].tier, decimal(bars[i].wins as nat), decimal(bars[i].percent as nat)],
        )
}

/// The summary of tier wins.
pub open spec fn tier_summary_markup(bars: Seq<BarView>) -> Seq<char> {
    if bars.len() == 0 {
        "<p>No timing data.</p>"@
    } else {
        "<div class=\"grid\">"@ + each(bars.len(), tier_cards(bars)) + "</div>"@
    }
}

/// Writes the summary of tier wins.
pub fn build_tier_summary_html(bars: &Vec<TierBar>) -> (r: String)
    ensures
        r@ == tier_summary_markup(bar_views(bars@)),
{
    if bars.len() == 0 {
        return "<p>No timing data.</p>".to_owned();
    }
    let ghost v = bar_views(bars@);
    let mut out = "<div class=\"grid\">".to_owned();
    let ghost start = out@;
    let mut i: usize = 0;
    assert(out@ =~= start + each(0, tier_cards(v)));
    while i < bars.len()
        invariant
            i <= bars.len(),
            v == bar_views(bars@),
            out@ == start + each(i as nat, tier_cards(v)),
        decreases bars.len() - i,
    {
        let wins = usize_text(bars[i].wins);
        let percent = decimal_text(bars[i].percent as u64);
        let f = [bars[i].tier.as_str(), wins.as_str(), percent.as_str()];
        assert(v[i as int] == bars@[i as int]@);
        assert(str_views(f@) =~= seq![v[i as int].tier, wins@, percent@]);
        out.push_str(fill(&TIER_CARD, &f).as_str());
        assert(out@ =~= start + each((i + 1) as nat, tier_cards(v)));
        i += 1;
    }
    out.push_str("</div>");
    out
}

// ---------------------------------------------------------------------------
// Winners
// ---------------------------------------------------------------------------

pub const WINNERS_HEAD: &'static str = "<h3>Fastest variant per cell</h3><table><thead><tr><th class=\"left\">direction</th><th class=\"left\">n_fft</th><th>batch</th><th class=\"left\">device</th><th class=\"left\">variant</th><th>ms</th></tr></thead><tbody>";

pub const WINNER_ROW: [&'static str; 7] = [
    "<tr><td class=\"left\">",
    "</td><td class=\"left\">",
    "</td><td>",
    "</td><td class=\"left\">",
    "</td><td class=\"left\">",
    "</td><td>",
    "</td></tr>",
];

/// The rows of the table of winners.
pub open spec fn winner_rows(w: Seq<RowView>) -> spec_fn(int) -> Seq<char> {
    |i: int|
        filled(
            str_views(WINNER_ROW@),
            seq![
                w[i].direction,
                decimal(w[i].n_fft as nat),
                decimal(w[i].batch as nat),
                w[i].device,
                w[i].variant,
                w[i].ms.fixed4,
            ],
        )
}

/// The table of winners.
pub open spec fn winners_markup(w: Seq<RowView>) -> Seq<char> {
    if w.len() == 0 {
        Seq::empty()
    } else {
        WINNERS_HEAD@ + each(w.len(), winner_rows(w)) + "</tbody></table>"@
    }
}

/// Writes the table of winners.
pub fn build_winners_table(winners: &Vec<&AblationRow>) -> (r: String)
    ensures
        r@ == winners_markup(ref_views(winners@)),
{
    if winners.len() == 0 {
        return String::new();
    }
    let ghost w = ref_views(winners@);
    let mut out = WINNERS_HEAD.to_owned();
    let mut i: usize = 0;
    assert(out@ =~= WINNERS_HEAD@ + each(0, winner_rows(w)));
    while i < winners.len()
        invariant
            i <= winners.len(),
            w == ref_views(winners@),
            out@ == WINNERS_HEAD@ + each(i as nat, winner_rows(w)),
        decreases winners.len() - i,
    {
        let row = winners[i];
        let n = usize_text(row.n_fft);
        let b = usize_text(row.batch);
        let f = [
            row.direction.as_str(),
            n.as_str(),
            b.as_str(),
            row.device.as_str(),
            row.variant.as_str(),
            row.ms.fixed4.as_str(),
        ];
        assert(w[i as int] == row@);
        assert(str_views(f@) =~= seq![
            row@.direction,
            n@,
            b@,
            row@.device,
            row@.variant,
            row@.ms.fixed4,
        ]);
        out.push_str(fill(&WINNER_ROW, &f).as_str());
        assert(out@ =~= WINNERS_HEAD@ + each((i + 1) as nat, winner_rows(w)));
        i += 1;
    }
    out.push_str("</tbody></table>");
    out
}

// ---------------------------------------------------------------------------
// Heatmaps
// ---------------------------------------------------------------------------

/// Whether a variant has a heatmap of its own.
pub open spec fn heat_variant(v: Seq<char>) -> bool {
    v == "rustfft"@ || v == "rlx_op_fft"@ || v == "butterfly_eager"@ || v == "stockham_eager"@ || v
        == "butterfly_q8"@ || v == "domain_twiddle"@
}

/// Whether a variant is charted.
pub open spec fn chart_variant(v: Seq<char>) -> bool {
    v != "fused_spectral_eager"@ && v != "fused_spectral_compiled"@ && v != "butterfly_unitary"@
}

/// The variants with a heatmap of their own.
pub open spec fn heat_variants(vs: Seq<Seq<char>>) -> Seq<Seq<char>> {
    vs.filter(|v: Seq<char>| heat_variant(v))
}

/// The charted variants.
pub open spec fn chart_variants(vs: Seq<Seq<char>>) -> Seq<Seq<char>> {
    vs.filter(|v: Seq<char>| chart_variant(v))
}

fn pick_heat_variants(vs: &Vec<String>) -> (r: Vec<String>)
    ensures
        texts(r@) == heat_variants(texts(vs@)),
{
    let ghost t = texts(vs@);
    let mut out: Vec<String> = Vec::new();
    let mut i: usize = 0;
    proof {
        reveal(Seq::filter);
        assert(texts(out@) =~= heat_variants(t.take(0)));
    }
    while i < vs.len()
        invariant
            i <= vs.len(),
            t == texts(vs@),
            texts(out@) == heat_variants(t.take(i as int)),
        decreases vs.len() - i,
    {
        let v = vs[i].as_str();
        proof {
            reveal(Seq::filter);
            assert(t.take(i + 1).drop_last() =~= t.take(i as int));
        }
        if same_text(v, "rustfft") || same_text(v, "rlx_op_fft") || same_text(v, "butterfly_eager")
            || same_text(v, "stockham_eager") || same_text(v, "butterfly_q8") || same_text(
            v,
            "domain_twiddle",
        ) {
            out.push(copy_text(&vs[i]));
        }
        assert(texts(out@) =~= heat_variants(t.take(i + 1)));
        i += 1;
    }
    assert(t.take(t.len() as int) =~= t);
    out
}

fn pick_chart_variants(vs: &Vec<String>) -> (r: Vec<String>)
    ensures
        texts(r@) == chart_variants(texts(vs@)),
{
    let ghost t = texts(vs@);
    let mut out: Vec<String> = Vec::new();
    let mut i: usize = 0;
    proof {
        reveal(Seq::filter);
        assert(texts(out@) =~= chart_variants(t.take(0)));
    }
    while i < vs.len()
        invariant
            i <= vs.len(),
            t == texts(vs@),
            texts(out@) == chart_variants(t.take(i as int)),
        decreases vs.len() - i,
    {
        let v = vs[i].as_str();
        proof {
            reveal(Seq::filter);
            assert(t.take(i + 1).drop_last() =~= t.take(i as int));
        }
        if !same_text(v, "fused_spectral_eager") && !same_text(v, "fused_spectral_compiled")
            && !same_text(v, "butterfly_unitary") {
            out.push(copy_text(&vs[i]));
        }
        assert(texts(out@) =~= chart_variants(t.take(i + 1)));
        i += 1;
    }
    assert(t.take(t.len() as int) =~= t);
    out
}

pub const HEAT_OPEN: [&'static str; 3] = [
    "<h3>",
    "</h3><div class=\"tab-group\" id=\"",
    "\"><div class=\"tabs\">",
];

pub const HEAT_TAB: [&'static str; 3] = ["<button class=\"tab", "\" type=\"button\">", "</button>"];

pub const HEAT_TABS_END: &'static str = "<button class=\"tab\" type=\"button\">winner</button><button class=\"tab\" type=\"button\">rlx / rustfft</button><button class=\"tab\" type=\"button\">butterfly err</button></div>";

pub const HEAT_PANEL: [&'static str; 3] = [
    "<div class=\"panel",
    "\"><div class=\"card\"><div class=\"plotly\" data-plotly=\"",
    "\"></div></div></div>",
];

/// The tabs of some variants.
pub open spec fn heat_tabs(vs: Seq<Seq<char>>) -> spec_fn(int) -> Seq<char> {
    |i: int| filled(str_views(HEAT_TAB@), seq![active_mark(i == 0), vs[i]])
}

/// A panel that holds a plot.
pub open spec fn heat_panel(first: bool, plot: Seq<(Seq<char>, JsonView)>) -> Seq<char> {
    filled(
        str_views(HEAT_PANEL@),
        seq![active_mark(first), html_text(json_object_text(plot))],
    )
}

/// The plot of a variant's times.
pub open spec fn ms_plot(v: Seq<char>, device: Seq<char>, ns: Seq<usize>, bs: Seq<usize>) -> Seq<
    (Seq<char>, JsonView),
> {
    seq![
        ("kind"@, JsonView::Text("ms"@)),
        ("title"@, JsonView::Text(v + " · "@ + device)),
        ("device"@, JsonView::Text(device)),
        ("variant"@, JsonView::Text(v)),
        ("n_ffts"@, JsonView::Counts(ns)),
        ("batches"@, JsonView::Counts(bs)),
    ]
}

/// The plot of the fastest variants.
pub open spec fn winner_plot(device: Seq<char>, ns: Seq<usize>, bs: Seq<usize>) -> Seq<
    (Seq<char>, JsonView),
> {
    seq![
        ("kind"@, JsonView::Text("winner"@)),
        ("title"@, JsonView::Text("Fastest variant · "@ + device)),
        ("device"@, JsonView::Text(device)),
        ("n_ffts"@, JsonView::Counts(ns)),
        ("batches"@, JsonView::Counts(bs)),
    ]
}

/// The plot of the graph operator's time over the reference's.
pub open spec fn ratio_plot(device: Seq<char>, ns: Seq<usize>, bs: Seq<usize>) -> Seq<
    (Seq<char>, JsonView),
> {
    seq![
        ("kind"@, JsonView::Text("ratio"@)),
        ("title"@, JsonView::Text("rlx_op_fft / rustfft · "@ + device)),
        ("device"@, JsonView::Text(device)),
        ("numer"@, JsonView::Text("rlx_op_fft"@)),
        ("denom"@, JsonView::Text("rustfft"@)),
        ("n_ffts"@, JsonView::Counts(ns)),
        ("batches"@, JsonView::Counts(bs)),
    ]
}

/// The plot of the butterfly's error.
pub open spec fn err_plot(device: Seq<char>, ns: Seq<usize>, bs: Seq<usize>) -> Seq<
    (Seq<char>, JsonView),
> {
    seq![
        ("kind"@, JsonView::Text("err"@)),
        ("title"@, JsonView::Text("butterfly_eager max_err · "@ + device)),
        ("device"@, JsonView::Text(device)),
        ("variant"@, JsonView::Text("butterfly_eager"@)),
        ("n_ffts"@, JsonView::Counts(ns)),
        ("batches"@, JsonView::Counts(bs)),
    ]
}

/// The panels of some variants.
pub open spec fn ms_panels(
    vs: Seq<Seq<char>>,
    device: Seq<char>,
    ns: Seq<usize>,
    bs: Seq<usize>,
) -> spec_fn(int) -> Seq<char> {
    |i: int| heat_panel(i == 0, ms_plot(vs[i], device, ns, bs))
}

/// The heatmaps of a device.
pub open spec fn device_heatmaps(
    cells: Seq<CellView>,
    vs: Seq<Seq<char>>,
    device: Seq<char>,
) -> Seq<char> {
    let ns = section_sizes(cells, ""@, device);
    let bs = section_batches(cells, ""@, device);
    if ns.len() == 0 || bs.len() == 0 {
        Seq::empty()
    } else {
        filled(str_views(HEAT_OPEN@), seq![device, slug_text("heat-"@ + device)]) + each(
            vs.len(),
            heat_tabs(vs),
        ) + HEAT_TABS_END@ + each(vs.len(), ms_panels(vs, device, ns, bs)) + heat_panel(
            false,
            winner_plot(device, ns, bs),
        ) + heat_panel(false, ratio_plot(device, ns, bs)) + heat_panel(
            false,
            err_plot(device, ns, bs),
        ) + "</div>"@
    }
}

/// The heatmaps of some devices.
pub open spec fn heatmaps(
    cells: Seq<CellView>,
    vs: Seq<Seq<char>>,
    devices: Seq<Seq<char>>,
) -> spec_fn(int) -> Seq<char> {
    |i: int| device_heatmaps(cells, heat_variants(vs), devices[i])
}

fn show_panel(first: bool, plot: &Vec<(&'static str, JsonValue)>) -> (r: String)
    ensures
        r@ == heat_panel(first, fields_view(plot@)),
{
    let json = json_object(plot);
    let text = html_escape(json.as_str());
    let mark = active(first);
    let f = [mark, text.as_str()];
    assert(str_views(f@) =~= seq![mark@, text@]);
    fill(&HEAT_PANEL, &f)
}

fn titled(head: &str, middle: &str, device: &str) -> (r: JsonValue)
    ensures
        r@ == JsonView::Text(head@ + middle@ + device@),
{
    let mut title = head.to_owned();
    title.push_str(middle);
    title.push_str(device);
    JsonValue::Text(title)
}

fn show_device_heatmaps(cells: &Vec<GridCell>, vs: &Vec<String>, device: &str) -> (r: String)
    ensures
        r@ == device_heatmaps(cell_views(cells@), texts(vs@), device@),
{
    let (ns, bs) = axis_values(cells, "", device);
    if ns.len() == 0 || bs.len() == 0 {
        return String::new();
    }
    let ghost t = texts(vs@);
    let mut name = "heat-".to_owned();
    name.push_str(device);
    let id = slug(name.as_str());
    let f = [device, id.as_str()];
    assert(str_views(f@) =~= seq![device@, id@]);
    let mut out = fill(&HEAT_OPEN, &f);
    let ghost start = out@;
    let mut i: usize = 0;
    assert(out@ =~= start + each(0, heat_tabs(t)));
    while i < vs.len()
        invariant
            i <= vs.len(),
            t == texts(vs@),
            out@ == start + each(i as nat, heat_tabs(t)),
        decreases vs.len() - i,
    {
        let mark = active(i == 0);
        let f = [mark, vs[i].as_str()];
        assert(t[i as int] == vs@[i as int]@);
        assert(str_views(f@) =~= seq![mark@, t[i as int]]);
        out.push_str(fill(&HEAT_TAB, &f).as_str());
        assert(out@ =~= start + each((i + 1) as nat, heat_tabs(t)));
        i += 1;
    }
    out.push_str(HEAT_TABS_END);
    let ghost start = out@;
    let ghost panels = ms_panels(t, device@, ns@, bs@);
    let mut i: usize = 0;
    assert(out@ =~= start + each(0, panels));
    while i < vs.len()
        invariant
            i <= vs.len(),
            t == texts(vs@),
            panels == ms_panels(t, device@, ns@, bs@),
            out@ == start + each(i as nat, panels),
        decreases vs.len() - i,
    {
        let v = vs[i].as_str();
        let plot = vec![
            ("kind", text_value("ms")),
            ("title", titled(v, " · ", device)),
            ("device", text_value(device)),
            ("variant", text_value(v)),
            ("n_ffts", list_value(&ns)),
            ("batches", list_value(&bs)),
        ];
        assert(fields_view(plot@) =~= ms_plot(v@, device@, ns@, bs@));
        out.push_str(show_panel(i == 0, &plot).as_str());
        assert(t[i as int] == v@);
        assert(out@ =~= start + each((i + 1) as nat, panels));
        i += 1;
    }
    let plot = vec![
        ("kind", text_value("winner")),
        ("title", titled("Fastest variant · ", "", device)),
        ("device", text_value(device)),
        ("n_ffts", list_value(&ns)),
        ("batches", list_value(&bs)),
    ];
    proof {
        reveal_strlit("");
        assert("Fastest variant · "@ + ""@ + device@ =~= "Fastest variant · "@ + device@);
        assert(fields_view(plot@) =~= winner_plot(device@, ns@, bs@));
    }
    out.push_str(show_panel(false, &plot).as_str());
    let plot = vec![
        ("kind", text_value("ratio")),
        ("title", titled("rlx_op_fft / rustfft · ", "", device)),
        ("device", text_value(device)),
        ("numer", text_value("rlx_op_fft")),
        ("denom", text_value("rustfft")),
        ("n_ffts", list_value(&ns)),
        ("batches", list_value(&bs)),
    ];
    proof {
        assert("rlx_op_fft / rustfft · "@ + ""@ + device@ =~= "rlx_op_fft / rustfft · "@
            + device@);
        assert(fields_view(plot@) =~= ratio_plot(device@, ns@, bs@));
    }
    out.push_str(show_panel(false, &plot).as_str());
    let plot = vec![
        ("kind", text_value("err")),
        ("title", titled("butterfly_eager max_err · ", "", device)),
        ("device", text_value(device)),
        ("variant", text_value("butterfly_eager")),
        ("n_ffts", list_value(&ns)),
        ("batches", list_value(&bs)),
    ];
    proof {
        assert("butterfly_eager max_err · "@ + ""@ + device@ =~= "butterfly_eager max_err · "@
            + device@);
        assert(fields_view(plot@) =~= err_plot(device@, ns@, bs@));
    }
    out.push_str(show_panel(false, &plot).as_str());
    out.push_str("</div>");
    out
}

/// Writes the heatmaps of some devices.
pub fn build_plotly_sections(
    cells: &Vec<GridCell>,
    variants: &Vec<String>,
    devices: &Vec<String>,
) -> (r: String)
    ensures
        r@ == each(
            devices@.len(),
            heatmaps(cell_views(cells@), texts(variants@), texts(devices@)),
        ),
{
    let shown = pick_heat_variants(variants);
    let ghost f = heatmaps(cell_views(cells@), texts(variants@), texts(devices@));
    let mut out = String::new();
    let mut i: usize = 0;
    assert(out@ =~= each(0, f));
    while i < devices.len()
        invariant
            i <= devices.len(),
            texts(shown@) == heat_variants(texts(variants@)),
            f == heatmaps(cell_views(cells@), texts(variants@), texts(devices@)),
            out@ == each(i as nat, f),
        decreases devices.len() - i,
    {
        let part = show_device_heatmaps(cells, &shown, devices[i].as_str());
        out.push_str(part.as_str());
        assert(texts(devices@)[i as int] == devices@[i as int]@);
        i += 1;
    }
    out
}

// ---------------------------------------------------------------------------
// Charts
// ---------------------------------------------------------------------------

pub const DEVICE_GRID: [&'static str; 2] = ["<h3>", "</h3><div class=\"grid\">"];

pub const CHART_CARD: [&'static str; 5] = [
    "<div class=\"card\"><h4>",
    " · batch=",
    "</h4><canvas id=\"",
    "\" data-chart='",
    "'></canvas></div>",
];

/// What a chart shows.
pub open spec fn chart_fields(
    device: Seq<char>,
    batch: usize,
    ns: Seq<usize>,
    vs: Seq<Seq<char>>,
) -> Seq<(Seq<char>, JsonView)> {
    seq![
        ("device"@, JsonView::Text(device)),
        ("batch"@, JsonView::Count(batch)),
        ("n_ffts"@, JsonView::Counts(ns)),
        ("variants"@, JsonView::Texts(vs)),
        ("log"@, JsonView::Flag(true)),
    ]
}

/// The charts of a device, one for each batch.
pub open spec fn chart_cards(
    device: Seq<char>,
    bs: Seq<usize>,
    ns: Seq<usize>,
    vs: Seq<Seq<char>>,
) -> spec_fn(int) -> Seq<char> {
    |k: int|
        filled(
            str_views(CHART_CARD@),
            seq![
                device,
                decimal(bs[k] as nat),
                slug_text("chart-"@ + device + "-b"@ + decimal(bs[k] as nat)),
                html_text(json_object_text(chart_fields(device, bs[k], ns, vs))),
            ],
        )
}

/// The charts of some devices.
pub open spec fn charts(
    cells: Seq<CellView>,
    vs: Seq<Seq<char>>,
    devices: Seq<Seq<char>>,
) -> spec_fn(int) -> Seq<char> {
    |i: int|
        {
            let ns = section_sizes(cells, ""@, devices[i]);
            let bs = section_batches(cells, ""@, devices[i]);
            filled(str_views(DEVICE_GRID@), seq![devices[i]]) + each(
                bs.len(),
                chart_cards(devices[i], bs, ns, chart_variants(vs)),
            ) + "</div>"@
        }
}

/// Writes the charts of some devices.
pub fn build_chart_sections(
    cells: &Vec<GridCell>,
    variants: &Vec<String>,
    devices: &Vec<String>,
) -> (r: String)
    ensures
        r@ == each(
            devices@.len(),
            charts(cell_views(cells@), texts(variants@), texts(devices@)),
        ),
{
    let shown = pick_chart_variants(variants);
    let ghost f = charts(cell_views(cells@), texts(variants@), texts(devices@));
    let mut out = String::new();
    let mut i: usize = 0;
    assert(out@ =~= each(0, f));
    while i < devices.len()
        invariant
            i <= devices.len(),
            texts(shown@) == chart_variants(texts(variants@)),
            f == charts(cell_views(cells@), texts(variants@), texts(devices@)),
            out@ == each(i as nat, f),
        decreases devices.len() - i,
    {
        let part = show_device_charts(cells, &shown, devices[i].as_str());
        out.push_str(part.as_str());
        assert(texts(devices@)[i as int] == devices@[i as int]@);
        i += 1;
    }
    out
}

fn show_device_charts(cells: &Vec<GridCell>, vs: &Vec<String>, device: &str) -> (r: String)
    ensures
        ({
            let v = cell_views(cells@);
            let ns = section_sizes(v, ""@, device@);
            let bs = section_batches(v, ""@, device@);
            r@ == filled(str_views(DEVICE_GRID@), seq![device@]) + each(
                bs.len(),
                chart_cards(device@, bs, ns, texts(vs@)),
            ) + "</div>"@
        }),
{
    let (ns, bs) = axis_values(cells, "", device);
    let f = [device];
    assert(str_views(f@) =~= seq![device@]);
    let mut out = fill(&DEVICE_GRID, &f);
    let ghost start = out@;
    let ghost cards = chart_cards(device@, bs@, ns@, texts(vs@));
    let mut k: usize = 0;
    assert(out@ =~= start + each(0, cards));
    while k < bs.len()
        invariant
            k <= bs.len(),
            cards == chart_cards(device@, bs@, ns@, texts(vs@)),
            out@ == start + each(k as nat, cards),
        decreases bs.len() - k,
    {
        let batch = usize_text(bs[k]);
        let mut name = "chart-".to_owned();
        name.push_str(device);
        name.push_str("-b");
        name.push_str(batch.as_str());
        let id = slug(name.as_str());
        let names = copy_texts(vs);
        let fields = vec![
            ("device", text_value(device)),
            ("batch", JsonValue::Count(bs[k])),
            ("n_ffts", list_value(&ns)),
            ("variants", JsonValue::Texts(names)),
            ("log", JsonValue::Flag(true)),
        ];
        assert(fields_view(fields@) =~= chart_fields(device@, bs@[k as int], ns@, texts(vs@)));
        let json = json_object(&fields);
        let chart = html_escape(json.as_str());
        let f = [device, batch.as_str(), id.as_str(), chart.as_str()];
        assert(str_views(f@) =~= seq![device@, batch@, id@, chart@]);
        out.push_str(fill(&CHART_CARD, &f).as_str());
        assert(out@ =~= start + each((k + 1) as nat, cards));
        k += 1;
    }
    out.push_str("</div>");
    out
}

// ---------------------------------------------------------------------------
// Tables
// ---------------------------------------------------------------------------

pub const DEVICE_HEAD: [&'static str; 2] = ["<h3>", "</h3>"];

pub const TABLE_HEAD: &'static str = "<table><thead><tr><th class=\"left\">variant</th><th>tier</th>";

pub const TABLE_SIZES: &'static str = "</tr><tr><th class=\"left\"></th><th></th>";

pub const VARIANT_OPEN: [&'static str; 3] = [
    "<tr><td class=\"left\">",
    "</td><td><span class=\"tier-pill\">",
    "</span></td>",
];

/// The first markup of each variant's row.
pub open spec fn variant_openings(rows: Seq<RowView>, vs: Seq<Seq<char>>) -> Seq<Seq<char>> {
    vs.map_values(
        |v: Seq<char>| filled(str_views(VARIANT_OPEN@), seq![v, tier_of(rows, v)]),
    )
}

/// The tables of some devices.
pub open spec fn tables(
    rows: Seq<RowView>,
    shades: Seq<ShadeView>,
    vs: Seq<Seq<char>>,
    devices: Seq<Seq<char>>,
) -> spec_fn(int) -> Seq<char> {
    |i: int|
        filled(str_views(DEVICE_HEAD@), seq![devices[i]]) + section_table(
            cells_of(rows),
            shades,
            ""@,
            devices[i],
            vs,
            variant_openings(rows, vs),
            (TABLE_HEAD@, TABLE_SIZES@),
        )
}

/// Writes the tables of some devices.
pub fn build_table_sections(
    report: &AblationReport,
    shades: &Vec<Shade>,
    variants: &Vec<String>,
    devices: &Vec<String>,
) -> (r: String)
    requires
        shades.len() == report.rows.len(),
    ensures
        r@ == each(
            devices@.len(),
            tables(report.row_views(), shade_views(shades@), texts(variants@), texts(devices@)),
        ),
{
    let cells = grid_of(&report.rows);
    assert(cell_views(cells@).len() == report.rows.len());
    let ghost openings_model = variant_openings(report.row_views(), texts(variants@));
    let mut openings: Vec<String> = Vec::new();
    let mut i: usize = 0;
    while i < variants.len()
        invariant
            i <= variants.len(),
            openings_model == variant_openings(report.row_views(), texts(variants@)),
            openings.len() == i,
            forall|k: int| 0 <= k < i ==> (#[trigger] openings@[k])@ == openings_model[k],
        decreases variants.len() - i,
    {
        let tier = tier_for(&report.rows, variants[i].as_str());
        let f = [variants[i].as_str(), tier.as_str()];
        assert(str_views(f@) =~= seq![variants@[i as int]@, tier@]);
        openings.push(fill(&VARIANT_OPEN, &f));
        assert(texts(variants@)[i as int] == variants@[i as int]@);
        i += 1;
    }
    assert(texts(openings@) =~= openings_model);
    let ghost f = tables(
        report.row_views(),
        shade_views(shades@),
        texts(variants@),
        texts(devices@),
    );
    let mut out = String::new();
    let mut i: usize = 0;
    assert(out@ =~= each(0, f));
    while i < devices.len()
        invariant
            i <= devices.len(),
            shades.len() == cells.len(),
            openings.len() == variants.len(),
            cell_views(cells@) == cells_of(report.row_views()),
            texts(openings@) == variant_openings(report.row_views(), texts(variants@)),
            f == tables(
                report.row_views(),
                shade_views(shades@),
                texts(variants@),
                texts(devices@),
            ),
            out@ == each(i as nat, f),
        decreases devices.len() - i,
    {
        let device = devices[i].as_str();
        let h = [device];
        assert(str_views(h@) =~= seq![device@]);
        out.push_str(fill(&DEVICE_HEAD, &h).as_str());
        let table = show_section(
            &cells,
            shades,
            "",
            device,
            variants,
            &openings,
            (TABLE_HEAD, TABLE_SIZES),
        );
        out.push_str(table.as_str());
        assert(texts(devices@)[i as int] == devices@[i as int]@);
        assert(out@ =~= each((i + 1) as nat, f));
        i += 1;
    }
    out
}

// ---------------------------------------------------------------------------
// Page
// ---------------------------------------------------------------------------

/// What shades each row of a report in the tables of its page.
pub fn shading_facts(report: &AblationReport) -> (r: Vec<CellFacts>)
    ensures
        r.len() == report.rows.len(),
        forall|i: int|
            0 <= i < r.len() ==> (#[trigger] r@[i]) == facts_of(
                cells_of(report.row_views()),
                variants_in_order(report.row_views()),
                cell_of(report.row_views()[i]),
            ),
{
    let cells = grid_of(&report.rows);
    let variants = unique_variants(&report.rows);
    let r = cell_facts(&cells, &variants);
    assert(cell_views(cells@).len() == report.rows.len());
    r
}

/// What a page is given besides its report: the time, the report as JSON and as a duration in
/// milliseconds without decimals, the tiers and the shades of the rows.
#[derive(Clone, Debug)]
pub struct AblationPage {
    pub generated: String,
    pub json: String,
    pub elapsed: String,
    pub bars: Vec<TierBar>,
    pub shades: Vec<Shade>,
}

/// The page of a report.
pub open spec fn ablation_page(
    report: AblationReport,
    page: AblationPage,
    w: Seq<RowView>,
) -> Seq<char> {
    let rows = report.row_views();
    let cells = cells_of(rows);
    let vs = variants_in_order(rows);
    let devices = arranged::<String>(devices_of(cells));
    filled(
        str_views(ABLATION_PAGE@),
        seq![
            page.generated@,
            decimal(report.iters as nat),
            decimal(report.train_steps as nat),
            page.elapsed@,
            decimal(vs.len()),
            tier_summary_markup(bar_views(page.bars@)),
            winners_markup(w),
            joined(legend_items(VARIANT_COLORS@, vs, "#999"@), "\n"@),
            each(devices.len(), heatmaps(cells, vs, devices)),
            each(devices.len(), charts(cells, vs, devices)),
            each(devices.len(), tables(rows, shade_views(page.shades@), vs, devices)),
            joined(devices, ", "@),
            page.json@,
            json_list_text(vs),
            json_object_text(colour_fields(VARIANT_COLORS@)),
        ],
    )
}

/// Writes the page of a report.
pub fn render_ablation_html(report: &AblationReport, page: &AblationPage) -> (r: String)
    requires
        page.shades.len() == report.rows.len(),
    ensures
        exists|w: Seq<RowView>| #[trigger]
            winners(report.row_views(), w) && r@ == ablation_page(*report, *page, w),
{
    let cells = grid_of(&report.rows);
    let variants = unique_variants(&report.rows);
    let devices = distinct_devices(&cells);
    let fastest = ablation_winners(report);
    let iters = usize_text(report.iters);
    let train_steps = usize_text(report.train_steps);
    let count = usize_text(variants.len());
    let tier_summary = build_tier_summary_html(&page.bars);
    let winners_table = build_winners_table(&fastest);
    let names = legend(&VARIANT_COLORS, &variants, "#999");
    let heatmap_sections = build_plotly_sections(&cells, &variants, &devices);
    let chart_sections = build_chart_sections(&cells, &variants, &devices);
    let table_sections = build_table_sections(report, &page.shades, &variants, &devices);
    let footer = join_texts(&devices, ", ");
    let variants_json = json_list(&variants);
    let colors = colours_json(&VARIANT_COLORS);
    let f = [
        page.generated.as_str(),
        iters.as_str(),
        train_steps.as_str(),
        page.elapsed.as_str(),
        count.as_str(),
        tier_summary.as_str(),
        winners_table.as_str(),
        names.as_str(),
        heatmap_sections.as_str(),
        chart_sections.as_str(),
        table_sections.as_str(),
        footer.as_str(),
        page.json.as_str(),
        variants_json.as_str(),
        colors.as_str(),
    ];
    assert(texts(variants@).len() == variants@.len());
    assert(texts(devices@).len() == devices@.len());
    assert(str_views(f@) =~= seq![
        page.generated@,
        iters@,
        train_steps@,
        page.elapsed@,
        count@,
        tier_summary@,
        winners_table@,
        names@,
        heatmap_sections@,
        chart_sections@,
        table_sections@,
        footer@,
        page.json@,
        variants_json@,
        colors@,
    ]);
    let r = fill(&ABLATION_PAGE, &f);
    assert(winners(report.row_views(), ref_views(fastest@)));
    assert(r@ == ablation_page(*report, *page, ref_views(fastest@)));
    r
}

} // verus!

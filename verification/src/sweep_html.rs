//! The page of a benchmark sweep: heatmaps, charts and tables.

use crate::ablation::note_view;
use crate::ablation_csv::{bool_text, show_bool};
use crate::bench_sweep::{
    cell_of, cells_of, grid_of, impl_labels, implementations, sweep_views, SweepReport,
};
use crate::grid::{
    axis_values, cell_facts, cell_views, devices_of, dirs_of, distinct_devices, distinct_dirs,
    facts_of, section_batches, section_sizes, section_table, shade_views, show_section, CellFacts,
    CellView, GridCell, Shade, ShadeView,
};
use crate::html::{
    active, active_mark, colour_fields, colours_json, fields_view, html_escape,
    html_text, json_list, json_list_text, json_object, json_object_text, legend, legend_items, list_value, slug,
    slug_text, str_views, text_value, JsonValue, JsonView,
};
use crate::order::arranged;
use crate::pages::{each, fill, filled, SWEEP_PAGE};
use crate::text::{copy_texts, decimal, join_texts, joined, texts, usize_text};
use vstd::prelude::*;

verus! {

/// The colour of each implementation.
pub const IMPL_COLORS: [(&'static str, &'static str); 5] = [
    ("rustfft", "#4e79a7"),
    ("rlx_op_fft", "#f28e2b"),
    ("rlx_op_ifft", "#ff9d4d"),
    ("butterfly_eager", "#59a14f"),
    ("butterfly_compiled", "#e15759"),
];

pub const SECTION_HEAD: [&'static str; 3] = ["<h3>", " — ", "</h3>"];

pub const TAB_GROUP: [&'static str; 2] = [
    "<div class=\"tab-group\" id=\"",
    "\"><div class=\"tabs\">",
];

pub const IMPL_TAB: [&'static str; 3] = [
    "<button class=\"tab",
    "\" type=\"button\">",
    " heatmap</button>",
];

pub const TABS_END: &'static str = "<button class=\"tab\" type=\"button\">3D surface (rlx)</button><button class=\"tab\" type=\"button\">winner</button><button class=\"tab\" type=\"button\">rlx / rustfft</button></div>";

pub const PLOT_PANEL: [&'static str; 4] = [
    "<div class=\"panel",
    "\"><div class=\"card\"><div class=\"plotly ",
    "\" data-plotly='",
    "'></div></div></div>",
];

/// The tabs of the implementations.
pub open spec fn impl_tabs(names: Seq<Seq<char>>) -> spec_fn(int) -> Seq<char> {
    |i: int| filled(str_views(IMPL_TAB@), seq![active_mark(i == 0), names[i]])
}

/// A panel that holds a plot of a class.
pub open spec fn plot_panel(first: bool, class: Seq<char>, plot: Seq<(Seq<char>, JsonView)>) -> Seq<
    char,
> {
    filled(
        str_views(PLOT_PANEL@),
        seq![active_mark(first), class, html_text(json_object_text(plot))],
    )
}

/// The title of a plot in a section.
pub open spec fn plot_title(what: Seq<char>, dir: Seq<char>, device: Seq<char>) -> Seq<char> {
    what + " · "@ + dir + " · "@ + device
}

/// A plot of one implementation.
pub open spec fn impl_plot(
    kind: Seq<char>,
    what: Seq<char>,
    dir: Seq<char>,
    device: Seq<char>,
    name: Seq<char>,
    ns: Seq<usize>,
    bs: Seq<usize>,
) -> Seq<(Seq<char>, JsonView)> {
    seq![
        ("kind"@, JsonView::Text(kind)),
        ("title"@, JsonView::Text(plot_title(what, dir, device))),
        ("dir"@, JsonView::Text(dir)),
        ("device"@, JsonView::Text(device)),
        ("impl"@, JsonView::Text(name)),
        ("n_ffts"@, JsonView::Counts(ns)),
        ("batches"@, JsonView::Counts(bs)),
    ]
}

/// The plot of the fastest implementations.
pub open spec fn winner_plot(
    dir: Seq<char>,
    device: Seq<char>,
    ns: Seq<usize>,
    bs: Seq<usize>,
) -> Seq<(Seq<char>, JsonView)> {
    seq![
        ("kind"@, JsonView::Text("winner"@)),
        ("title"@, JsonView::Text(plot_title("Fastest impl"@, dir, device))),
        ("dir"@, JsonView::Text(dir)),
        ("device"@, JsonView::Text(device)),
        ("n_ffts"@, JsonView::Counts(ns)),
        ("batches"@, JsonView::Counts(bs)),
    ]
}

/// The plot of the graph operator's time over the reference's.
pub open spec fn ratio_plot(
    dir: Seq<char>,
    device: Seq<char>,
    ns: Seq<usize>,
    bs: Seq<usize>,
) -> Seq<(Seq<char>, JsonView)> {
    seq![
        ("kind"@, JsonView::Text("ratio"@)),
        ("title"@, JsonView::Text(plot_title("rlx_op_fft / rustfft"@, dir, device))),
        ("dir"@, JsonView::Text(dir)),
        ("device"@, JsonView::Text(device)),
        ("numer"@, JsonView::Text("rlx_op_fft"@)),
        ("denom"@, JsonView::Text("rustfft"@)),
        ("n_ffts"@, JsonView::Counts(ns)),
        ("batches"@, JsonView::Counts(bs)),
    ]
}

/// The panels of the implementations.
pub open spec fn impl_panels(
    names: Seq<Seq<char>>,
    dir: Seq<char>,
    device: Seq<char>,
    ns: Seq<usize>,
    bs: Seq<usize>,
) -> spec_fn(int) -> Seq<char> {
    |i: int|
        plot_panel(
            i == 0,
            ""@,
            impl_plot("heatmap"@, names[i], dir, device, names[i], ns, bs),
        )
}

/// The heatmaps of a section.
pub open spec fn section_heatmaps(
    cells: Seq<CellView>,
    names: Seq<Seq<char>>,
    dir: Seq<char>,
    device: Seq<char>,
) -> Seq<char> {
    let ns = section_sizes(cells, dir, device);
    let bs = section_batches(cells, dir, device);
    if ns.len() == 0 || bs.len() == 0 {
        Seq::empty()
    } else {
        filled(str_views(SECTION_HEAD@), seq![dir, device]) + filled(
            str_views(TAB_GROUP@),
            seq![slug_text("hm-"@ + dir + "-"@ + device)],
        ) + each(names.len(), impl_tabs(names)) + TABS_END@ + each(
            names.len(),
            impl_panels(names, dir, device, ns, bs),
        ) + plot_panel(
            false,
            "plotly-3d"@,
            impl_plot("surface"@, "rlx_op_fft 3D"@, dir, device, "rlx_op_fft"@, ns, bs),
        ) + plot_panel(false, ""@, winner_plot(dir, device, ns, bs)) + plot_panel(
            false,
            ""@,
            ratio_plot(dir, device, ns, bs),
        ) + "</div>"@
    }
}

/// The heatmaps of a direction.
pub open spec fn dir_heatmaps(
    cells: Seq<CellView>,
    names: Seq<Seq<char>>,
    dir: Seq<char>,
    devices: Seq<Seq<char>>,
) -> spec_fn(int) -> Seq<char> {
    |j: int| section_heatmaps(cells, names, dir, devices[j])
}

/// The heatmaps of every direction.
pub open spec fn heatmaps(
    cells: Seq<CellView>,
    names: Seq<Seq<char>>,
    dirs: Seq<Seq<char>>,
    devices: Seq<Seq<char>>,
) -> spec_fn(int) -> Seq<char> {
    |i: int| each(devices.len(), dir_heatmaps(cells, names, dirs[i], devices))
}

fn show_panel(first: bool, class: &str, plot: &Vec<(&'static str, JsonValue)>) -> (r: String)
    ensures
        r@ == plot_panel(first, class@, fields_view(plot@)),
{
    let json = json_object(plot);
    let text = html_escape(json.as_str());
    let mark = active(first);
    let f = [mark, class, text.as_str()];
    assert(str_views(f@) =~= seq![mark@, class@, text@]);
    fill(&PLOT_PANEL, &f)
}

fn titled(what: &str, dir: &str, device: &str) -> (r: JsonValue)
    ensures
        r@ == JsonView::Text(plot_title(what@, dir@, device@)),
{
    let mut title = what.to_owned();
    title.push_str(" · ");
    title.push_str(dir);
    title.push_str(" · ");
    title.push_str(device);
    JsonValue::Text(title)
}

fn show_heatmaps(cells: &Vec<GridCell>, names: &Vec<String>, dir: &str, device: &str) -> (r: String)
    ensures
        r@ == section_heatmaps(cell_views(cells@), texts(names@), dir@, device@),
{
    let (ns, bs) = axis_values(cells, dir, device);
    if ns.len() == 0 || bs.len() == 0 {
        return String::new();
    }
    let ghost t = texts(names@);
    let f = [dir, device];
    assert(str_views(f@) =~= seq![dir@, device@]);
    let mut out = fill(&SECTION_HEAD, &f);
    let mut name = "hm-".to_owned();
    name.push_str(dir);
    name.push_str("-");
    name.push_str(device);
    let id = slug(name.as_str());
    let f = [id.as_str()];
    assert(str_views(f@) =~= seq![id@]);
    out.push_str(fill(&TAB_GROUP, &f).as_str());
    let ghost start = out@;
    let mut i: usize = 0;
    assert(out@ =~= start + each(0, impl_tabs(t)));
    while i < names.len()
        invariant
            i <= names.len(),
            t == texts(names@),
            out@ == start + each(i as nat, impl_tabs(t)),
        decreases names.len() - i,
    {
        let mark = active(i == 0);
        let f = [mark, names[i].as_str()];
        assert(t[i as int] == names@[i as int]@);
        assert(str_views(f@) =~= seq![mark@, t[i as int]]);
        out.push_str(fill(&IMPL_TAB, &f).as_str());
        assert(out@ =~= start + each((i + 1) as nat, impl_tabs(t)));
        i += 1;
    }
    out.push_str(TABS_END);
    let ghost start = out@;
    let ghost panels = impl_panels(t, dir@, device@, ns@, bs@);
    let mut i: usize = 0;
    assert(out@ =~= start + each(0, panels));
    while i < names.len()
        invariant
            i <= names.len(),
            t == texts(names@),
            panels == impl_panels(t, dir@, device@, ns@, bs@),
            out@ == start + each(i as nat, panels),
        decreases names.len() - i,
    {
        let v = names[i].as_str();
        let plot = vec![
            ("kind", text_value("heatmap")),
            ("title", titled(v, dir, device)),
            ("dir", text_value(dir)),
            ("device", text_value(device)),
            ("impl", text_value(v)),
            ("n_ffts", list_value(&ns)),
            ("batches", list_value(&bs)),
        ];
        assert(fields_view(plot@) =~= impl_plot("heatmap"@, v@, dir@, device@, v@, ns@, bs@));
        out.push_str(show_panel(i == 0, "", &plot).as_str());
        assert(t[i as int] == v@);
        assert(out@ =~= start + each((i + 1) as nat, panels));
        i += 1;
    }
    let plot = vec![
        ("kind", text_value("surface")),
        ("title", titled("rlx_op_fft 3D", dir, device)),
        ("dir", text_value(dir)),
        ("device", text_value(device)),
        ("impl", text_value("rlx_op_fft")),
        ("n_ffts", list_value(&ns)),
        ("batches", list_value(&bs)),
    ];
    assert(fields_view(plot@) =~= impl_plot(
        "surface"@,
        "rlx_op_fft 3D"@,
        dir@,
        device@,
        "rlx_op_fft"@,
        ns@,
        bs@,
    ));
    out.push_str(show_panel(false, "plotly-3d", &plot).as_str());
    let plot = vec![
        ("kind", text_value("winner")),
        ("title", titled("Fastest impl", dir, device)),
        ("dir", text_value(dir)),
        ("device", text_value(device)),
        ("n_ffts", list_value(&ns)),
        ("batches", list_value(&bs)),
    ];
    assert(fields_view(plot@) =~= winner_plot(dir@, device@, ns@, bs@));
    out.push_str(show_panel(false, "", &plot).as_str());
    let plot = vec![
        ("kind", text_value("ratio")),
        ("title", titled("rlx_op_fft / rustfft", dir, device)),
        ("dir", text_value(dir)),
        ("device", text_value(device)),
        ("numer", text_value("rlx_op_fft")),
        ("denom", text_value("rustfft")),
        ("n_ffts", list_value(&ns)),
        ("batches", list_value(&bs)),
    ];
    assert(fields_view(plot@) =~= ratio_plot(dir@, device@, ns@, bs@));
    out.push_str(show_panel(false, "", &plot).as_str());
    out.push_str("</div>");
    out
}

/// Writes the heatmaps of every direction and device.
pub fn build_plotly_sections(
    cells: &Vec<GridCell>,
    names: &Vec<String>,
    dirs: &Vec<String>,
    devices: &Vec<String>,
) -> (r: String)
    ensures
        r@ == each(
            dirs@.len(),
            heatmaps(cell_views(cells@), texts(names@), texts(dirs@), texts(devices@)),
        ),
{
    let ghost v = cell_views(cells@);
    let ghost t = texts(names@);
    let ghost ds = texts(devices@);
    let ghost all = heatmaps(v, t, texts(dirs@), ds);
    assert(ds.len() == devices@.len());
    let mut out = String::new();
    let mut i: usize = 0;
    assert(out@ =~= each(0, all));
    while i < dirs.len()
        invariant
            i <= dirs.len(),
            v == cell_views(cells@),
            t == texts(names@),
            ds == texts(devices@),
            ds.len() == devices@.len(),
            all == heatmaps(v, t, texts(dirs@), ds),
            out@ == each(i as nat, all),
        decreases dirs.len() - i,
    {
        let dir = dirs[i].as_str();
        let ghost before = out@;
        let ghost row = dir_heatmaps(v, t, dir@, ds);
        let mut j: usize = 0;
        assert(out@ =~= before + each(0, row));
        while j < devices.len()
            invariant
                j <= devices.len(),
                v == cell_views(cells@),
                t == texts(names@),
                ds == texts(devices@),
                row == dir_heatmaps(v, t, dir@, ds),
                out@ == before + each(j as nat, row),
            decreases devices.len() - j,
        {
            let part = show_heatmaps(cells, names, dir, devices[j].as_str());
            out.push_str(part.as_str());
            assert(ds[j as int] == devices@[j as int]@);
            assert(out@ =~= before + each((j + 1) as nat, row));
            j += 1;
        }
        assert(texts(dirs@)[i as int] == dir@);
        i += 1;
    }
    out
}

// ---------------------------------------------------------------------------
// Charts
// ---------------------------------------------------------------------------

pub const DIR_GRID: [&'static str; 2] = ["<h3>", "</h3><div class=\"grid\">"];

pub const CHART_CARD: [&'static str; 6] = [
    "<div class=\"card\"><h4>",
    " · ",
    " · batch=",
    "</h4><canvas id=\"",
    "\" data-chart='",
    "'></canvas></div>",
];

/// What a chart shows.
pub open spec fn chart_fields(
    dir: Seq<char>,
    device: Seq<char>,
    batch: usize,
    ns: Seq<usize>,
    names: Seq<Seq<char>>,
) -> Seq<(Seq<char>, JsonView)> {
    seq![
        ("dir"@, JsonView::Text(dir)),
        ("device"@, JsonView::Text(device)),
        ("batch"@, JsonView::Count(batch)),
        ("n_ffts"@, JsonView::Counts(ns)),
        ("impls"@, JsonView::Texts(names)),
        ("log"@, JsonView::Flag(true)),
    ]
}

/// The charts of a section, one for each batch.
pub open spec fn section_cards(
    dir: Seq<char>,
    device: Seq<char>,
    bs: Seq<usize>,
    ns: Seq<usize>,
    names: Seq<Seq<char>>,
) -> spec_fn(int) -> Seq<char> {
    |k: int|
        filled(
            str_views(CHART_CARD@),
            seq![
                dir,
                device,
                decimal(bs[k] as nat),
                slug_text(dir + "-"@ + device + "-b"@ + decimal(bs[k] as nat)),
                html_text(json_object_text(chart_fields(dir, device, bs[k], ns, names))),
            ],
        )
}

/// The charts of a direction, device by device.
pub open spec fn dir_charts(
    cells: Seq<CellView>,
    names: Seq<Seq<char>>,
    dir: Seq<char>,
    devices: Seq<Seq<char>>,
) -> spec_fn(int) -> Seq<char> {
    |j: int|
        {
            let ns = section_sizes(cells, dir, devices[j]);
            let bs = section_batches(cells, dir, devices[j]);
            each(bs.len(), section_cards(dir, devices[j], bs, ns, names))
        }
}

/// The charts of every direction.
pub open spec fn charts(
    cells: Seq<CellView>,
    names: Seq<Seq<char>>,
    dirs: Seq<Seq<char>>,
    devices: Seq<Seq<char>>,
) -> spec_fn(int) -> Seq<char> {
    |i: int|
        filled(str_views(DIR_GRID@), seq![dirs[i]]) + each(
            devices.len(),
            dir_charts(cells, names, dirs[i], devices),
        ) + "</div>"@
}

fn show_charts(cells: &Vec<GridCell>, names: &Vec<String>, dir: &str, device: &str) -> (r: String)
    ensures
        ({
            let v = cell_views(cells@);
            let ns = section_sizes(v, dir@, device@);
            let bs = section_batches(v, dir@, device@);
            r@ == each(bs.len(), section_cards(dir@, device@, bs, ns, texts(names@)))
        }),
{
    let (ns, bs) = axis_values(cells, dir, device);
    let mut out = String::new();
    let ghost cards = section_cards(dir@, device@, bs@, ns@, texts(names@));
    let mut k: usize = 0;
    assert(out@ =~= each(0, cards));
    while k < bs.len()
        invariant
            k <= bs.len(),
            cards == section_cards(dir@, device@, bs@, ns@, texts(names@)),
            out@ == each(k as nat, cards),
        decreases bs.len() - k,
    {
        let batch = usize_text(bs[k]);
        let mut name = dir.to_owned();
        name.push_str("-");
        name.push_str(device);
        name.push_str("-b");
        name.push_str(batch.as_str());
        let id = slug(name.as_str());
        let listed = copy_texts(names);
        let fields = vec![
            ("dir", text_value(dir)),
            ("device", text_value(device)),
            ("batch", JsonValue::Count(bs[k])),
            ("n_ffts", list_value(&ns)),
            ("impls", JsonValue::Texts(listed)),
            ("log", JsonValue::Flag(true)),
        ];
        assert(fields_view(fields@) =~= chart_fields(
            dir@,
            device@,
            bs@[k as int],
            ns@,
            texts(names@),
        ));
        let json = json_object(&fields);
        let chart = html_escape(json.as_str());
        let f = [dir, device, batch.as_str(), id.as_str(), chart.as_str()];
        assert(str_views(f@) =~= seq![dir@, device@, batch@, id@, chart@]);
        out.push_str(fill(&CHART_CARD, &f).as_str());
        k += 1;
    }
    out
}

/// Writes the charts of every direction and device.
pub fn build_chart_sections(
    cells: &Vec<GridCell>,
    names: &Vec<String>,
    dirs: &Vec<String>,
    devices: &Vec<String>,
) -> (r: String)
    ensures
        r@ == each(
            dirs@.len(),
            charts(cell_views(cells@), texts(names@), texts(dirs@), texts(devices@)),
        ),
{
    let ghost v = cell_views(cells@);
    let ghost t = texts(names@);
    let ghost ds = texts(devices@);
    let ghost all = charts(v, t, texts(dirs@), ds);
    assert(ds.len() == devices@.len());
    let mut out = String::new();
    let mut i: usize = 0;
    assert(out@ =~= each(0, all));
    while i < dirs.len()
        invariant
            i <= dirs.len(),
            v == cell_views(cells@),
            t == texts(names@),
            ds == texts(devices@),
            ds.len() == devices@.len(),
            all == charts(v, t, texts(dirs@), ds),
            out@ == each(i as nat, all),
        decreases dirs.len() - i,
    {
        let dir = dirs[i].as_str();
        let ghost before = out@;
        let f = [dir];
        assert(str_views(f@) =~= seq![dir@]);
        out.push_str(fill(&DIR_GRID, &f).as_str());
        let ghost start = out@;
        let ghost row = dir_charts(v, t, dir@, ds);
        let mut j: usize = 0;
        assert(out@ =~= start + each(0, row));
        while j < devices.len()
            invariant
                j <= devices.len(),
                v == cell_views(cells@),
                t == texts(names@),
                ds == texts(devices@),
                row == dir_charts(v, t, dir@, ds),
                out@ == start + each(j as nat, row),
            decreases devices.len() - j,
        {
            let part = show_charts(cells, names, dir, devices[j].as_str());
            out.push_str(part.as_str());
            assert(ds[j as int] == devices@[j as int]@);
            assert(out@ =~= start + each((j + 1) as nat, row));
            j += 1;
        }
        out.push_str("</div>");
        assert(texts(dirs@)[i as int] == dir@);
        assert(out@ =~= each((i + 1) as nat, all));
        i += 1;
    }
    out
}

// ---------------------------------------------------------------------------
// Tables
// ---------------------------------------------------------------------------

pub const TABLE_HEAD: &'static str = "<table><thead><tr><th class=\"left\">impl \\ n_fft</th>";

pub const TABLE_SIZES: &'static str = "</tr><tr><th class=\"left\"></th>";

pub const IMPL_OPEN: [&'static str; 2] = ["<tr><td class=\"left\">", "</td>"];

/// The first markup of each implementation's row.
pub open spec fn impl_openings(names: Seq<Seq<char>>) -> Seq<Seq<char>> {
    names.map_values(|s: Seq<char>| filled(str_views(IMPL_OPEN@), seq![s]))
}

/// The tables of a direction.
pub open spec fn dir_tables(
    cells: Seq<CellView>,
    shades: Seq<ShadeView>,
    names: Seq<Seq<char>>,
    dir: Seq<char>,
    devices: Seq<Seq<char>>,
) -> spec_fn(int) -> Seq<char> {
    |j: int|
        filled(str_views(SECTION_HEAD@), seq![dir, devices[j]]) + section_table(
            cells,
            shades,
            dir,
            devices[j],
            names,
            impl_openings(names),
            (TABLE_HEAD@, TABLE_SIZES@),
        )
}

/// The tables of every direction.
pub open spec fn tables(
    cells: Seq<CellView>,
    shades: Seq<ShadeView>,
    names: Seq<Seq<char>>,
    dirs: Seq<Seq<char>>,
    devices: Seq<Seq<char>>,
) -> spec_fn(int) -> Seq<char> {
    |i: int| each(devices.len(), dir_tables(cells, shades, names, dirs[i], devices))
}

/// Writes the tables of every direction and device.
pub fn build_table_sections(
    cells: &Vec<GridCell>,
    shades: &Vec<Shade>,
    names: &Vec<String>,
    dirs: &Vec<String>,
    devices: &Vec<String>,
) -> (r: String)
    requires
        shades.len() == cells.len(),
    ensures
        r@ == each(
            dirs@.len(),
            tables(
                cell_views(cells@),
                shade_views(shades@),
                texts(names@),
                texts(dirs@),
                texts(devices@),
            ),
        ),
{
    let ghost v = cell_views(cells@);
    let ghost s = shade_views(shades@);
    let ghost t = texts(names@);
    let ghost ds = texts(devices@);
    assert(ds.len() == devices@.len());
    let ghost model = impl_openings(t);
    let mut openings: Vec<String> = Vec::new();
    let mut i: usize = 0;
    while i < names.len()
        invariant
            i <= names.len(),
            t == texts(names@),
            model == impl_openings(t),
            openings.len() == i,
            forall|k: int| 0 <= k < i ==> (#[trigger] openings@[k])@ == model[k],
        decreases names.len() - i,
    {
        let f = [names[i].as_str()];
        assert(str_views(f@) =~= seq![names@[i as int]@]);
        openings.push(fill(&IMPL_OPEN, &f));
        assert(t[i as int] == names@[i as int]@);
        i += 1;
    }
    assert(texts(openings@) =~= model);
    let ghost all = tables(v, s, t, texts(dirs@), ds);
    let mut out = String::new();
    let mut i: usize = 0;
    assert(out@ =~= each(0, all));
    while i < dirs.len()
        invariant
            i <= dirs.len(),
            v == cell_views(cells@),
            s == shade_views(shades@),
            shades.len() == cells.len(),
            openings.len() == names.len(),
            t == texts(names@),
            ds == texts(devices@),
            ds.len() == devices@.len(),
            texts(openings@) == impl_openings(t),
            all == tables(v, s, t, texts(dirs@), ds),
            out@ == each(i as nat, all),
        decreases dirs.len() - i,
    {
        let dir = dirs[i].as_str();
        let ghost before = out@;
        let ghost row = dir_tables(v, s, t, dir@, ds);
        let mut j: usize = 0;
        assert(out@ =~= before + each(0, row));
        while j < devices.len()
            invariant
                j <= devices.len(),
                v == cell_views(cells@),
                s == shade_views(shades@),
                shades.len() == cells.len(),
                openings.len() == names.len(),
                t == texts(names@),
                ds == texts(devices@),
                texts(openings@) == impl_openings(t),
                row == dir_tables(v, s, t, dir@, ds),
                out@ == before + each(j as nat, row),
            decreases devices.len() - j,
        {
            let device = devices[j].as_str();
            let f = [dir, device];
            assert(str_views(f@) =~= seq![dir@, device@]);
            out.push_str(fill(&SECTION_HEAD, &f).as_str());
            let table = show_section(
                cells,
                shades,
                dir,
                device,
                names,
                &openings,
                (TABLE_HEAD, TABLE_SIZES),
            );
            out.push_str(table.as_str());
            assert(ds[j as int] == device@);
            assert(out@ =~= before + each((j + 1) as nat, row));
            j += 1;
        }
        assert(texts(dirs@)[i as int] == dir@);
        i += 1;
    }
    out
}

// ---------------------------------------------------------------------------
// Page
// ---------------------------------------------------------------------------

/// What shades each row of a sweep in the tables of its page.
pub fn shading_facts(report: &SweepReport) -> (r: Vec<CellFacts>)
    ensures
        r.len() == report.rows.len(),
        forall|i: int|
            0 <= i < r.len() ==> (#[trigger] r@[i]) == facts_of(
                cells_of(sweep_views(report.rows@)),
                implementations(report.with_butterfly_compiled),
                cell_of(report.rows@[i]@),
            ),
{
    let cells = grid_of(&report.rows);
    let names = impl_labels(report.with_butterfly_compiled);
    let r = cell_facts(&cells, &names);
    assert(cell_views(cells@).len() == report.rows.len());
    proof {
        assert forall|i: int| 0 <= i < r.len() implies (#[trigger] r@[i]) == facts_of(
            cells_of(sweep_views(report.rows@)),
            implementations(report.with_butterfly_compiled),
            cell_of(report.rows@[i]@),
        ) by {
            assert(cell_views(cells@)[i] == cell_of(report.rows@[i]@));
        }
    }
    r
}

/// What a page is given besides its sweep: the time, the sweep as JSON and its duration in
/// milliseconds without decimals, and the shades of the rows.
#[derive(Clone, Debug)]
pub struct SweepPage {
    pub generated: String,
    pub json: String,
    pub elapsed: String,
    pub shades: Vec<Shade>,
}

/// Where the weights of a sweep came from.
pub open spec fn weights_text(weights: Option<Seq<char>>) -> Seq<char> {
    match weights {
        Some(w) => w,
        None => "exact twiddles"@,
    }
}

/// The page of a sweep.
pub open spec fn sweep_page(report: SweepReport, page: SweepPage) -> Seq<char> {
    let cells = cells_of(sweep_views(report.rows@));
    let names = implementations(report.with_butterfly_compiled);
    let dirs = arranged::<String>(dirs_of(cells));
    let devices = arranged::<String>(devices_of(cells));
    filled(
        str_views(SWEEP_PAGE@),
        seq![
            page.generated@,
            decimal(report.iters as nat),
            bool_text(report.with_butterfly_compiled),
            html_text(weights_text(note_view(report.weights))),
            page.elapsed@,
            joined(legend_items(IMPL_COLORS@, names, "#999"@), "\n"@),
            each(dirs.len(), heatmaps(cells, names, dirs, devices)),
            each(dirs.len(), charts(cells, names, dirs, devices)),
            each(dirs.len(), tables(cells, shade_views(page.shades@), names, dirs, devices)),
            html_text(joined(devices, ", "@)),
            html_text(joined(dirs, ", "@)),
            page.json@,
            json_list_text(names),
            json_object_text(colour_fields(IMPL_COLORS@)),
        ],
    )
}

/// Writes the page of a sweep.
pub fn render_sweep_html(report: &SweepReport, page: &SweepPage) -> (r: String)
    requires
        page.shades.len() == report.rows.len(),
    ensures
        r@ == sweep_page(*report, *page),
{
    let cells = grid_of(&report.rows);
    assert(cell_views(cells@).len() == report.rows.len());
    let names = impl_labels(report.with_butterfly_compiled);
    let dirs = distinct_dirs(&cells);
    let devices = distinct_devices(&cells);
    let iters = usize_text(report.iters);
    let compiled = show_bool(report.with_butterfly_compiled);
    let weights = match &report.weights {
        Some(w) => html_escape(w.as_str()),
        None => html_escape("exact twiddles"),
    };
    let key = legend(&IMPL_COLORS, &names, "#999");
    let heatmap_sections = build_plotly_sections(&cells, &names, &dirs, &devices);
    let chart_sections = build_chart_sections(&cells, &names, &dirs, &devices);
    let table_sections = build_table_sections(&cells, &page.shades, &names, &dirs, &devices);
    let device_list = html_escape(join_texts(&devices, ", ").as_str());
    let dir_list = html_escape(join_texts(&dirs, ", ").as_str());
    let names_json = json_list(&names);
    let colors = colours_json(&IMPL_COLORS);
    let f = [
        page.generated.as_str(),
        iters.as_str(),
        compiled,
        weights.as_str(),
        page.elapsed.as_str(),
        key.as_str(),
        heatmap_sections.as_str(),
        chart_sections.as_str(),
        table_sections.as_str(),
        device_list.as_str(),
        dir_list.as_str(),
        page.json.as_str(),
        names_json.as_str(),
        colors.as_str(),
    ];
    assert(texts(dirs@).len() == dirs@.len());
    assert(str_views(f@) =~= seq![
        page.generated@,
        iters@,
        compiled@,
        weights@,
        page.elapsed@,
        key@,
        heatmap_sections@,
        chart_sections@,
        table_sections@,
        device_list@,
        dir_list@,
        page.json@,
        names_json@,
        colors@,
    ]);
    fill(&SWEEP_PAGE, &f)
}

} // verus!

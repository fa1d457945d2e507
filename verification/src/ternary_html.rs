//! Reports on ternary ablations: CSV, terminal text and a page.

use crate::ablation_csv::{bool_text, show_bool};
use crate::ablation_ternary::{
    behind, frontier, ratio_debug, ratio_view, recommendation, show_ratio, ternary_pareto_frontier,
    ternary_views, Ratio, RatioView, TernaryAblationRow, TernaryParetoPoint, TernaryRowView,
};
use crate::figure::Figure;
use crate::html::str_views;
use crate::order::{arranged, arranged_is, models, sorted_distinct, distinct_texts, Ranked};
use crate::pages::{each, fill, filled, TERNARY_PAGE};
use crate::text::{copy_text, concat, decimal, texts, usize_text};
use vstd::prelude::*;

verus! {

/// An ablation of ternary architectures: how it was run and what it measured.
#[derive(Clone, Debug)]
pub struct TernaryAblationReport {
    pub quick: bool,
    pub iters: usize,
    pub teacher_steps: usize,
    pub distill_steps: usize,
    pub ternary_steps: usize,
    pub n_ffts: Vec<usize>,
    pub batches: Vec<usize>,
    pub prune_targets: Vec<Ratio>,
    pub elapsed_ms: Figure,
    pub rows: Vec<TernaryAblationRow>,
}

// ---------------------------------------------------------------------------
// CSV
// ---------------------------------------------------------------------------

pub const TERNARY_HEADER: &'static str = "variant,pipeline,exec,n_fft,batch,device,iters,ms,max_err,norm_err,compute_fraction,skip_gates,prune_target,status\n";

pub const TERNARY_LINE: [&'static str; 15] = [
    "",
    ",",
    ",",
    ",",
    ",",
    ",",
    ",",
    ",",
    ",",
    ",",
    ",",
    ",",
    ",",
    ",",
    "\n",
];

/// The share of computed butterflies with four decimals, or a dash.
pub open spec fn fraction_text(r: Option<RatioView>) -> Seq<char> {
    match r {
        Some(v) => v.fixed4,
        None => "-"@,
    }
}

/// A pruning target with three decimals, or a dash.
pub open spec fn target_text(r: Option<RatioView>) -> Seq<char> {
    match r {
        Some(v) => v.fixed3,
        None => "-"@,
    }
}

/// A count, or a dash.
pub open spec fn count_text(n: Option<usize>) -> Seq<char> {
    match n {
        Some(v) => decimal(v as nat),
        None => "-"@,
    }
}

/// The lines of some rows.
pub open spec fn ternary_lines(rows: Seq<TernaryRowView>) -> spec_fn(int) -> Seq<char> {
    |i: int|
        filled(
            str_views(TERNARY_LINE@),
            seq![
                rows[i].variant,
                rows[i].pipeline,
                rows[i].mode,
                decimal(rows[i].n_fft as nat),
                decimal(rows[i].batch as nat),
                rows[i].device,
                decimal(rows[i].iters as nat),
                rows[i].ms.fixed6,
                rows[i].max_err.sci6,
                rows[i].norm_err.sci6,
                fraction_text(rows[i].compute_fraction),
                count_text(rows[i].skip_gates),
                target_text(rows[i].prune_target),
                rows[i].status,
            ],
        )
}

/// Writes the rows as CSV.
pub fn ternary_csv_text(rows: &Vec<TernaryAblationRow>) -> (r: String)
    ensures
        r@ == TERNARY_HEADER@ + each(rows@.len(), ternary_lines(ternary_views(rows@))),
{
    let ghost v = ternary_views(rows@);
    let mut out = TERNARY_HEADER.to_owned();
    let mut i: usize = 0;
    assert(out@ =~= TERNARY_HEADER@ + each(0, ternary_lines(v)));
    while i < rows.len()
        invariant
            i <= rows.len(),
            v == ternary_views(rows@),
            out@ == TERNARY_HEADER@ + each(i as nat, ternary_lines(v)),
        decreases rows.len() - i,
    {
        let row = &rows[i];
        assert(v[i as int] == row@);
        let n = usize_text(row.n_fft);
        let b = usize_text(row.batch);
        let iters = usize_text(row.iters);
        let fraction = match &row.compute_fraction {
            Some(x) => x.fixed4.as_str(),
            None => "-",
        };
        let skips = match row.skip_gates {
            Some(x) => usize_text(x),
            None => "-".to_owned(),
        };
        let target = match &row.prune_target {
            Some(x) => x.fixed3.as_str(),
            None => "-",
        };
        let f = [
            row.variant.as_str(),
            row.pipeline.as_str(),
            row.mode.as_str(),
            n.as_str(),
            b.as_str(),
            row.device.as_str(),
            iters.as_str(),
            row.ms.fixed6.as_str(),
            row.max_err.sci6.as_str(),
            row.norm_err.sci6.as_str(),
            fraction,
            skips.as_str(),
            target,
            row.status.as_str(),
        ];
        assert(str_views(f@) =~= seq![
            row@.variant,
            row@.pipeline,
            row@.mode,
            n@,
            b@,
            row@.device,
            iters@,
            row@.ms.fixed6,
            row@.max_err.sci6,
            row@.norm_err.sci6,
            fraction@,
            skips@,
            target@,
            row@.status,
        ]);
        out.push_str(fill(&TERNARY_LINE, &f).as_str());
        assert(out@ =~= TERNARY_HEADER@ + each((i + 1) as nat, ternary_lines(v)));
        i += 1;
    }
    out
}

// ---------------------------------------------------------------------------
// Configurations
// ---------------------------------------------------------------------------

pub type ConfigKey = (usize, (usize, String));

/// The size, batch and device of each row.
pub open spec fn configs_of(rows: Seq<TernaryRowView>) -> Seq<(usize, (usize, Seq<char>))> {
    rows.map_values(|r: TernaryRowView| (r.n_fft, (r.batch, r.device)))
}

/// The sizes, batches and devices of some rows, in ascending order, each once.
pub fn distinct_configs(rows: &Vec<TernaryAblationRow>) -> (r: Vec<ConfigKey>)
    ensures
        models(r@) == arranged::<ConfigKey>(configs_of(ternary_views(rows@))),
{
    let ghost v = ternary_views(rows@);
    let mut keys: Vec<ConfigKey> = Vec::new();
    let mut i: usize = 0;
    while i < rows.len()
        invariant
            i <= rows.len(),
            v == ternary_views(rows@),
            keys.len() == i,
            forall|k: int| 0 <= k < i ==> models(keys@)[k] == configs_of(v)[k],
        decreases rows.len() - i,
    {
        let key = (rows[i].n_fft, (rows[i].batch, copy_text(&rows[i].device)));
        let ghost before = models(keys@);
        let ghost m = key.model();
        assert(v[i as int] == rows@[i as int]@);
        assert(m == configs_of(v)[i as int]);
        keys.push(key);
        assert(models(keys@) =~= before.push(m));
        i += 1;
    }
    assert(models(keys@) =~= configs_of(v));
    let r = sorted_distinct(keys);
    proof {
        arranged_is::<ConfigKey>(configs_of(v), models(r@));
    }
    r
}

/// The devices of some rows.
pub open spec fn ternary_devices(rows: Seq<TernaryRowView>) -> Seq<Seq<char>> {
    rows.map_values(|r: TernaryRowView| r.device)
}

/// The devices of some rows, in dictionary order, each once.
pub fn distinct_ternary_devices(rows: &Vec<TernaryAblationRow>) -> (r: Vec<String>)
    ensures
        texts(r@) == arranged::<String>(ternary_devices(ternary_views(rows@))),
{
    let mut out: Vec<String> = Vec::new();
    let mut i: usize = 0;
    while i < rows.len()
        invariant
            i <= rows.len(),
            out.len() == i,
            forall|k: int| 0 <= k < i ==> (#[trigger] out@[k])@ == rows@[k].device@,
        decreases rows.len() - i,
    {
        out.push(copy_text(&rows[i].device));
        i += 1;
    }
    assert(texts(out@) =~= ternary_devices(ternary_views(rows@)));
    let r = distinct_texts(out);
    proof {
        arranged_is::<String>(ternary_devices(ternary_views(rows@)), texts(r@));
    }
    r
}

/// A configuration and the points of its groups.
#[derive(Clone, Debug)]
pub struct TernarySection {
    pub n_fft: usize,
    pub batch: usize,
    pub device: String,
    pub points: Vec<TernaryParetoPoint>,
}

// ---------------------------------------------------------------------------
// Page
// ---------------------------------------------------------------------------

pub const SECTION_OPEN: [&'static str; 5] = [
    "<section class=\"card\"><h2>n_fft=",
    " batch=",
    " device=",
    "</h2>\n<p><strong>Pareto pick:</strong> ",
    "</p>\n<table><thead><tr><th>variant</th><th>exec</th><th>prune</th><th>mean ms</th><th>mel</th><th>denoise</th><th>q8</th><th>welch</th><th>compute</th></tr></thead><tbody>",
];

pub const POINT_ROW: [&'static str; 10] = [
    "<tr><td>",
    "</td><td>",
    "</td><td>",
    "</td><td>",
    "</td><td>",
    "</td><td>",
    "</td><td>",
    "</td><td>",
    "</td><td>",
    "</td></tr>",
];

/// The fields of a point in a report.
pub open spec fn point_fields(p: TernaryParetoPoint) -> Seq<Seq<char>> {
    seq![
        p.variant@,
        p.mode@,
        ratio_debug(ratio_view(p.prune_target)),
        p.mean_ms.fixed4@,
        p.mel_norm.sci2@,
        p.denoise_norm.sci2@,
        p.q8_norm.sci2@,
        p.welch_norm.sci2@,
        ratio_debug(ratio_view(p.compute_fraction)),
    ]
}

/// The rows of some points.
pub open spec fn point_rows(parts: Seq<Seq<char>>, front: Seq<TernaryParetoPoint>) -> spec_fn(
    int,
) -> Seq<char> {
    |i: int| filled(parts, point_fields(front[i]))
}

fn show_points(parts: &[&str], front: &Vec<&TernaryParetoPoint>, count: usize) -> (r: String)
    requires
        parts@.len() == 10,
        count <= front.len(),
    ensures
        r@ == each(count as nat, point_rows(str_views(parts@), behind(front@))),
{
    let ghost rows = point_rows(str_views(parts@), behind(front@));
    let mut out = String::new();
    let mut i: usize = 0;
    assert(out@ =~= each(0, rows));
    while i < count
        invariant
            i <= count <= front.len(),
            parts@.len() == 10,
            rows == point_rows(str_views(parts@), behind(front@)),
            out@ == each(i as nat, rows),
        decreases count - i,
    {
        let p = front[i];
        assert(behind(front@)[i as int] == *p);
        let target = show_ratio(&p.prune_target);
        let fraction = show_ratio(&p.compute_fraction);
        let f = [
            p.variant.as_str(),
            p.mode.as_str(),
            target.as_str(),
            p.mean_ms.fixed4.as_str(),
            p.mel_norm.sci2.as_str(),
            p.denoise_norm.sci2.as_str(),
            p.q8_norm.sci2.as_str(),
            p.welch_norm.sci2.as_str(),
            fraction.as_str(),
        ];
        assert(str_views(f@) =~= point_fields(*p));
        out.push_str(fill(parts, &f).as_str());
        i += 1;
    }
    out
}

/// The recommendation of a frontier.
pub open spec fn pick_text(front: Seq<TernaryParetoPoint>, other: Seq<char>) -> Seq<char> {
    if front.len() > 0 {
        recommendation(front[0])
    } else {
        other
    }
}

fn show_pick(front: &Vec<&TernaryParetoPoint>) -> (r: String)
    requires
        front.len() > 0,
    ensures
        r@ == recommendation(*front@[0]),
{
    let p = front[0];
    let mut out = copy_text(&p.variant);
    out.push_str("@");
    out.push_str(p.mode.as_str());
    out.push_str(" prune=");
    out.push_str(show_ratio(&p.prune_target).as_str());
    out.push_str(" (mean_ms=");
    out.push_str(p.mean_ms.fixed4.as_str());
    out.push_str(" max_norm=");
    out.push_str(p.max_norm_err.sci3.as_str());
    out.push_str(")");
    out
}

/// The section of a configuration with a frontier.
pub open spec fn section_markup(s: TernarySection, front: Seq<TernaryParetoPoint>) -> Seq<char> {
    filled(
        str_views(SECTION_OPEN@),
        seq![
            decimal(s.n_fft as nat),
            decimal(s.batch as nat),
            s.device@,
            pick_text(front, "n/a"@),
        ],
    ) + each(front.len(), point_rows(str_views(POINT_ROW@), front))
        + "</tbody></table></section>"@
}

/// Whether a text is the section of a configuration.
pub open spec fn is_section(s: TernarySection, text: Seq<char>) -> bool {
    exists|front: Seq<TernaryParetoPoint>| #[trigger]
        frontier(s.points@, front) && text == section_markup(s, front)
}

/// Writes the section of a configuration.
pub fn build_ternary_section(s: &TernarySection) -> (r: String)
    ensures
        is_section(*s, r@),
{
    let front = ternary_pareto_frontier(&s.points);
    let ghost fv = behind(front@);
    assert(fv.len() == front@.len());
    let pick = if front.len() > 0 {
        assert(fv[0] == *front@[0]);
        show_pick(&front)
    } else {
        "n/a".to_owned()
    };
    let n = usize_text(s.n_fft);
    let b = usize_text(s.batch);
    let f = [n.as_str(), b.as_str(), s.device.as_str(), pick.as_str()];
    assert(str_views(f@) =~= seq![n@, b@, s.device@, pick@]);
    let mut out = fill(&SECTION_OPEN, &f);
    let rows = show_points(&POINT_ROW, &front, front.len());
    out.push_str(rows.as_str());
    out.push_str("</tbody></table></section>");
    assert(frontier(s.points@, fv));
    assert(out@ == section_markup(*s, fv));
    out
}

pub const TRACE: [&'static str; 8] = [
    "{x:[",
    "],y:[",
    "],mode:'markers',name:'",
    " ",
    " ",
    "',text:['",
    "@",
    "']},",
];

/// The traces of some points.
pub open spec fn traces(points: Seq<TernaryParetoPoint>) -> spec_fn(int) -> Seq<char> {
    |i: int|
        filled(
            str_views(TRACE@),
            seq![
                points[i].mean_ms.fixed4@,
                points[i].max_norm_err.sci4@,
                points[i].variant@,
                points[i].mode@,
                ratio_debug(ratio_view(points[i].prune_target)),
                points[i].variant@,
                points[i].mode@,
            ],
        )
}

/// The traces of some configurations.
pub open spec fn all_traces(sections: Seq<TernarySection>) -> spec_fn(int) -> Seq<char> {
    |k: int| each(sections[k].points@.len(), traces(sections[k].points@))
}

fn show_traces(points: &Vec<TernaryParetoPoint>) -> (r: String)
    ensures
        r@ == each(points@.len(), traces(points@)),
{
    let mut out = String::new();
    let mut i: usize = 0;
    assert(out@ =~= each(0, traces(points@)));
    while i < points.len()
        invariant
            i <= points.len(),
            out@ == each(i as nat, traces(points@)),
        decreases points.len() - i,
    {
        let p = &points[i];
        let target = show_ratio(&p.prune_target);
        let f = [
            p.mean_ms.fixed4.as_str(),
            p.max_norm_err.sci4.as_str(),
            p.variant.as_str(),
            p.mode.as_str(),
            target.as_str(),
            p.variant.as_str(),
            p.mode.as_str(),
        ];
        assert(str_views(f@) =~= seq![
            p.mean_ms.fixed4@,
            p.max_norm_err.sci4@,
            p.variant@,
            p.mode@,
            target@,
            p.variant@,
            p.mode@,
        ]);
        out.push_str(fill(&TRACE, &f).as_str());
        i += 1;
    }
    out
}

/// What a page is given besides its report: the report as JSON, and its devices as a list.
#[derive(Clone, Debug)]
pub struct TernaryPage {
    pub json: String,
    pub devices: String,
}

/// The page of a report with some sections.
pub open spec fn ternary_page(
    report: TernaryAblationReport,
    page: TernaryPage,
    sections: Seq<TernarySection>,
    markup: Seq<char>,
) -> Seq<char> {
    filled(
        str_views(TERNARY_PAGE@),
        seq![
            bool_text(report.quick),
            report.elapsed_ms.fixed1@,
            page.devices@,
            "pareto-scatter"@,
            markup,
            each(sections.len(), all_traces(sections)),
            "pareto-scatter"@,
            page.json@,
        ],
    )
}

/// Whether some texts are the sections of some configurations.
pub open spec fn are_sections(sections: Seq<TernarySection>, parts: Seq<Seq<char>>) -> bool {
    parts.len() == sections.len() && forall|k: int|
        0 <= k < parts.len() ==> is_section(sections[k], #[trigger] parts[k])
}

/// Writes the page of a report: `sections` are its configurations with their points.
pub fn render_ternary_ablation_html(
    report: &TernaryAblationReport,
    sections: &Vec<TernarySection>,
    page: &TernaryPage,
) -> (r: String)
    ensures
        exists|parts: Seq<Seq<char>>| #[trigger]
            are_sections(sections@, parts) && r@ == ternary_page(
                *report,
                *page,
                sections@,
                concat(parts),
            ),
{
    let ghost mut parts: Seq<Seq<char>> = Seq::empty();
    let mut markup = String::new();
    let mut scatter = String::new();
    let mut i: usize = 0;
    assert(markup@ =~= concat(parts));
    assert(scatter@ =~= each(0, all_traces(sections@)));
    while i < sections.len()
        invariant
            i <= sections.len(),
            parts.len() == i,
            forall|k: int| 0 <= k < i ==> is_section(sections@[k], #[trigger] parts[k]),
            markup@ == concat(parts),
            scatter@ == each(i as nat, all_traces(sections@)),
        decreases sections.len() - i,
    {
        let part = build_ternary_section(&sections[i]);
        markup.push_str(part.as_str());
        proof {
            let grown = parts.push(part@);
            assert(grown.drop_last() =~= parts);
            parts = grown;
        }
        let dots = show_traces(&sections[i].points);
        scatter.push_str(dots.as_str());
        i += 1;
    }
    let quick = show_bool(report.quick);
    let f = [
        quick,
        report.elapsed_ms.fixed1.as_str(),
        page.devices.as_str(),
        "pareto-scatter",
        markup.as_str(),
        scatter.as_str(),
        "pareto-scatter",
        page.json.as_str(),
    ];
    assert(str_views(f@) =~= seq![
        quick@,
        report.elapsed_ms.fixed1@,
        page.devices@,
        "pareto-scatter"@,
        markup@,
        scatter@,
        "pareto-scatter"@,
        page.json@,
    ]);
    let r = fill(&TERNARY_PAGE, &f);
    assert(are_sections(sections@, parts));
    r
}

// ---------------------------------------------------------------------------
// Terminal
// ---------------------------------------------------------------------------

pub const TERMINAL_HEAD: [&'static str; 4] = ["--- n_fft=", " batch=", " device=", " ---\n"];

pub const TERMINAL_PICK: [&'static str; 2] = ["  Pareto pick: ", "\n"];

pub const TERMINAL_FRONT: [&'static str; 2] = ["  Frontier (", "):\n"];

pub const TERMINAL_ROW: [&'static str; 10] = [
    "    ",
    " ",
    " prune=",
    " ms=",
    " mel=",
    " den=",
    " q8=",
    " welch=",
    " compute=",
    "\n",
];

/// A configuration with a frontier, for a terminal: at most eight points.
pub open spec fn terminal_text(s: TernarySection, front: Seq<TernaryParetoPoint>) -> Seq<char> {
    filled(
        str_views(TERMINAL_HEAD@),
        seq![decimal(s.n_fft as nat), decimal(s.batch as nat), s.device@],
    ) + (if front.len() > 0 {
        filled(str_views(TERMINAL_PICK@), seq![recommendation(front[0])])
    } else {
        Seq::empty()
    }) + filled(str_views(TERMINAL_FRONT@), seq![decimal(front.len())]) + each(
        if front.len() < 8 {
            front.len()
        } else {
            8
        },
        point_rows(str_views(TERMINAL_ROW@), front),
    ) + "\n"@
}

/// Writes a configuration for a terminal.
pub fn ternary_terminal_section(s: &TernarySection) -> (r: String)
    ensures
        exists|front: Seq<TernaryParetoPoint>| #[trigger]
            frontier(s.points@, front) && r@ == terminal_text(*s, front),
{
    let front = ternary_pareto_frontier(&s.points);
    let ghost fv = behind(front@);
    assert(fv.len() == front@.len());
    let n = usize_text(s.n_fft);
    let b = usize_text(s.batch);
    let f = [n.as_str(), b.as_str(), s.device.as_str()];
    assert(str_views(f@) =~= seq![n@, b@, s.device@]);
    let mut out = fill(&TERMINAL_HEAD, &f);
    let ghost start = out@;
    if front.len() > 0 {
        assert(fv[0] == *front@[0]);
        let pick = show_pick(&front);
        let f = [pick.as_str()];
        assert(str_views(f@) =~= seq![pick@]);
        out.push_str(fill(&TERMINAL_PICK, &f).as_str());
    } else {
        assert(out@ =~= start + Seq::empty());
    }
    let len: usize = front.len();
    let count = usize_text(len);
    let f = [count.as_str()];
    assert(str_views(f@) =~= seq![count@]);
    out.push_str(fill(&TERMINAL_FRONT, &f).as_str());
    let shown: usize = if len < 8 {
        len
    } else {
        8
    };
    let rows = show_points(&TERMINAL_ROW, &front, shown);
    out.push_str(rows.as_str());
    out.push_str("\n");
    assert(frontier(s.points@, fv));
    assert(out@ == terminal_text(*s, fv));
    out
}

} // verus!

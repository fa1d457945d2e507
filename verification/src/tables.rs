//! Tables for a terminal.

use crate::ablation::{
    cell, cell_key, cells, err_rank, err_rank_of, row_views, same_cell, AblationReport, AblationRow,
    CellKey, RowView,
};
use crate::ablation_csv::{bool_text, show_bool};
use crate::e2e_bench::{
    distinct_pipelines, e2e_views, pipelines_of, E2eBenchReport, E2eBenchRow, E2eRowView, GateStatus,
};
use crate::figure::{Figure, FigureView};
use crate::html::str_views;
use crate::order::{arranged, arranged_is, models, sorted_distinct, Ranked};
use crate::pages::{each, fill, filled};
use crate::text::{
    align_left, align_right, decimal, left_aligned, right_aligned, same_text, texts,
    usize_text,
};
use vstd::prelude::*;

verus! {

// ---------------------------------------------------------------------------
// Fastest first
// ---------------------------------------------------------------------------

/// The second parts of some pairs.
pub open spec fn seconds(v: Seq<(i64, usize)>) -> Seq<usize> {
    v.map_values(|p: (i64, usize)| p.1)
}

/// Places from the lowest rank to the highest, ties in their first order.
pub open spec fn by_rank(v: Seq<(i64, usize)>) -> Seq<usize> {
    seconds(arranged::<(i64, usize)>(v))
}

/// Whether a place belongs to one of some pairs.
spec fn is_second(v: Seq<(i64, usize)>, p: usize) -> bool {
    exists|j: int| 0 <= j < v.len() && (#[trigger] v[j]).1 == p
}

fn sort_by_rank(pairs: Vec<(i64, usize)>) -> (r: Vec<usize>)
    ensures
        r@ == by_rank(pairs@),
        forall|k: int| 0 <= k < r@.len() ==> is_second(pairs@, #[trigger] r@[k]),
{
    let ghost given = pairs@;
    assert(models(given) =~= given);
    let sorted = sorted_distinct(pairs);
    assert(models(sorted@) =~= sorted@);
    proof {
        arranged_is::<(i64, usize)>(given, sorted@);
    }
    let mut out: Vec<usize> = Vec::new();
    let mut i: usize = 0;
    while i < sorted.len()
        invariant
            i <= sorted.len(),
            out@.len() == i,
            forall|k: int| 0 <= k < i ==> #[trigger] out@[k] == sorted@[k].1,
        decreases sorted.len() - i,
    {
        let pair: (i64, usize) = sorted[i];
        out.push(pair.1);
        i += 1;
    }
    assert(out@ =~= by_rank(given));
    proof {
        assert forall|k: int| 0 <= k < out@.len() implies is_second(given, #[trigger] out@[k]) by {
            assert(sorted@.to_set().contains(sorted@[k]));
            assert(given.to_set().contains(sorted@[k]));
            let j = choose|j: int| 0 <= j < given.len() && given[j] == sorted@[k];
            assert(given[j].1 == out@[k]);
        }
    }
    out
}

// ---------------------------------------------------------------------------
// Ablation
// ---------------------------------------------------------------------------

pub const ABLATION_HEAD: [&'static str; 5] = [
    "\n=== FFT variant ablation (iters=",
    ", train_steps=",
    ", both_dirs=",
    ", with_welch=",
    ") ===\n\n",
];

pub const ABLATION_CELL: [&'static str; 5] = [
    "--- ",
    " n_fft=",
    " batch=",
    " device=",
    " ---\nvariant                    tier         ms    max_err\n",
];

pub const TABLE_LINE: [&'static str; 5] = ["", " ", " ", " ", "\n"];

pub const FASTEST: [&'static str; 3] = ["  → fastest: ", " (", " ms)\n\n"];

pub const ABLATION_END: [&'static str; 2] = ["Total ablation time: ", " ms\n\n"];

/// The rows of a cell by rank of their times.
pub open spec fn cell_ranks(rows: Seq<RowView>, c: (usize, (usize, (Seq<char>, Seq<char>)))) -> Seq<
    (i64, usize),
>
    decreases rows.len(),
{
    if rows.len() == 0 {
        Seq::empty()
    } else if cell(rows.last()) == c {
        cell_ranks(rows.drop_last(), c).push(
            (err_rank(rows.last().ms.bits) as i64, (rows.len() - 1) as usize),
        )
    } else {
        cell_ranks(rows.drop_last(), c)
    }
}

/// The line of a row.
pub open spec fn ablation_line(r: RowView) -> Seq<char> {
    filled(
        str_views(TABLE_LINE@),
        seq![
            left_aligned(r.variant, 24),
            right_aligned(r.tier, 6),
            right_aligned(r.ms.fixed4, 10),
            right_aligned(r.max_err.sci3, 10),
        ],
    )
}

/// The line of a row of a cell.
pub open spec fn ablation_lines(rows: Seq<RowView>, places: Seq<usize>) -> spec_fn(int) -> Seq<char> {
    |k: int| ablation_line(rows[places[k] as int])
}

/// What names the fastest of some rows, where there is one.
pub open spec fn fastest(name: Seq<char>, ms: FigureView) -> Seq<char> {
    filled(str_views(FASTEST@), seq![name, ms.fixed4])
}

/// A cell of the table: its rows from the fastest to the slowest, and the fastest of them.
pub open spec fn ablation_cell(
    rows: Seq<RowView>,
    c: (usize, (usize, (Seq<char>, Seq<char>))),
) -> Seq<char> {
    let places = by_rank(cell_ranks(rows, c));
    filled(
        str_views(ABLATION_CELL@),
        seq![c.1.1.1, decimal(c.0 as nat), decimal(c.1.0 as nat), c.1.1.0],
    ) + each(places.len(), ablation_lines(rows, places)) + if places.len() > 0 {
        fastest(rows[places[0] as int].variant, rows[places[0] as int].ms)
    } else {
        Seq::empty()
    }
}

/// The cells of some rows, in ascending order.
pub open spec fn ablation_cells(rows: Seq<RowView>) -> spec_fn(int) -> Seq<char> {
    let keys = arranged::<CellKey>(cells(rows));
    |k: int| ablation_cell(rows, keys[k])
}

/// The table of a study.
pub open spec fn ablation_text(report: AblationReport) -> Seq<char> {
    let rows = report.row_views();
    filled(
        str_views(ABLATION_HEAD@),
        seq![
            decimal(report.iters as nat),
            decimal(report.train_steps as nat),
            bool_text(report.both_dirs),
            bool_text(report.with_welch),
        ],
    ) + each(arranged::<CellKey>(cells(rows)).len(), ablation_cells(rows)) + filled(
        str_views(ABLATION_END@),
        seq![report.elapsed_ms@.fixed1],
    )
}

fn rank_cell(rows: &Vec<AblationRow>, key: &CellKey) -> (r: Vec<(i64, usize)>)
    ensures
        r@ == cell_ranks(row_views(rows@), key.model()),
        forall|k: int| 0 <= k < r@.len() ==> (#[trigger] r@[k]).1 < rows@.len(),
{
    let ghost v = row_views(rows@);
    let mut out: Vec<(i64, usize)> = Vec::new();
    let mut i: usize = 0;
    assert(v.take(0) =~= Seq::empty());
    while i < rows.len()
        invariant
            i <= rows.len(),
            v == row_views(rows@),
            out@ == cell_ranks(v.take(i as int), key.model()),
            forall|k: int| 0 <= k < out@.len() ==> (#[trigger] out@[k]).1 < i,
        decreases rows.len() - i,
    {
        assert(v.take(i + 1).drop_last() =~= v.take(i as int));
        assert(v.take(i + 1).last() == rows@[i as int]@);
        if same_cell(&rows[i], key) {
            out.push((err_rank_of(rows[i].ms.bits), i));
        }
        i += 1;
    }
    assert(v.take(v.len() as int) =~= v);
    out
}

fn show_fastest(name: &str, ms: &Figure) -> (r: String)
    ensures
        r@ == fastest(name@, ms@),
{
    let f = [name, ms.fixed4.as_str()];
    assert(str_views(f@) =~= seq![name@, ms@.fixed4]);
    fill(&FASTEST, &f)
}

fn show_ablation_line(row: &AblationRow) -> (r: String)
    ensures
        r@ == ablation_line(row@),
{
    let name = align_left(row.variant.as_str(), 24);
    let tier = align_right(row.tier.as_str(), 6);
    let ms = align_right(row.ms.fixed4.as_str(), 10);
    let err = align_right(row.max_err.sci3.as_str(), 10);
    let f = [name.as_str(), tier.as_str(), ms.as_str(), err.as_str()];
    assert(str_views(f@) =~= seq![name@, tier@, ms@, err@]);
    fill(&TABLE_LINE, &f)
}

fn show_ablation_cell(rows: &Vec<AblationRow>, key: &CellKey) -> (r: String)
    ensures
        r@ == ablation_cell(row_views(rows@), key.model()),
{
    let ghost v = row_views(rows@);
    let ghost c = key.model();
    let n = usize_text(key.0);
    let b = usize_text(key.1.0);
    let f = [key.1.1.1.as_str(), n.as_str(), b.as_str(), key.1.1.0.as_str()];
    assert(str_views(f@) =~= seq![c.1.1.1, n@, b@, c.1.1.0]);
    let mut out = fill(&ABLATION_CELL, &f);
    let ghost start = out@;
    let pairs = rank_cell(rows, key);
    let ghost ranked = pairs@;
    let places = sort_by_rank(pairs);
    proof {
        assert forall|k: int| 0 <= k < places@.len() implies (#[trigger] places@[k])
            < rows@.len() by {
            assert(is_second(ranked, places@[k]));
        }
    }
    let ghost lines = ablation_lines(v, places@);
    let mut i: usize = 0;
    assert(out@ =~= start + each(0, lines));
    while i < places.len()
        invariant
            i <= places.len(),
            v == row_views(rows@),
            lines == ablation_lines(v, places@),
            forall|k: int| 0 <= k < places@.len() ==> (#[trigger] places@[k]) < rows@.len(),
            out@ == start + each(i as nat, lines),
        decreases places.len() - i,
    {
        let at: usize = places[i];
        assert(v[at as int] == rows@[at as int]@);
        let line = show_ablation_line(&rows[at]);
        out.push_str(line.as_str());
        assert(out@ =~= start + each((i + 1) as nat, lines));
        i += 1;
    }
    if places.len() > 0 {
        let at: usize = places[0];
        assert(v[at as int] == rows@[at as int]@);
        let best = show_fastest(rows[at].variant.as_str(), &rows[at].ms);
        out.push_str(best.as_str());
    } else {
        assert(out@ =~= out@ + Seq::<char>::empty());
    }
    out
}

/// The table of a study: a cell for every size, batch, device and direction in ascending order, its
/// rows from the fastest to the slowest.
pub fn ablation_table(report: &AblationReport) -> (r: String)
    ensures
        r@ == ablation_text(*report),
{
    let rows = &report.rows;
    let ghost v = row_views(rows@);
    let mut all: Vec<CellKey> = Vec::new();
    let mut i: usize = 0;
    while i < rows.len()
        invariant
            i <= rows.len(),
            v == row_views(rows@),
            all@.len() == i,
            forall|k: int| 0 <= k < i ==> (#[trigger] all@[k]).model() == cells(v)[k],
        decreases rows.len() - i,
    {
        assert(v[i as int] == rows@[i as int]@);
        all.push(cell_key(&rows[i]));
        i += 1;
    }
    assert(models(all@) =~= cells(v));
    let keys = sorted_distinct(all);
    proof {
        arranged_is::<CellKey>(cells(v), models(keys@));
    }
    let iters = usize_text(report.iters);
    let steps = usize_text(report.train_steps);
    let both = show_bool(report.both_dirs);
    let welch = show_bool(report.with_welch);
    let f = [iters.as_str(), steps.as_str(), both, welch];
    assert(str_views(f@) =~= seq![iters@, steps@, both@, welch@]);
    let mut out = fill(&ABLATION_HEAD, &f);
    let ghost start = out@;
    let ghost parts = ablation_cells(v);
    let mut k: usize = 0;
    assert(out@ =~= start + each(0, parts));
    while k < keys.len()
        invariant
            k <= keys.len(),
            rows@ == report.rows@,
            v == row_views(rows@),
            parts == ablation_cells(v),
            models(keys@) == arranged::<CellKey>(cells(v)),
            out@ == start + each(k as nat, parts),
        decreases keys.len() - k,
    {
        assert(models(keys@)[k as int] == keys@[k as int].model());
        let part = show_ablation_cell(rows, &keys[k]);
        out.push_str(part.as_str());
        assert(out@ =~= start + each((k + 1) as nat, parts));
        k += 1;
    }
    assert(models(keys@).len() == keys@.len());
    let f = [report.elapsed_ms.fixed1.as_str()];
    assert(str_views(f@) =~= seq![report.elapsed_ms@.fixed1]);
    let end = fill(&ABLATION_END, &f);
    out.push_str(end.as_str());
    out
}

// ---------------------------------------------------------------------------
// Pipelines
// ---------------------------------------------------------------------------

pub const E2E_HEAD: [&'static str; 3] = [
    "\n=== E2E learned FFT validation (n_mels=",
    ", iters=",
    ") ===\n\n",
];

pub const E2E_PIPELINE: [&'static str; 2] = [
    "--- pipeline: ",
    " ---\nbackend                  ms    max_err    mean_gate\n",
];

pub const E2E_END: [&'static str; 2] = ["Total bench time: ", " ms\n\n"];

/// The rows of a pipeline by rank of their times.
pub open spec fn pipeline_ranks(rows: Seq<E2eRowView>, pipeline: Seq<char>) -> Seq<(i64, usize)>
    decreases rows.len(),
{
    if rows.len() == 0 {
        Seq::empty()
    } else if rows.last().pipeline == pipeline {
        pipeline_ranks(rows.drop_last(), pipeline).push(
            (err_rank(rows.last().ms.bits) as i64, (rows.len() - 1) as usize),
        )
    } else {
        pipeline_ranks(rows.drop_last(), pipeline)
    }
}

/// What shows the gates of a backend: a dash where it has none.
pub open spec fn gate_text(g: Option<Seq<char>>) -> Seq<char> {
    match g {
        Some(t) => t,
        None => "-"@,
    }
}

/// The line of a row.
pub open spec fn e2e_line(r: E2eRowView) -> Seq<char> {
    filled(
        str_views(TABLE_LINE@),
        seq![
            left_aligned(r.backend, 18),
            right_aligned(r.ms.fixed4, 8),
            right_aligned(r.max_err.sci3, 10),
            right_aligned(gate_text(r.mean_gate), 12),
        ],
    )
}

/// The lines of a pipeline.
pub open spec fn e2e_lines(rows: Seq<E2eRowView>, places: Seq<usize>) -> spec_fn(int) -> Seq<char> {
    |k: int| e2e_line(rows[places[k] as int])
}

/// A pipeline of the table: its rows from the fastest to the slowest, and the fastest of them.
pub open spec fn e2e_pipeline(rows: Seq<E2eRowView>, pipeline: Seq<char>) -> Seq<char> {
    let places = by_rank(pipeline_ranks(rows, pipeline));
    filled(str_views(E2E_PIPELINE@), seq![pipeline]) + each(
        places.len(),
        e2e_lines(rows, places),
    ) + if places.len() > 0 {
        fastest(rows[places[0] as int].backend, rows[places[0] as int].ms)
    } else {
        Seq::empty()
    }
}

/// The pipelines of some rows, in ascending order.
pub open spec fn e2e_pipelines(rows: Seq<E2eRowView>) -> spec_fn(int) -> Seq<char> {
    let names = arranged::<String>(pipelines_of(rows));
    |k: int| e2e_pipeline(rows, names[k])
}

/// The table of a bench.
pub open spec fn e2e_text(report: E2eBenchReport) -> Seq<char> {
    let rows = e2e_views(report.rows@);
    filled(
        str_views(E2E_HEAD@),
        seq![decimal(report.n_mels as nat), decimal(report.iters as nat)],
    ) + each(arranged::<String>(pipelines_of(rows)).len(), e2e_pipelines(rows)) + filled(
        str_views(E2E_END@),
        seq![report.elapsed_ms@.fixed1],
    )
}

fn rank_pipeline(rows: &Vec<E2eBenchRow>, pipeline: &str) -> (r: Vec<(i64, usize)>)
    ensures
        r@ == pipeline_ranks(e2e_views(rows@), pipeline@),
        forall|k: int| 0 <= k < r@.len() ==> (#[trigger] r@[k]).1 < rows@.len(),
{
    let ghost v = e2e_views(rows@);
    let mut out: Vec<(i64, usize)> = Vec::new();
    let mut i: usize = 0;
    assert(v.take(0) =~= Seq::empty());
    while i < rows.len()
        invariant
            i <= rows.len(),
            v == e2e_views(rows@),
            out@ == pipeline_ranks(v.take(i as int), pipeline@),
            forall|k: int| 0 <= k < out@.len() ==> (#[trigger] out@[k]).1 < i,
        decreases rows.len() - i,
    {
        assert(v.take(i + 1).drop_last() =~= v.take(i as int));
        assert(v.take(i + 1).last() == rows@[i as int]@);
        if same_text(rows[i].pipeline.as_str(), pipeline) {
            out.push((err_rank_of(rows[i].ms.bits), i));
        }
        i += 1;
    }
    assert(v.take(v.len() as int) =~= v);
    out
}

/// The rows of a pipeline from the fastest to the slowest, by their places; ties in their first
/// order.
pub fn pipeline_table(rows: &Vec<E2eBenchRow>, pipeline: &str) -> (r: Vec<usize>)
    ensures
        r@ == by_rank(pipeline_ranks(e2e_views(rows@), pipeline@)),
        forall|k: int| 0 <= k < r@.len() ==> (#[trigger] r@[k]) < rows@.len(),
{
    let pairs = rank_pipeline(rows, pipeline);
    let ghost ranked = pairs@;
    let places = sort_by_rank(pairs);
    proof {
        assert forall|k: int| 0 <= k < places@.len() implies (#[trigger] places@[k])
            < rows@.len() by {
            assert(is_second(ranked, places@[k]));
        }
    }
    places
}

fn show_e2e_line(row: &E2eBenchRow) -> (r: String)
    ensures
        r@ == e2e_line(row@),
{
    let name = align_left(row.backend.as_str(), 18);
    let ms = align_right(row.ms.fixed4.as_str(), 8);
    let err = align_right(row.max_err.sci3.as_str(), 10);
    let shown: &str = match &row.mean_gate {
        Some(g) => g.as_str(),
        None => "-",
    };
    assert(shown@ == gate_text(row@.mean_gate));
    let gate = align_right(shown, 12);
    let f = [name.as_str(), ms.as_str(), err.as_str(), gate.as_str()];
    assert(str_views(f@) =~= seq![name@, ms@, err@, gate@]);
    fill(&TABLE_LINE, &f)
}

fn show_e2e_pipeline(rows: &Vec<E2eBenchRow>, pipeline: &str) -> (r: String)
    ensures
        r@ == e2e_pipeline(e2e_views(rows@), pipeline@),
{
    let ghost v = e2e_views(rows@);
    let f = [pipeline];
    assert(str_views(f@) =~= seq![pipeline@]);
    let mut out = fill(&E2E_PIPELINE, &f);
    let ghost start = out@;
    let places = pipeline_table(rows, pipeline);
    let ghost lines = e2e_lines(v, places@);
    let mut i: usize = 0;
    assert(out@ =~= start + each(0, lines));
    while i < places.len()
        invariant
            i <= places.len(),
            v == e2e_views(rows@),
            lines == e2e_lines(v, places@),
            forall|k: int| 0 <= k < places@.len() ==> (#[trigger] places@[k]) < rows@.len(),
            out@ == start + each(i as nat, lines),
        decreases places.len() - i,
    {
        let at: usize = places[i];
        assert(v[at as int] == rows@[at as int]@);
        let line = show_e2e_line(&rows[at]);
        out.push_str(line.as_str());
        assert(out@ =~= start + each((i + 1) as nat, lines));
        i += 1;
    }
    if places.len() > 0 {
        let at: usize = places[0];
        assert(v[at as int] == rows@[at as int]@);
        let best = show_fastest(rows[at].backend.as_str(), &rows[at].ms);
        out.push_str(best.as_str());
    } else {
        assert(out@ =~= out@ + Seq::<char>::empty());
    }
    out
}

/// The table of a bench: the pipelines in ascending order, their rows from the fastest to the
/// slowest.
pub fn e2e_table(report: &E2eBenchReport) -> (r: String)
    ensures
        r@ == e2e_text(*report),
{
    let rows = &report.rows;
    let ghost v = e2e_views(rows@);
    let names = distinct_pipelines(rows);
    proof {
        arranged_is::<String>(pipelines_of(v), texts(names@));
    }
    let mels = usize_text(report.n_mels);
    let iters = usize_text(report.iters);
    let f = [mels.as_str(), iters.as_str()];
    assert(str_views(f@) =~= seq![mels@, iters@]);
    let mut out = fill(&E2E_HEAD, &f);
    let ghost start = out@;
    let ghost parts = e2e_pipelines(v);
    let mut k: usize = 0;
    assert(out@ =~= start + each(0, parts));
    while k < names.len()
        invariant
            k <= names.len(),
            rows@ == report.rows@,
            v == e2e_views(rows@),
            parts == e2e_pipelines(v),
            texts(names@) == arranged::<String>(pipelines_of(v)),
            out@ == start + each(k as nat, parts),
        decreases names.len() - k,
    {
        assert(texts(names@)[k as int] == names@[k as int]@);
        let part = show_e2e_pipeline(rows, names[k].as_str());
        out.push_str(part.as_str());
        assert(out@ =~= start + each((k + 1) as nat, parts));
        k += 1;
    }
    assert(texts(names@).len() == names@.len());
    let f = [report.elapsed_ms.fixed1.as_str()];
    assert(str_views(f@) =~= seq![report.elapsed_ms@.fixed1]);
    let end = fill(&E2E_END, &f);
    out.push_str(end.as_str());
    out
}

// ---------------------------------------------------------------------------
// Verdicts
// ---------------------------------------------------------------------------

pub const ROUTED_HEAD: &'static str =
    "--- mel speed gate (learned_distilled_ternary vs rustfft_ref, +5% latency) ---\n";

pub const ROUTED_LINE: [&'static str; 9] = [
    "  ",
    " batch=",
    ": rust=",
    "ms err=",
    " | ternary=",
    "ms err=",
    " compute=",
    " ",
    "\n",
];

pub const DISTILLED_HEAD: &'static str =
    "--- mel speed gate (learned_distilled vs rlx_op_fft, +5% latency, mel err ≤ 1.5× rlx) ---\n";

pub const DISTILLED_LINE: [&'static str; 8] = [
    "  ",
    " batch=",
    ": rlx=",
    "ms err=",
    " | distilled=",
    "ms err=",
    " ",
    "\n",
];

/// How a candidate fares against its baseline, by their places, and what share of butterflies it
/// runs.
#[derive(Clone, Debug)]
pub struct Verdict {
    pub device: String,
    pub batch: usize,
    pub baseline: usize,
    pub candidate: usize,
    pub compute: String,
    pub status: GateStatus,
}

/// Whether the rows that some verdicts speak of exist.
pub open spec fn verdicts_fit(v: Seq<Verdict>, n: nat) -> bool {
    forall|k: int|
        0 <= k < v.len() ==> (#[trigger] v[k]).baseline < n && v[k].candidate < n
}

/// The line of a verdict on a routed student.
pub open spec fn routed_line(rows: Seq<E2eRowView>, v: Verdict) -> Seq<char> {
    let r = rows[v.baseline as int];
    let d = rows[v.candidate as int];
    filled(
        str_views(ROUTED_LINE@),
        seq![
            v.device@,
            decimal(v.batch as nat),
            r.ms.fixed4,
            r.max_err.sci3,
            d.ms.fixed4,
            d.max_err.sci3,
            v.compute@,
            v.status.label_text(),
        ],
    )
}

/// The line of a verdict on a distilled student.
pub open spec fn distilled_line(rows: Seq<E2eRowView>, v: Verdict) -> Seq<char> {
    let r = rows[v.baseline as int];
    let d = rows[v.candidate as int];
    filled(
        str_views(DISTILLED_LINE@),
        seq![
            v.device@,
            decimal(v.batch as nat),
            r.ms.fixed4,
            r.max_err.sci3,
            d.ms.fixed4,
            d.max_err.sci3,
            v.status.label_text(),
        ],
    )
}

/// The lines of verdicts on routed or on distilled students.
pub open spec fn verdict_lines(rows: Seq<E2eRowView>, v: Seq<Verdict>, routed: bool) -> spec_fn(
    int,
) -> Seq<char> {
    |k: int|
        if routed {
            routed_line(rows, v[k])
        } else {
            distilled_line(rows, v[k])
        }
}

/// The verdicts on routed or on distilled students.
pub open spec fn verdicts_shown(rows: Seq<E2eRowView>, v: Seq<Verdict>, routed: bool) -> Seq<char> {
    (if routed {
        ROUTED_HEAD@
    } else {
        DISTILLED_HEAD@
    }) + each(v.len(), verdict_lines(rows, v, routed)) + "\n"@
}

fn show_verdict(rows: &Vec<E2eBenchRow>, v: &Verdict, routed: bool) -> (s: String)
    requires
        v.baseline < rows@.len(),
        v.candidate < rows@.len(),
    ensures
        s@ == if routed {
            routed_line(e2e_views(rows@), *v)
        } else {
            distilled_line(e2e_views(rows@), *v)
        },
{
    let r = &rows[v.baseline];
    let d = &rows[v.candidate];
    proof {
        assert(e2e_views(rows@)[v.baseline as int] == r@);
        assert(e2e_views(rows@)[v.candidate as int] == d@);
    }
    let batch = usize_text(v.batch);
    let status = v.status.label();
    if routed {
        let f = [
            v.device.as_str(),
            batch.as_str(),
            r.ms.fixed4.as_str(),
            r.max_err.sci3.as_str(),
            d.ms.fixed4.as_str(),
            d.max_err.sci3.as_str(),
            v.compute.as_str(),
            status,
        ];
        assert(str_views(f@) =~= seq![
            v.device@,
            batch@,
            r@.ms.fixed4,
            r@.max_err.sci3,
            d@.ms.fixed4,
            d@.max_err.sci3,
            v.compute@,
            status@,
        ]);
        fill(&ROUTED_LINE, &f)
    } else {
        let f = [
            v.device.as_str(),
            batch.as_str(),
            r.ms.fixed4.as_str(),
            r.max_err.sci3.as_str(),
            d.ms.fixed4.as_str(),
            d.max_err.sci3.as_str(),
            status,
        ];
        assert(str_views(f@) =~= seq![
            v.device@,
            batch@,
            r@.ms.fixed4,
            r@.max_err.sci3,
            d@.ms.fixed4,
            d@.max_err.sci3,
            status@,
        ]);
        fill(&DISTILLED_LINE, &f)
    }
}

/// Shows the verdicts on routed or on distilled students.
pub fn verdict_text(rows: &Vec<E2eBenchRow>, verdicts: &Vec<Verdict>, routed: bool) -> (r: String)
    requires
        verdicts_fit(verdicts@, rows@.len()),
    ensures
        r@ == verdicts_shown(e2e_views(rows@), verdicts@, routed),
{
    let ghost v = e2e_views(rows@);
    let head: &str = if routed {
        ROUTED_HEAD
    } else {
        DISTILLED_HEAD
    };
    let mut out: String = head.to_owned();
    let ghost lines = verdict_lines(v, verdicts@, routed);
    let mut k: usize = 0;
    assert(out@ =~= head@ + each(0, lines));
    while k < verdicts.len()
        invariant
            k <= verdicts.len(),
            verdicts_fit(verdicts@, rows@.len()),
            v == e2e_views(rows@),
            lines == verdict_lines(v, verdicts@, routed),
            out@ == head@ + each(k as nat, lines),
        decreases verdicts.len() - k,
    {
        let line = show_verdict(rows, &verdicts[k], routed);
        out.push_str(line.as_str());
        assert(out@ =~= head@ + each((k + 1) as nat, lines));
        k += 1;
    }
    out.push_str("\n");
    out
}

// ---------------------------------------------------------------------------
// Encoder and decoder
// ---------------------------------------------------------------------------

/// The measurements of an encoder with its decoder.
#[derive(Clone, Debug)]
pub struct EncDecBenchRow {
    pub label: String,
    pub encoder_ms: Figure,
    pub decoder_ms: Figure,
    pub roundtrip_ms: Figure,
    pub rustfft_ms: Figure,
    pub encoder_spectrum_max_err: Figure,
    pub decoder_time_max_err: Figure,
    pub roundtrip_max_err: Figure,
    pub roundtrip_compiled_ms: Option<Figure>,
}

pub const ENCDEC_HEAD: &'static str =
    "\nphase                enc ms     dec ms      rt ms    rust ms |    enc max    dec max     rt max\n";

pub const ENCDEC_LINE: [&'static str; 9] = ["", " ", " ", " ", " ", " | ", " ", " ", "\n"];

pub const ENCDEC_COMPILED: [&'static str; 2] = ["  └ roundtrip compiled: ", " ms\n"];

/// The lines of a row.
pub open spec fn encdec_row(r: EncDecBenchRow) -> Seq<char> {
    filled(
        str_views(ENCDEC_LINE@),
        seq![
            left_aligned(r.label@, 16),
            right_aligned(r.encoder_ms@.fixed4, 10),
            right_aligned(r.decoder_ms@.fixed4, 10),
            right_aligned(r.roundtrip_ms@.fixed4, 10),
            right_aligned(r.rustfft_ms@.fixed4, 10),
            right_aligned(r.encoder_spectrum_max_err@.sci3, 10),
            right_aligned(r.decoder_time_max_err@.sci3, 10),
            right_aligned(r.roundtrip_max_err@.sci3, 10),
        ],
    ) + match r.roundtrip_compiled_ms {
        Some(ms) => filled(str_views(ENCDEC_COMPILED@), seq![ms@.fixed4]),
        None => Seq::empty(),
    }
}

/// The lines of some rows.
pub open spec fn encdec_rows(rows: Seq<EncDecBenchRow>) -> spec_fn(int) -> Seq<char> {
    |k: int| encdec_row(rows[k])
}

fn show_encdec_row(r: &EncDecBenchRow) -> (s: String)
    ensures
        s@ == encdec_row(*r),
{
    let label = align_left(r.label.as_str(), 16);
    let enc = align_right(r.encoder_ms.fixed4.as_str(), 10);
    let dec = align_right(r.decoder_ms.fixed4.as_str(), 10);
    let both = align_right(r.roundtrip_ms.fixed4.as_str(), 10);
    let rust = align_right(r.rustfft_ms.fixed4.as_str(), 10);
    let e1 = align_right(r.encoder_spectrum_max_err.sci3.as_str(), 10);
    let e2 = align_right(r.decoder_time_max_err.sci3.as_str(), 10);
    let e3 = align_right(r.roundtrip_max_err.sci3.as_str(), 10);
    let f = [
        label.as_str(),
        enc.as_str(),
        dec.as_str(),
        both.as_str(),
        rust.as_str(),
        e1.as_str(),
        e2.as_str(),
        e3.as_str(),
    ];
    assert(str_views(f@) =~= seq![label@, enc@, dec@, both@, rust@, e1@, e2@, e3@]);
    let mut out = fill(&ENCDEC_LINE, &f);
    match &r.roundtrip_compiled_ms {
        Some(ms) => {
            let f = [ms.fixed4.as_str()];
            assert(str_views(f@) =~= seq![ms@.fixed4]);
            let more = fill(&ENCDEC_COMPILED, &f);
            out.push_str(more.as_str());
        },
        None => {
            assert(out@ =~= out@ + Seq::<char>::empty());
        },
    }
    out
}

/// The table of encoders with their decoders.
pub fn encdec_bench_table(rows: &Vec<EncDecBenchRow>) -> (r: String)
    ensures
        r@ == ENCDEC_HEAD@ + each(rows@.len(), encdec_rows(rows@)),
{
    let mut out: String = ENCDEC_HEAD.to_owned();
    let ghost parts = encdec_rows(rows@);
    let mut k: usize = 0;
    assert(out@ =~= ENCDEC_HEAD@ + each(0, parts));
    while k < rows.len()
        invariant
            k <= rows.len(),
            parts == encdec_rows(rows@),
            out@ == ENCDEC_HEAD@ + each(k as nat, parts),
        decreases rows.len() - k,
    {
        let part = show_encdec_row(&rows[k]);
        out.push_str(part.as_str());
        assert(out@ =~= ENCDEC_HEAD@ + each((k + 1) as nat, parts));
        k += 1;
    }
    out
}

} // verus!

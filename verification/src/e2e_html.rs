//! The page of an end-to-end bench: training, speed gates, charts, heatmaps and tables.

use crate::ablation_csv::{decimals, number_texts};
use crate::e2e_bench::{
    distill_view, distinct_pipelines, e2e_views, gate_pairs, lookup_row, meta_views, pair_views,
    pipelines_of, row_for, speed_gate_pairs, teacher_view, BatchMetaView, DistillView,
    E2eBatchTrainMeta, E2eBenchReport, E2eBenchRow, E2eRowView, GatePair, GateStatus, TeacherView,
};
use crate::device::holds_text;
use crate::figure::{is_less, less, Figure, FigureView};
use crate::html::{
    active, active_mark, colour, colour_of, json_counts, json_list, json_list_text, json_numbers,
    json_string, json_text, str_views,
};
use crate::order::{
    arranged, arranged_is, distinct_numbers, distinct_texts, models, stable_order, stable_order_of,
};
use crate::pages::{
    each, fill, filled, DISTILL_SECTION, E2E_PAGE, FULL_TABLE, GATE_TABLE, LINE_GROUP, LINE_PANEL,
    PER_BATCH_SECTION, PIPELINE_GROUP, PIPELINE_PANEL, RATIO_HEATMAPS, SCATTER_GROUP,
    SCATTER_PANEL, SUMMARY_CARDS,
};
use crate::text::{
    chars_of, copy_text, copy_texts, decimal, join_texts, joined, same_text, texts, usize_text,
};
use vstd::prelude::*;

verus! {

/// The colour of each backend.
pub const BACKEND_COLORS: [(&'static str, &'static str); 9] = [
    ("rustfft_ref", "#4e79a7"),
    ("rlx_op_fft", "#f28e2b"),
    ("butterfly_eager", "#59a14f"),
    ("learned_model", "#76b7b2"),
    ("learned_q8", "#b07aa1"),
    ("learned_hard", "#edc948"),
    ("learned_compiled", "#e15759"),
    ("learned_distilled", "#ff7f0e"),
    ("learned_distilled_ternary", "#bcbd22"),
];

/// The backends that charts compare, in their order.
pub const CHART_BACKENDS: [&'static str; 6] = [
    "rlx_op_fft",
    "learned_compiled",
    "learned_distilled",
    "learned_distilled_ternary",
    "learned_hard",
    "learned_model",
];

/// The colour of a backend.
pub open spec fn backend_colour(name: Seq<char>) -> Seq<char> {
    colour(BACKEND_COLORS@, name, "#8b949e"@)
}

/// The colour of a backend.
pub fn backend_color(name: &str) -> (r: &'static str)
    ensures
        r@ == backend_colour(name@),
{
    colour_of(&BACKEND_COLORS, name, "#8b949e")
}

// ---------------------------------------------------------------------------
// What a report covers
// ---------------------------------------------------------------------------

/// The devices of some rows.
pub open spec fn row_devices(rows: Seq<E2eRowView>) -> Seq<Seq<char>> {
    rows.map_values(|r: E2eRowView| r.device)
}

/// The backends of some rows.
pub open spec fn row_backends(rows: Seq<E2eRowView>) -> Seq<Seq<char>> {
    rows.map_values(|r: E2eRowView| r.backend)
}

/// The batches of some rows.
pub open spec fn row_batches(rows: Seq<E2eRowView>) -> Seq<usize> {
    rows.map_values(|r: E2eRowView| r.batch)
}

/// The devices of a report: those of its settings, or those of its rows where it names none.
pub open spec fn report_devices(report: E2eBenchReport) -> Seq<Seq<char>> {
    if report.meta.devices@.len() == 0 {
        arranged::<String>(row_devices(e2e_views(report.rows@)))
    } else {
        texts(report.meta.devices@)
    }
}

/// The batches of a report: those of its settings, or those of its rows where it names none.
pub open spec fn report_batches(report: E2eBenchReport) -> Seq<usize> {
    if report.meta.batches@.len() == 0 {
        arranged::<usize>(row_batches(e2e_views(report.rows@)))
    } else {
        report.meta.batches@
    }
}

/// The size of a report: the greater of that of its settings and that of its first row.
pub open spec fn report_size(report: E2eBenchReport) -> usize {
    if report.rows@.len() > 0 && report.rows@[0].n_fft > report.meta.n_fft {
        report.rows@[0].n_fft
    } else {
        report.meta.n_fft
    }
}

fn devices_shown(report: &E2eBenchReport) -> (r: Vec<String>)
    ensures
        texts(r@) == report_devices(*report),
{
    if report.meta.devices.len() > 0 {
        return copy_texts(&report.meta.devices);
    }
    let mut out: Vec<String> = Vec::new();
    let mut i: usize = 0;
    while i < report.rows.len()
        invariant
            i <= report.rows.len(),
            out.len() == i,
            forall|k: int| 0 <= k < i ==> (#[trigger] out@[k])@ == report.rows@[k].device@,
        decreases report.rows.len() - i,
    {
        out.push(copy_text(&report.rows[i].device));
        i += 1;
    }
    let ghost all = row_devices(e2e_views(report.rows@));
    assert(texts(out@) =~= all);
    let r = distinct_texts(out);
    proof {
        arranged_is::<String>(all, texts(r@));
    }
    r
}

fn batches_shown(report: &E2eBenchReport) -> (r: Vec<usize>)
    ensures
        r@ == report_batches(*report),
{
    if report.meta.batches.len() > 0 {
        return crate::html::copy_counts(&report.meta.batches);
    }
    let mut out: Vec<usize> = Vec::new();
    let mut i: usize = 0;
    while i < report.rows.len()
        invariant
            i <= report.rows.len(),
            out.len() == i,
            forall|k: int| 0 <= k < i ==> (#[trigger] out@[k]) == report.rows@[k].batch,
        decreases report.rows.len() - i,
    {
        out.push(report.rows[i].batch);
        i += 1;
    }
    let ghost all = row_batches(e2e_views(report.rows@));
    assert(out@ =~= all);
    let r = distinct_numbers(out);
    proof {
        arranged_is::<usize>(all, r@);
    }
    r
}

fn backends_shown(rows: &Vec<E2eBenchRow>) -> (r: Vec<String>)
    ensures
        texts(r@) == arranged::<String>(row_backends(e2e_views(rows@))),
{
    let mut out: Vec<String> = Vec::new();
    let mut i: usize = 0;
    while i < rows.len()
        invariant
            i <= rows.len(),
            out.len() == i,
            forall|k: int| 0 <= k < i ==> (#[trigger] out@[k])@ == rows@[k].backend@,
        decreases rows.len() - i,
    {
        out.push(copy_text(&rows[i].backend));
        i += 1;
    }
    let ghost all = row_backends(e2e_views(rows@));
    assert(texts(out@) =~= all);
    let r = distinct_texts(out);
    proof {
        arranged_is::<String>(all, texts(r@));
    }
    r
}

/// The first of some backends that are among others.
pub open spec fn charted(candidates: Seq<&'static str>, backends: Seq<Seq<char>>) -> Seq<Seq<char>>
    decreases candidates.len(),
{
    if candidates.len() == 0 {
        Seq::empty()
    } else {
        let head = charted(candidates.drop_last(), backends);
        if backends.contains(candidates.last()@) {
            head.push(candidates.last()@)
        } else {
            head
        }
    }
}

fn charted_backends(backends: &Vec<String>) -> (r: Vec<String>)
    ensures
        texts(r@) == charted(CHART_BACKENDS@, texts(backends@)),
{
    let all: [&'static str; 6] = CHART_BACKENDS;
    let mut out: Vec<String> = Vec::new();
    let mut i: usize = 0;
    assert(texts(out@) =~= charted(all@.take(0), texts(backends@)));
    while i < 6
        invariant
            i <= 6,
            all == CHART_BACKENDS,
            texts(out@) == charted(all@.take(i as int), texts(backends@)),
        decreases 6 - i,
    {
        let ghost before = texts(out@);
        assert(all@.take(i + 1).drop_last() =~= all@.take(i as int));
        if holds_text(backends, all[i]) {
            out.push(all[i].to_owned());
            assert(texts(out@) =~= before.push(all@[i as int]@));
        }
        i += 1;
    }
    assert(all@.take(6) =~= all@);
    out
}

// ---------------------------------------------------------------------------
// Summary
// ---------------------------------------------------------------------------

/// A number of steps, or a dash.
pub open spec fn steps_text(given: Option<usize>, other: Option<usize>) -> Seq<char> {
    match (given, other) {
        (Some(s), _) => decimal(s as nat),
        (None, Some(s)) => decimal(s as nat),
        (None, None) => "—"@,
    }
}

fn show_steps(given: Option<usize>, other: Option<usize>) -> (r: String)
    ensures
        r@ == steps_text(given, other),
{
    match given {
        Some(s) => usize_text(s),
        None => match other {
            Some(s) => usize_text(s),
            None => "—".to_owned(),
        },
    }
}

/// Whether a row times the distilled student on the mel pipeline.
pub open spec fn distilled_mel(r: E2eRowView) -> bool {
    r.pipeline == "mel"@ && r.backend == "learned_distilled"@
}

/// The first of the fastest rows of the distilled student on the mel pipeline.
pub open spec fn best_distilled(rows: Seq<E2eRowView>) -> Option<int>
    decreases rows.len(),
{
    if rows.len() == 0 {
        None
    } else {
        let head = best_distilled(rows.drop_last());
        let last = rows.last();
        match head {
            Some(b) => if distilled_mel(last) && less(last.ms.bits, rows[b].ms.bits) {
                Some(rows.len() - 1)
            } else {
                Some(b)
            },
            None => if distilled_mel(last) {
                Some(rows.len() - 1)
            } else {
                None
            },
        }
    }
}

fn find_best_distilled(rows: &Vec<E2eBenchRow>) -> (r: Option<usize>)
    ensures
        match r {
            Some(i) => i < rows.len() && best_distilled(e2e_views(rows@)) == Some(i as int),
            None => best_distilled(e2e_views(rows@)) is None,
        },
{
    let ghost v = e2e_views(rows@);
    let mut best: Option<usize> = None;
    let mut i: usize = 0;
    while i < rows.len()
        invariant
            i <= rows.len(),
            v == e2e_views(rows@),
            match best {
                Some(b) => b < i && best_distilled(v.take(i as int)) == Some(b as int),
                None => best_distilled(v.take(i as int)) is None,
            },
        decreases rows.len() - i,
    {
        assert(v.take(i + 1).drop_last() =~= v.take(i as int));
        assert(v.take(i + 1).last() == rows@[i as int]@);
        let row = &rows[i];
        let mine = same_text(row.pipeline.as_str(), "mel") && same_text(
            row.backend.as_str(),
            "learned_distilled",
        );
        match best {
            Some(b) => {
                assert(v.take(i + 1)[b as int] == rows@[b as int]@);
                if mine && is_less(row.ms.bits, rows[b].ms.bits) {
                    best = Some(i);
                }
            },
            None => {
                if mine {
                    best = Some(i);
                }
            },
        }
        i += 1;
    }
    assert(v.take(v.len() as int) =~= v);
    best
}

pub const BEST_SPEED: [&'static str; 4] = ["", " ms (", "/", ")"];

/// The fastest distilled timing.
pub open spec fn best_speed_text(rows: Seq<E2eRowView>) -> Seq<char> {
    match best_distilled(rows) {
        Some(i) => filled(
            str_views(BEST_SPEED@),
            seq![rows[i].ms.fixed4, rows[i].device, decimal(rows[i].batch as nat)],
        ),
        None => "—"@,
    }
}

/// The text of the teacher's mel error.
pub open spec fn teacher_mel_text(t: Option<TeacherView>) -> Seq<char> {
    match t {
        Some(t) => t.mel_max_err.sci2,
        None => "—"@,
    }
}

/// The texts of the student's mel errors: against its teacher, and against the reference.
pub open spec fn distill_mel_texts(d: Option<DistillView>) -> (Seq<char>, Seq<char>) {
    match d {
        Some(d) => (d.mel_err_vs_teacher.sci2, d.mel_err_vs_ref.sci2),
        None => ("—"@, "—"@),
    }
}

/// The steps of a teacher.
pub open spec fn teacher_steps(t: Option<TeacherView>) -> Option<usize> {
    match t {
        Some(t) => Some(t.steps),
        None => None,
    }
}

/// The steps of a student.
pub open spec fn distill_steps(d: Option<DistillView>) -> Option<usize> {
    match d {
        Some(d) => Some(d.steps),
        None => None,
    }
}

/// The summary of a report.
pub open spec fn summary_markup(report: E2eBenchReport) -> Seq<char> {
    let teacher = teacher_view(report.meta.teacher);
    let distill = distill_view(report.meta.distill);
    filled(
        str_views(SUMMARY_CARDS@),
        seq![
            decimal(report_size(report) as nat),
            steps_text(report.meta.train_steps, teacher_steps(teacher)),
            steps_text(report.meta.distill_steps, distill_steps(distill)),
            teacher_mel_text(teacher),
            distill_mel_texts(distill).0,
            distill_mel_texts(distill).1,
            best_speed_text(e2e_views(report.rows@)),
            decimal(report_devices(report).len()),
            decimal(report_batches(report).len()),
            decimal(report.iters as nat),
        ],
    )
}

/// The size of a report.
pub fn shown_size(report: &E2eBenchReport) -> (r: usize)
    ensures
        r == report_size(*report),
{
    if report.rows.len() > 0 && report.rows[0].n_fft > report.meta.n_fft {
        report.rows[0].n_fft
    } else {
        report.meta.n_fft
    }
}

/// Writes the summary of a report.
pub fn build_summary_cards(report: &E2eBenchReport) -> (r: String)
    ensures
        r@ == summary_markup(*report),
{
    let devices = devices_shown(report);
    let batches = batches_shown(report);
    assert(texts(devices@).len() == devices@.len());
    let size = usize_text(shown_size(report));
    let train_steps = match &report.meta.teacher {
        Some(t) => show_steps(report.meta.train_steps, Some(t.steps)),
        None => show_steps(report.meta.train_steps, None),
    };
    let student_steps = match &report.meta.distill {
        Some(d) => show_steps(report.meta.distill_steps, Some(d.steps)),
        None => show_steps(report.meta.distill_steps, None),
    };
    let teacher_mel = match &report.meta.teacher {
        Some(t) => copy_text(&t.mel_max_err.sci2),
        None => "—".to_owned(),
    };
    let against_teacher = match &report.meta.distill {
        Some(d) => copy_text(&d.mel_err_vs_teacher.sci2),
        None => "—".to_owned(),
    };
    let against_ref = match &report.meta.distill {
        Some(d) => copy_text(&d.mel_err_vs_ref.sci2),
        None => "—".to_owned(),
    };
    let best = match find_best_distilled(&report.rows) {
        Some(i) => {
            let row = &report.rows[i];
            let batch = usize_text(row.batch);
            let f = [row.ms.fixed4.as_str(), row.device.as_str(), batch.as_str()];
            assert(e2e_views(report.rows@)[i as int] == row@);
            assert(str_views(f@) =~= seq![row@.ms.fixed4, row@.device, batch@]);
            fill(&BEST_SPEED, &f)
        },
        None => "—".to_owned(),
    };
    let device_count = usize_text(devices.len());
    let batch_count = usize_text(batches.len());
    let iters = usize_text(report.iters);
    let f = [
        size.as_str(),
        train_steps.as_str(),
        student_steps.as_str(),
        teacher_mel.as_str(),
        against_teacher.as_str(),
        against_ref.as_str(),
        best.as_str(),
        device_count.as_str(),
        batch_count.as_str(),
        iters.as_str(),
    ];
    assert(str_views(f@) =~= seq![
        size@,
        train_steps@,
        student_steps@,
        teacher_mel@,
        against_teacher@,
        against_ref@,
        best@,
        device_count@,
        batch_count@,
        iters@,
    ]);
    fill(&SUMMARY_CARDS, &f)
}

// ---------------------------------------------------------------------------
// Training for each batch
// ---------------------------------------------------------------------------

/// A column of the training of each batch.
#[derive(Clone, Copy, Debug, PartialEq, Eq, Structural)]
pub enum TrainColumn {
    TeacherMel,
    TeacherWelch,
    DistillTeacher,
    DistillRef,
    TrainMs,
    DistillMs,
}

/// The number of a batch in a column.
pub open spec fn train_figure(m: BatchMetaView, c: TrainColumn) -> Option<FigureView> {
    match c {
        TrainColumn::TeacherMel => match m.teacher {
            Some(t) => Some(t.mel_max_err),
            None => None,
        },
        TrainColumn::TeacherWelch => match m.teacher {
            Some(t) => Some(t.welch_max_err),
            None => None,
        },
        TrainColumn::TrainMs => match m.teacher {
            Some(t) => Some(t.elapsed_ms),
            None => None,
        },
        TrainColumn::DistillTeacher => match m.distill {
            Some(d) => Some(d.mel_err_vs_teacher),
            None => None,
        },
        TrainColumn::DistillRef => match m.distill {
            Some(d) => Some(d.mel_err_vs_ref),
            None => None,
        },
        TrainColumn::DistillMs => match m.distill {
            Some(d) => Some(d.elapsed_ms),
            None => None,
        },
    }
}

fn pick_figure(m: &E2eBatchTrainMeta, c: TrainColumn) -> (r: Option<&Figure>)
    ensures
        match r {
            Some(f) => train_figure(m@, c) == Some(f@),
            None => train_figure(m@, c) is None,
        },
{
    match c {
        TrainColumn::TeacherMel => match &m.teacher {
            Some(t) => Some(&t.mel_max_err),
            None => None,
        },
        TrainColumn::TeacherWelch => match &m.teacher {
            Some(t) => Some(&t.welch_max_err),
            None => None,
        },
        TrainColumn::TrainMs => match &m.teacher {
            Some(t) => Some(&t.elapsed_ms),
            None => None,
        },
        TrainColumn::DistillTeacher => match &m.distill {
            Some(d) => Some(&d.mel_err_vs_teacher),
            None => None,
        },
        TrainColumn::DistillRef => match &m.distill {
            Some(d) => Some(&d.mel_err_vs_ref),
            None => None,
        },
        TrainColumn::DistillMs => match &m.distill {
            Some(d) => Some(&d.elapsed_ms),
            None => None,
        },
    }
}

/// A number as JSON, `null` where there is none.
pub open spec fn json_figure(f: Option<FigureView>) -> Seq<char> {
    match f {
        Some(f) => f.json,
        None => "null"@,
    }
}

/// A column as JSON numbers.
pub open spec fn column_numbers(m: Seq<BatchMetaView>, c: TrainColumn) -> Seq<Seq<char>> {
    m.map_values(|b: BatchMetaView| json_figure(train_figure(b, c)))
}

/// Numbers as a JSON list.
pub open spec fn json_array(items: Seq<Seq<char>>) -> Seq<char> {
    "["@ + joined(items, ","@) + "]"@
}

fn write_array(items: &Vec<String>) -> (r: String)
    ensures
        r@ == json_array(texts(items@)),
{
    let list = join_texts(items, ",");
    let mut out = "[".to_owned();
    out.push_str(list.as_str());
    out.push_str("]");
    out
}

fn column_json(per_batch: &Vec<E2eBatchTrainMeta>, c: TrainColumn) -> (r: String)
    ensures
        r@ == json_array(column_numbers(meta_views(per_batch@), c)),
{
    let ghost m = meta_views(per_batch@);
    let ghost model = column_numbers(m, c);
    let mut out: Vec<String> = Vec::new();
    let mut i: usize = 0;
    while i < per_batch.len()
        invariant
            i <= per_batch.len(),
            m == meta_views(per_batch@),
            model == column_numbers(m, c),
            out.len() == i,
            forall|k: int| 0 <= k < i ==> (#[trigger] out@[k])@ == model[k],
        decreases per_batch.len() - i,
    {
        assert(m[i as int] == per_batch@[i as int]@);
        let text = match pick_figure(&per_batch[i], c) {
            Some(f) => copy_text(&f.json),
            None => "null".to_owned(),
        };
        out.push(text);
        i += 1;
    }
    assert(texts(out@) =~= model);
    write_array(&out)
}

pub const BATCH_ROW: [&'static str; 7] = [
    "<tr><td class=\"left\">",
    "</td><td>",
    "</td><td>",
    "</td><td>",
    "</td><td>",
    "</td><td>",
    "</td></tr>",
];

/// A number in scientific form, or a dash.
pub open spec fn sci_or_dash(f: Option<FigureView>) -> Seq<char> {
    match f {
        Some(f) => f.sci3,
        None => "—"@,
    }
}

/// A number without decimals, or a dash.
pub open spec fn whole_or_dash(f: Option<FigureView>) -> Seq<char> {
    match f {
        Some(f) => f.fixed0,
        None => "—"@,
    }
}

fn show_sci(f: Option<&Figure>) -> (r: String)
    ensures
        r@ == sci_or_dash(match f {
            Some(f) => Some(f@),
            None => None,
        }),
{
    match f {
        Some(f) => copy_text(&f.sci3),
        None => "—".to_owned(),
    }
}

fn show_whole(f: Option<&Figure>) -> (r: String)
    ensures
        r@ == whole_or_dash(match f {
            Some(f) => Some(f@),
            None => None,
        }),
{
    match f {
        Some(f) => copy_text(&f.fixed0),
        None => "—".to_owned(),
    }
}

/// The rows of the training of each batch.
pub open spec fn batch_rows(m: Seq<BatchMetaView>) -> spec_fn(int) -> Seq<char> {
    |i: int|
        filled(
            str_views(BATCH_ROW@),
            seq![
                decimal(m[i].batch as nat),
                sci_or_dash(train_figure(m[i], TrainColumn::TeacherMel)),
                sci_or_dash(train_figure(m[i], TrainColumn::DistillTeacher)),
                sci_or_dash(train_figure(m[i], TrainColumn::DistillRef)),
                whole_or_dash(train_figure(m[i], TrainColumn::TrainMs)),
                whole_or_dash(train_figure(m[i], TrainColumn::DistillMs)),
            ],
        )
}

/// The batches that were trained for.
pub open spec fn trained_batches(m: Seq<BatchMetaView>) -> Seq<usize> {
    m.map_values(|b: BatchMetaView| b.batch)
}

/// The section on training for each batch.
pub open spec fn per_batch_markup(m: Seq<BatchMetaView>) -> Seq<char> {
    if m.len() == 0 {
        Seq::empty()
    } else {
        filled(
            str_views(PER_BATCH_SECTION@),
            seq![
                each(m.len(), batch_rows(m)),
                json_numbers(trained_batches(m)),
                json_array(column_numbers(m, TrainColumn::TeacherMel)),
                json_array(column_numbers(m, TrainColumn::DistillTeacher)),
                json_array(column_numbers(m, TrainColumn::DistillRef)),
                json_array(column_numbers(m, TrainColumn::TeacherWelch)),
                json_array(column_numbers(m, TrainColumn::TrainMs)),
                json_array(column_numbers(m, TrainColumn::DistillMs)),
            ],
        )
    }
}

/// Writes the section on training for each batch.
pub fn build_per_batch_train_section(per_batch: &Vec<E2eBatchTrainMeta>) -> (r: String)
    ensures
        r@ == per_batch_markup(meta_views(per_batch@)),
{
    if per_batch.len() == 0 {
        return String::new();
    }
    let ghost m = meta_views(per_batch@);
    let mut rows = String::new();
    let mut batches: Vec<usize> = Vec::new();
    let mut i: usize = 0;
    assert(rows@ =~= each(0, batch_rows(m)));
    while i < per_batch.len()
        invariant
            i <= per_batch.len(),
            m == meta_views(per_batch@),
            rows@ == each(i as nat, batch_rows(m)),
            batches.len() == i,
            forall|k: int| 0 <= k < i ==> (#[trigger] batches@[k]) == per_batch@[k].batch,
        decreases per_batch.len() - i,
    {
        let p = &per_batch[i];
        assert(m[i as int] == p@);
        let batch = usize_text(p.batch);
        let mel = show_sci(pick_figure(p, TrainColumn::TeacherMel));
        let against_teacher = show_sci(pick_figure(p, TrainColumn::DistillTeacher));
        let against_ref = show_sci(pick_figure(p, TrainColumn::DistillRef));
        let train_ms = show_whole(pick_figure(p, TrainColumn::TrainMs));
        let distill_ms = show_whole(pick_figure(p, TrainColumn::DistillMs));
        let f = [
            batch.as_str(),
            mel.as_str(),
            against_teacher.as_str(),
            against_ref.as_str(),
            train_ms.as_str(),
            distill_ms.as_str(),
        ];
        assert(str_views(f@) =~= seq![
            batch@,
            mel@,
            against_teacher@,
            against_ref@,
            train_ms@,
            distill_ms@,
        ]);
        rows.push_str(fill(&BATCH_ROW, &f).as_str());
        batches.push(p.batch);
        i += 1;
    }
    assert(batches@ =~= trained_batches(m));
    let labels = json_counts(&batches);
    let teacher_mel = column_json(per_batch, TrainColumn::TeacherMel);
    let distill_teacher = column_json(per_batch, TrainColumn::DistillTeacher);
    let distill_ref = column_json(per_batch, TrainColumn::DistillRef);
    let teacher_welch = column_json(per_batch, TrainColumn::TeacherWelch);
    let train_ms = column_json(per_batch, TrainColumn::TrainMs);
    let distill_ms = column_json(per_batch, TrainColumn::DistillMs);
    let f = [
        rows.as_str(),
        labels.as_str(),
        teacher_mel.as_str(),
        distill_teacher.as_str(),
        distill_ref.as_str(),
        teacher_welch.as_str(),
        train_ms.as_str(),
        distill_ms.as_str(),
    ];
    assert(str_views(f@) =~= seq![
        rows@,
        labels@,
        teacher_mel@,
        distill_teacher@,
        distill_ref@,
        teacher_welch@,
        train_ms@,
        distill_ms@,
    ]);
    fill(&PER_BATCH_SECTION, &f)
}

// ---------------------------------------------------------------------------
// Precision of training
// ---------------------------------------------------------------------------

pub const PRECISION_LABELS: &'static str = "[\"Teacher vs ref (mel)\", \"Teacher vs ref (welch)\", \"Distill vs teacher (mel)\", \"Distill vs teacher (welch)\", \"Distill vs ref (mel)\"]";

pub const PRECISION_DATA: [&'static str; 6] = ["[", ", ", ", ", ", ", ", ", "]"];

/// A number of a student in scientific form, `null` where there is none.
pub open spec fn sci4_or_null(f: Option<FigureView>) -> Seq<char> {
    match f {
        Some(f) => f.sci4,
        None => "null"@,
    }
}

/// The errors of a student: mel and Welch against its teacher, mel against the reference.
pub open spec fn student_errors(d: Option<DistillView>) -> (
    Option<FigureView>,
    Option<FigureView>,
    Option<FigureView>,
) {
    match d {
        Some(d) => (
            Some(d.mel_err_vs_teacher),
            Some(d.welch_err_vs_teacher),
            Some(d.mel_err_vs_ref),
        ),
        None => (None, None, None),
    }
}

/// The section on the precision of training; nothing without a teacher.
pub open spec fn distillation_markup(
    teacher: Option<TeacherView>,
    distill: Option<DistillView>,
) -> Seq<char> {
    match teacher {
        None => Seq::empty(),
        Some(t) => filled(
            str_views(DISTILL_SECTION@),
            seq![
                t.spectrum_max_err.sci3,
                t.mel_max_err.sci3,
                t.welch_max_err.sci3,
                t.mean_gate,
                decimal(t.active_gates as nat),
                decimal(t.active_gates_hard as nat),
                if t.q8_enabled {
                    "yes"@
                } else {
                    "no"@
                },
                t.elapsed_ms.fixed0,
                PRECISION_LABELS@,
                filled(
                    str_views(PRECISION_DATA@),
                    seq![
                        t.mel_max_err.sci4,
                        t.welch_max_err.sci4,
                        sci4_or_null(student_errors(distill).0),
                        sci4_or_null(student_errors(distill).1),
                        sci4_or_null(student_errors(distill).2),
                    ],
                ),
            ],
        ),
    }
}

/// Writes the section on the precision of training.
pub fn build_distillation_section(report: &E2eBenchReport) -> (r: String)
    ensures
        r@ == distillation_markup(
            teacher_view(report.meta.teacher),
            distill_view(report.meta.distill),
        ),
{
    match &report.meta.teacher {
        None => String::new(),
        Some(t) => {
            let (mel, welch, against_ref) = match &report.meta.distill {
                Some(d) => (
                    d.mel_err_vs_teacher.sci4.as_str(),
                    d.welch_err_vs_teacher.sci4.as_str(),
                    d.mel_err_vs_ref.sci4.as_str(),
                ),
                None => ("null", "null", "null"),
            };
            let d = [
                t.mel_max_err.sci4.as_str(),
                t.welch_max_err.sci4.as_str(),
                mel,
                welch,
                against_ref,
            ];
            assert(str_views(d@) =~= seq![
                t@.mel_max_err.sci4,
                t@.welch_max_err.sci4,
                mel@,
                welch@,
                against_ref@,
            ]);
            let data = fill(&PRECISION_DATA, &d);
            let active_gates = usize_text(t.active_gates);
            let hard = usize_text(t.active_gates_hard);
            let q8 = if t.q8_enabled {
                "yes"
            } else {
                "no"
            };
            let f = [
                t.spectrum_max_err.sci3.as_str(),
                t.mel_max_err.sci3.as_str(),
                t.welch_max_err.sci3.as_str(),
                t.mean_gate.as_str(),
                active_gates.as_str(),
                hard.as_str(),
                q8,
                t.elapsed_ms.fixed0.as_str(),
                PRECISION_LABELS,
                data.as_str(),
            ];
            assert(str_views(f@) =~= seq![
                t@.spectrum_max_err.sci3,
                t@.mel_max_err.sci3,
                t@.welch_max_err.sci3,
                t@.mean_gate,
                active_gates@,
                hard@,
                q8@,
                t@.elapsed_ms.fixed0,
                PRECISION_LABELS@,
                data@,
            ]);
            fill(&DISTILL_SECTION, &f)
        },
    }
}

// ---------------------------------------------------------------------------
// Speed gates
// ---------------------------------------------------------------------------

/// A judged pair: its rows, its status, and its ratios with three decimals.
#[derive(Clone, Debug)]
pub struct GateLine {
    pub device: String,
    pub batch: usize,
    /// The places of the rows.
    pub baseline: usize,
    pub candidate: usize,
    pub status: GateStatus,
    pub speed_ratio: String,
    pub err_ratio: String,
}

/// What a judged pair stands for.
pub struct GateLineView {
    pub device: Seq<char>,
    pub batch: usize,
    pub baseline: int,
    pub candidate: int,
    pub status: GateStatus,
    pub speed_ratio: Seq<char>,
    pub err_ratio: Seq<char>,
}

impl View for GateLine {
    type V = GateLineView;

    open spec fn view(&self) -> GateLineView {
        GateLineView {
            device: self.device@,
            batch: self.batch,
            baseline: self.baseline as int,
            candidate: self.candidate as int,
            status: self.status,
            speed_ratio: self.speed_ratio@,
            err_ratio: self.err_ratio@,
        }
    }
}

/// The views of some judged pairs.
pub open spec fn line_views(v: Seq<GateLine>) -> Seq<GateLineView> {
    v.map_values(|g: GateLine| g@)
}

/// Whether every judged pair names rows of a report.
pub open spec fn lines_fit(v: Seq<GateLine>, rows: nat) -> bool {
    forall|k: int|
        0 <= k < v.len() ==> (#[trigger] v[k]).baseline < rows && v[k].candidate < rows
}

/// The pairs of a report that its speed gate compares.
pub fn gates_to_judge(report: &E2eBenchReport) -> (r: Vec<GatePair>)
    ensures
        gate_pairs(
            e2e_views(report.rows@),
            "rlx_op_fft"@,
            "learned_distilled"@,
            pair_views(r@),
        ),
        forall|k: int|
            0 <= k < r.len() ==> (#[trigger] r@[k]).baseline < report.rows.len()
                && r@[k].candidate < report.rows.len(),
{
    speed_gate_pairs(&report.rows, "rlx_op_fft", "learned_distilled")
}

pub const GATE_ROW: [&'static str; 12] = [
    "<tr><td class=\"left\">",
    "</td><td>",
    "</td><td>",
    "</td><td>",
    "</td><td>",
    "</td><td>",
    "</td><td>",
    "</td><td>",
    "</td><td>",
    "</td><td class=\"",
    "\">",
    "</td></tr>",
];

/// The time of the compiled butterfly at a place, or a dash.
pub open spec fn compiled_ms(rows: Seq<E2eRowView>, device: Seq<char>, batch: usize) -> Seq<char> {
    match row_for(rows, "mel"@, device, batch, "learned_compiled"@) {
        Some(i) => rows[i].ms.fixed4,
        None => "—"@,
    }
}

/// The rows of the table of speed gates.
pub open spec fn gate_rows(rows: Seq<E2eRowView>, g: Seq<GateLineView>) -> spec_fn(int) -> Seq<char> {
    |i: int|
        filled(
            str_views(GATE_ROW@),
            seq![
                g[i].device,
                decimal(g[i].batch as nat),
                rows[g[i].baseline].ms.fixed4,
                rows[g[i].candidate].ms.fixed4,
                compiled_ms(rows, g[i].device, g[i].batch),
                g[i].speed_ratio,
                rows[g[i].baseline].max_err.sci3,
                rows[g[i].candidate].max_err.sci3,
                g[i].err_ratio,
                g[i].status.class_text(),
                g[i].status.label_text(),
            ],
        )
}

/// The table of speed gates.
pub open spec fn gate_table_markup(rows: Seq<E2eRowView>, g: Seq<GateLineView>) -> Seq<char> {
    filled(str_views(GATE_TABLE@), seq![each(g.len(), gate_rows(rows, g))])
}

/// Writes the table of speed gates.
pub fn build_gate_table(rows: &Vec<E2eBenchRow>, gates: &Vec<GateLine>) -> (r: String)
    requires
        lines_fit(gates@, rows@.len()),
    ensures
        r@ == gate_table_markup(e2e_views(rows@), line_views(gates@)),
{
    let ghost v = e2e_views(rows@);
    let ghost g = line_views(gates@);
    let mut body = String::new();
    let mut i: usize = 0;
    assert(body@ =~= each(0, gate_rows(v, g)));
    while i < gates.len()
        invariant
            i <= gates.len(),
            lines_fit(gates@, rows@.len()),
            v == e2e_views(rows@),
            g == line_views(gates@),
            body@ == each(i as nat, gate_rows(v, g)),
        decreases gates.len() - i,
    {
        let line = &gates[i];
        assert(gates@[i as int].baseline < rows@.len());
        assert(g[i as int] == line@);
        let base = &rows[line.baseline];
        let cand = &rows[line.candidate];
        assert(v[line.baseline as int] == base@);
        assert(v[line.candidate as int] == cand@);
        let batch = usize_text(line.batch);
        let compiled = match lookup_row(
            rows,
            "mel",
            line.device.as_str(),
            line.batch,
            "learned_compiled",
        ) {
            Some(k) => {
                assert(v[k as int] == rows@[k as int]@);
                rows[k].ms.fixed4.as_str()
            },
            None => "—",
        };
        let class = line.status.class();
        let label = line.status.label();
        let f = [
            line.device.as_str(),
            batch.as_str(),
            base.ms.fixed4.as_str(),
            cand.ms.fixed4.as_str(),
            compiled,
            line.speed_ratio.as_str(),
            base.max_err.sci3.as_str(),
            cand.max_err.sci3.as_str(),
            line.err_ratio.as_str(),
            class,
            label,
        ];
        assert(str_views(f@) =~= seq![
            line@.device,
            batch@,
            base@.ms.fixed4,
            cand@.ms.fixed4,
            compiled@,
            line@.speed_ratio,
            base@.max_err.sci3,
            cand@.max_err.sci3,
            line@.err_ratio,
            class@,
            label@,
        ]);
        body.push_str(fill(&GATE_ROW, &f).as_str());
        i += 1;
    }
    let f = [body.as_str()];
    assert(str_views(f@) =~= seq![body@]);
    fill(&GATE_TABLE, &f)
}

// ---------------------------------------------------------------------------
// Tabs
// ---------------------------------------------------------------------------

/// A text with its hyphens made underscores.
pub open spec fn underscored(s: Seq<char>) -> Seq<char> {
    s.map_values(
        |c: char|
            if c == '-' {
                '_'
            } else {
                c
            },
    )
}

/// Makes the hyphens of a text underscores.
pub fn underscore(s: &str) -> (r: String)
    ensures
        r@ == underscored(s@),
{
    let chars = chars_of(s);
    let mut out = String::new();
    let mut i: usize = 0;
    assert(out@ =~= underscored(chars@.take(0)));
    while i < chars.len()
        invariant
            i <= chars.len(),
            out@ == underscored(chars@.take(i as int)),
        decreases chars.len() - i,
    {
        let c = chars[i];
        if c == '-' {
            out.push('_');
        } else {
            out.push(c);
        }
        assert(out@ =~= underscored(chars@.take(i + 1)));
        i += 1;
    }
    assert(chars@.take(chars@.len() as int) =~= chars@);
    out
}

pub const DEVICE_TAB: [&'static str; 5] = [
    "<button class=\"tab",
    "\" data-tab=\"",
    "-",
    "\">",
    "</button>",
];

/// The tabs of some devices.
pub open spec fn device_tabs(devices: Seq<Seq<char>>, group: Seq<char>) -> spec_fn(int) -> Seq<char> {
    |i: int|
        filled(
            str_views(DEVICE_TAB@),
            seq![active_mark(i == 0), group, decimal(i as nat), devices[i]],
        )
}

fn show_tabs(devices: &Vec<String>, group: &str) -> (r: String)
    ensures
        r@ == each(devices@.len(), device_tabs(texts(devices@), group@)),
{
    let ghost t = texts(devices@);
    let mut out = String::new();
    let mut i: usize = 0;
    assert(out@ =~= each(0, device_tabs(t, group@)));
    while i < devices.len()
        invariant
            i <= devices.len(),
            t == texts(devices@),
            out@ == each(i as nat, device_tabs(t, group@)),
        decreases devices.len() - i,
    {
        let mark = active(i == 0);
        let at = usize_text(i);
        let f = [mark, group, at.as_str(), devices[i].as_str()];
        assert(t[i as int] == devices@[i as int]@);
        assert(str_views(f@) =~= seq![mark@, group@, at@, t[i as int]]);
        out.push_str(fill(&DEVICE_TAB, &f).as_str());
        i += 1;
    }
    out
}

/// The panels of some devices: each names its place twice.
pub open spec fn device_panels(
    parts: Seq<Seq<char>>,
    devices: Seq<Seq<char>>,
) -> spec_fn(int) -> Seq<char> {
    |i: int|
        filled(
            parts,
            seq![active_mark(i == 0), decimal(i as nat), devices[i], decimal(i as nat)],
        )
}

fn show_panels(parts: &[&str], devices: &Vec<String>) -> (r: String)
    requires
        parts@.len() == 5,
    ensures
        r@ == each(devices@.len(), device_panels(str_views(parts@), texts(devices@))),
{
    let ghost t = texts(devices@);
    let ghost p = str_views(parts@);
    let mut out = String::new();
    let mut i: usize = 0;
    assert(out@ =~= each(0, device_panels(p, t)));
    while i < devices.len()
        invariant
            i <= devices.len(),
            parts@.len() == 5,
            t == texts(devices@),
            p == str_views(parts@),
            out@ == each(i as nat, device_panels(p, t)),
        decreases devices.len() - i,
    {
        let mark = active(i == 0);
        let at = usize_text(i);
        let f = [mark, at.as_str(), devices[i].as_str(), at.as_str()];
        assert(t[i as int] == devices@[i as int]@);
        assert(str_views(f@) =~= seq![mark@, at@, t[i as int], at@]);
        out.push_str(fill(parts, &f).as_str());
        i += 1;
    }
    out
}

/// The panels of a pipeline.
pub open spec fn pipeline_panels(
    pipeline: Seq<char>,
    devices: Seq<Seq<char>>,
) -> spec_fn(int) -> Seq<char> {
    |i: int|
        filled(
            str_views(PIPELINE_PANEL@),
            seq![
                active_mark(i == 0),
                underscored(pipeline),
                decimal(i as nat),
                pipeline,
                devices[i],
                underscored(pipeline),
                decimal(i as nat),
                pipeline,
                devices[i],
                underscored(pipeline),
                decimal(i as nat),
            ],
        )
}

/// The charts of a pipeline; nothing where there is nothing to chart.
pub open spec fn pipeline_charts(
    pipeline: Seq<char>,
    devices: Seq<Seq<char>>,
    batches: Seq<usize>,
    backends: Seq<Seq<char>>,
) -> Seq<char> {
    if devices.len() == 0 || batches.len() == 0 || backends.len() == 0 {
        Seq::empty()
    } else {
        filled(
            str_views(PIPELINE_GROUP@),
            seq![
                pipeline,
                underscored(pipeline),
                each(devices.len(), device_tabs(devices, underscored(pipeline))),
                each(devices.len(), pipeline_panels(pipeline, devices)),
            ],
        )
    }
}

/// Writes the charts of a pipeline.
pub fn build_pipeline_chart_sections(
    pipeline: &str,
    devices: &Vec<String>,
    batches: &Vec<usize>,
    chart_backends: &Vec<String>,
) -> (r: String)
    ensures
        r@ == pipeline_charts(pipeline@, texts(devices@), batches@, texts(chart_backends@)),
{
    assert(texts(devices@).len() == devices@.len());
    assert(texts(chart_backends@).len() == chart_backends@.len());
    if devices.len() == 0 || batches.len() == 0 || chart_backends.len() == 0 {
        return String::new();
    }
    let ghost t = texts(devices@);
    let name = underscore(pipeline);
    let tabs = show_tabs(devices, name.as_str());
    let mut panels = String::new();
    let mut i: usize = 0;
    assert(panels@ =~= each(0, pipeline_panels(pipeline@, t)));
    while i < devices.len()
        invariant
            i <= devices.len(),
            t == texts(devices@),
            name@ == underscored(pipeline@),
            panels@ == each(i as nat, pipeline_panels(pipeline@, t)),
        decreases devices.len() - i,
    {
        let mark = active(i == 0);
        let at = usize_text(i);
        let d = devices[i].as_str();
        let f = [
            mark,
            name.as_str(),
            at.as_str(),
            pipeline,
            d,
            name.as_str(),
            at.as_str(),
            pipeline,
            d,
            name.as_str(),
            at.as_str(),
        ];
        assert(t[i as int] == d@);
        assert(str_views(f@) =~= seq![
            mark@,
            name@,
            at@,
            pipeline@,
            d@,
            name@,
            at@,
            pipeline@,
            d@,
            name@,
            at@,
        ]);
        panels.push_str(fill(&PIPELINE_PANEL, &f).as_str());
        i += 1;
    }
    let f = [pipeline, name.as_str(), tabs.as_str(), panels.as_str()];
    assert(str_views(f@) =~= seq![pipeline@, name@, tabs@, panels@]);
    fill(&PIPELINE_GROUP, &f)
}

/// The scatter panels.
pub open spec fn scatter_markup(devices: Seq<Seq<char>>) -> Seq<char> {
    filled(
        str_views(SCATTER_GROUP@),
        seq![
            each(devices.len(), device_tabs(devices, "scatter"@)),
            each(devices.len(), device_panels(str_views(SCATTER_PANEL@), devices)),
        ],
    )
}

/// Writes the scatter panels.
pub fn build_scatter_section(devices: &Vec<String>) -> (r: String)
    ensures
        r@ == scatter_markup(texts(devices@)),
{
    assert(texts(devices@).len() == devices@.len());
    let tabs = show_tabs(devices, "scatter");
    let panels = show_panels(&SCATTER_PANEL, devices);
    let f = [tabs.as_str(), panels.as_str()];
    assert(str_views(f@) =~= seq![tabs@, panels@]);
    fill(&SCATTER_GROUP, &f)
}

/// The line panels; nothing where there is nothing to draw.
pub open spec fn line_markup(devices: Seq<Seq<char>>, batches: Seq<usize>) -> Seq<char> {
    if devices.len() == 0 || batches.len() == 0 {
        Seq::empty()
    } else {
        filled(
            str_views(LINE_GROUP@),
            seq![
                each(devices.len(), device_tabs(devices, "line"@)),
                each(devices.len(), device_panels(str_views(LINE_PANEL@), devices)),
            ],
        )
    }
}

/// Writes the line panels.
pub fn build_line_sections(devices: &Vec<String>, batches: &Vec<usize>) -> (r: String)
    ensures
        r@ == line_markup(texts(devices@), batches@),
{
    assert(texts(devices@).len() == devices@.len());
    if devices.len() == 0 || batches.len() == 0 {
        return String::new();
    }
    let tabs = show_tabs(devices, "line");
    let panels = show_panels(&LINE_PANEL, devices);
    let f = [tabs.as_str(), panels.as_str()];
    assert(str_views(f@) =~= seq![tabs@, panels@]);
    fill(&LINE_GROUP, &f)
}

// ---------------------------------------------------------------------------
// Ratio heatmaps
// ---------------------------------------------------------------------------

/// The rows that a heatmap compares at a place: those of the graph operator and of the student.
pub open spec fn heat_pair(rows: Seq<E2eRowView>, device: Seq<char>, batch: usize) -> Option<
    (int, int),
> {
    match (
        row_for(rows, "mel"@, device, batch, "rlx_op_fft"@),
        row_for(rows, "mel"@, device, batch, "learned_distilled"@),
    ) {
        (Some(r), Some(d)) => Some((r, d)),
        _ => None,
    }
}

/// The rows that a heatmap compares at a place.
pub fn heat_rows(rows: &Vec<E2eBenchRow>, device: &str, batch: usize) -> (r: Option<(usize, usize)>)
    ensures
        match r {
            Some(p) => p.0 < rows.len() && p.1 < rows.len() && heat_pair(
                e2e_views(rows@),
                device@,
                batch,
            ) == Some((p.0 as int, p.1 as int)),
            None => heat_pair(e2e_views(rows@), device@, batch) is None,
        },
{
    let base = lookup_row(rows, "mel", device, batch, "rlx_op_fft");
    let cand = lookup_row(rows, "mel", device, batch, "learned_distilled");
    match (base, cand) {
        (Some(a), Some(b)) => Some((a, b)),
        _ => None,
    }
}

/// A pair of places as numbers.
pub open spec fn pair_of(p: Option<(usize, usize)>) -> Option<(int, int)> {
    match p {
        Some(q) => Some((q.0 as int, q.1 as int)),
        None => None,
    }
}

/// Whether a row of a heatmap holds the pairs of a device.
pub open spec fn heat_row_is(
    rows: Seq<E2eRowView>,
    device: Seq<char>,
    batches: Seq<usize>,
    row: Seq<Option<(usize, usize)>>,
) -> bool {
    row.len() == batches.len() && forall|k: int|
        0 <= k < row.len() ==> pair_of(#[trigger] row[k]) == heat_pair(rows, device, batches[k])
}

/// The rows that the heatmaps of a report compare, for each device and batch that it shows.
pub fn heat_grid(report: &E2eBenchReport) -> (r: Vec<Vec<Option<(usize, usize)>>>)
    ensures
        r.len() == report_devices(*report).len(),
        forall|d: int|
            0 <= d < r.len() ==> heat_row_is(
                e2e_views(report.rows@),
                report_devices(*report)[d],
                report_batches(*report),
                (#[trigger] r@[d])@,
            ),
{
    let devices = devices_shown(report);
    let batches = batches_shown(report);
    let ghost v = e2e_views(report.rows@);
    let ghost t = texts(devices@);
    let mut out: Vec<Vec<Option<(usize, usize)>>> = Vec::new();
    let mut d: usize = 0;
    while d < devices.len()
        invariant
            d <= devices.len(),
            v == e2e_views(report.rows@),
            t == texts(devices@),
            out.len() == d,
            forall|k: int|
                0 <= k < d ==> heat_row_is(v, t[k], batches@, (#[trigger] out@[k])@),
        decreases devices.len() - d,
    {
        let mut row: Vec<Option<(usize, usize)>> = Vec::new();
        let mut b: usize = 0;
        assert(t[d as int] == devices@[d as int]@);
        while b < batches.len()
            invariant
                b <= batches.len(),
                d < devices.len(),
                v == e2e_views(report.rows@),
                t == texts(devices@),
                t[d as int] == devices@[d as int]@,
                row.len() == b,
                forall|k: int|
                    0 <= k < b ==> pair_of(#[trigger] row@[k]) == heat_pair(
                        v,
                        t[d as int],
                        batches@[k],
                    ),
            decreases batches.len() - b,
        {
            row.push(heat_rows(&report.rows, devices[d].as_str(), batches[b]));
            b += 1;
        }
        out.push(row);
        d += 1;
    }
    assert(t.len() == devices@.len());
    out
}

pub const RATIO_PLOT: [&'static str; 5] = [
    "{\"batches\":",
    ",\"devices\":",
    ",\"title\":",
    ",\"z\":",
    ",\"zmid\":1.0}",
];

/// A text with its single quotes escaped.
pub open spec fn unquoted(s: Seq<char>) -> Seq<char>
    decreases s.len(),
{
    if s.len() == 0 {
        Seq::empty()
    } else if s.last() == '\'' {
        unquoted(s.drop_last()) + "&#39;"@
    } else {
        unquoted(s.drop_last()).push(s.last())
    }
}

/// Escapes the single quotes of a text.
pub fn unquote(s: &str) -> (r: String)
    ensures
        r@ == unquoted(s@),
{
    let chars = chars_of(s);
    let mut out = String::new();
    let mut i: usize = 0;
    assert(out@ =~= unquoted(chars@.take(0)));
    while i < chars.len()
        invariant
            i <= chars.len(),
            out@ == unquoted(chars@.take(i as int)),
        decreases chars.len() - i,
    {
        assert(chars@.take(i + 1).drop_last() =~= chars@.take(i as int));
        let c = chars[i];
        if c == '\'' {
            out.push_str("&#39;");
        } else {
            out.push(c);
        }
        i += 1;
    }
    assert(chars@.take(chars@.len() as int) =~= chars@);
    out
}

/// The views of rows of texts.
pub open spec fn grid_texts(z: Seq<Vec<String>>) -> Seq<Seq<Seq<char>>> {
    z.map_values(|row: Vec<String>| texts(row@))
}

/// Rows of numbers as JSON lists.
pub open spec fn json_arrays(z: Seq<Seq<Seq<char>>>) -> Seq<Seq<char>> {
    z.map_values(|row: Seq<Seq<char>>| json_array(row))
}

/// The plot of a heatmap of ratios.
pub open spec fn ratio_plot(
    title: Seq<char>,
    devices: Seq<Seq<char>>,
    batches: Seq<usize>,
    z: Seq<Seq<Seq<char>>>,
) -> Seq<char> {
    filled(
        str_views(RATIO_PLOT@),
        seq![
            json_numbers(batches),
            json_list_text(devices),
            json_text(title),
            json_array(json_arrays(z)),
        ],
    )
}

fn write_ratio_plot(
    title: &str,
    devices: &Vec<String>,
    batches: &Vec<usize>,
    z: &Vec<Vec<String>>,
) -> (r: String)
    ensures
        r@ == unquoted(ratio_plot(title@, texts(devices@), batches@, grid_texts(z@))),
{
    let ghost model = json_arrays(grid_texts(z@));
    let mut rows: Vec<String> = Vec::new();
    let mut i: usize = 0;
    while i < z.len()
        invariant
            i <= z.len(),
            model == json_arrays(grid_texts(z@)),
            rows.len() == i,
            forall|k: int| 0 <= k < i ==> (#[trigger] rows@[k])@ == model[k],
        decreases z.len() - i,
    {
        assert(grid_texts(z@)[i as int] == texts(z@[i as int]@));
        rows.push(write_array(&z[i]));
        i += 1;
    }
    assert(texts(rows@) =~= model);
    let b = json_counts(batches);
    let d = json_list(devices);
    let t = json_string(title);
    let n = write_array(&rows);
    let f = [b.as_str(), d.as_str(), t.as_str(), n.as_str()];
    assert(str_views(f@) =~= seq![b@, d@, t@, n@]);
    let plot = fill(&RATIO_PLOT, &f);
    unquote(plot.as_str())
}

/// The heatmaps of ratios; nothing where there is nothing to show.
pub open spec fn ratio_markup(
    devices: Seq<Seq<char>>,
    batches: Seq<usize>,
    speed: Seq<Seq<Seq<char>>>,
    error: Seq<Seq<Seq<char>>>,
) -> Seq<char> {
    if devices.len() == 0 || batches.len() == 0 {
        Seq::empty()
    } else {
        filled(
            str_views(RATIO_HEATMAPS@),
            seq![
                unquoted(
                    ratio_plot("Speed ratio (distilled / rlx_op_fft)"@, devices, batches, speed),
                ),
                unquoted(
                    ratio_plot("Error ratio (distilled / rlx_op_fft)"@, devices, batches, error),
                ),
            ],
        )
    }
}

/// Writes the heatmaps of ratios: `speed` and `error` hold their numbers as JSON, one row for each
/// device and one number for each batch.
pub fn build_heatmap_sections(
    devices: &Vec<String>,
    batches: &Vec<usize>,
    speed: &Vec<Vec<String>>,
    error: &Vec<Vec<String>>,
) -> (r: String)
    ensures
        r@ == ratio_markup(texts(devices@), batches@, grid_texts(speed@), grid_texts(error@)),
{
    assert(texts(devices@).len() == devices@.len());
    if devices.len() == 0 || batches.len() == 0 {
        return String::new();
    }
    let a = write_ratio_plot("Speed ratio (distilled / rlx_op_fft)", devices, batches, speed);
    let b = write_ratio_plot("Error ratio (distilled / rlx_op_fft)", devices, batches, error);
    let f = [a.as_str(), b.as_str()];
    assert(str_views(f@) =~= seq![a@, b@]);
    fill(&RATIO_HEATMAPS, &f)
}

// ---------------------------------------------------------------------------
// Table of every row
// ---------------------------------------------------------------------------

/// What the table of every row is sorted by.
pub open spec fn row_key(r: E2eRowView) -> (Seq<char>, (Seq<char>, (usize, Seq<char>))) {
    (r.pipeline, (r.device, (r.batch, r.backend)))
}

/// What the rows of the table are sorted by.
pub open spec fn row_keys(rows: Seq<E2eRowView>) -> Seq<
    (Seq<char>, (Seq<char>, (usize, Seq<char>))),
> {
    rows.map_values(|r: E2eRowView| row_key(r))
}

pub type RowKey = (String, (String, (usize, String)));

pub const TABLE_ROW: [&'static str; 9] = [
    "<tr><td class=\"left\">",
    "</td><td class=\"left\">",
    "</td><td>",
    "</td><td>",
    "</td><td>",
    "</td><td>",
    "</td><td>",
    "</td><td>",
    "</td></tr>",
];

/// The mean gate of a row, or a dash.
pub open spec fn gate_text(g: Option<Seq<char>>) -> Seq<char> {
    match g {
        Some(t) => t,
        None => "—"@,
    }
}

/// The rows of the table in some order.
pub open spec fn table_rows(rows: Seq<E2eRowView>, order: Seq<usize>) -> spec_fn(int) -> Seq<char> {
    |i: int|
        {
            let r = rows[order[i] as int];
            filled(
                str_views(TABLE_ROW@),
                seq![
                    r.pipeline,
                    r.backend,
                    r.device,
                    decimal(r.batch as nat),
                    decimal(r.n_fft as nat),
                    r.ms.fixed4,
                    r.max_err.sci3,
                    gate_text(r.mean_gate),
                ],
            )
        }
}

/// The table of every row in some order.
pub open spec fn full_table_markup(rows: Seq<E2eRowView>, order: Seq<usize>) -> Seq<char> {
    filled(str_views(FULL_TABLE@), seq![each(order.len(), table_rows(rows, order))])
}

/// Whether a text is the table of every row, sorted by pipeline, device, batch and backend.
pub open spec fn is_full_table(rows: Seq<E2eRowView>, s: Seq<char>) -> bool {
    exists|order: Seq<usize>| #[trigger]
        stable_order_of::<RowKey>(row_keys(rows), order) && s == full_table_markup(rows, order)
}

/// Writes the table of every row.
pub fn build_full_table(rows: &Vec<E2eBenchRow>) -> (r: String)
    ensures
        is_full_table(e2e_views(rows@), r@),
{
    let ghost v = e2e_views(rows@);
    let mut keys: Vec<RowKey> = Vec::new();
    let mut i: usize = 0;
    while i < rows.len()
        invariant
            i <= rows.len(),
            v == e2e_views(rows@),
            keys.len() == i,
            forall|k: int|
                0 <= k < i ==> models(keys@)[k] == row_key(#[trigger] v[k]),
        decreases rows.len() - i,
    {
        let row = &rows[i];
        let key = (
            copy_text(&row.pipeline),
            (copy_text(&row.device), (row.batch, copy_text(&row.backend))),
        );
        let ghost before = models(keys@);
        assert(v[i as int] == row@);
        keys.push(key);
        assert(models(keys@) =~= before.push(row_key(row@)));
        i += 1;
    }
    assert(models(keys@) =~= row_keys(v)) by {
        assert forall|k: int| 0 <= k < v.len() implies models(keys@)[k] == row_keys(v)[k] by {
            assert(models(keys@)[k] == row_key(v[k]));
        }
    }
    let order = stable_order(&keys);
    let mut body = String::new();
    let mut i: usize = 0;
    assert(body@ =~= each(0, table_rows(v, order@)));
    while i < order.len()
        invariant
            i <= order.len(),
            v == e2e_views(rows@),
            stable_order_of::<RowKey>(row_keys(v), order@),
            body@ == each(i as nat, table_rows(v, order@)),
        decreases order.len() - i,
    {
        assert(order@[i as int] < row_keys(v).len());
        let row = &rows[order[i]];
        assert(v[order@[i as int] as int] == row@);
        let batch = usize_text(row.batch);
        let n = usize_text(row.n_fft);
        let gate = match &row.mean_gate {
            Some(g) => g.as_str(),
            None => "—",
        };
        let f = [
            row.pipeline.as_str(),
            row.backend.as_str(),
            row.device.as_str(),
            batch.as_str(),
            n.as_str(),
            row.ms.fixed4.as_str(),
            row.max_err.sci3.as_str(),
            gate,
        ];
        assert(str_views(f@) =~= seq![
            row@.pipeline,
            row@.backend,
            row@.device,
            batch@,
            n@,
            row@.ms.fixed4,
            row@.max_err.sci3,
            gate@,
        ]);
        body.push_str(fill(&TABLE_ROW, &f).as_str());
        i += 1;
    }
    let f = [body.as_str()];
    assert(str_views(f@) =~= seq![body@]);
    let r = fill(&FULL_TABLE, &f);
    assert(stable_order_of::<RowKey>(row_keys(v), order@));
    r
}

// ---------------------------------------------------------------------------
// Legend
// ---------------------------------------------------------------------------

pub const LEGEND_SPAN: [&'static str; 3] = [
    "<span class=\"legend-item\"><span class=\"swatch\" style=\"background:",
    "\"></span>",
    "</span>",
];

/// The items of the legend.
pub open spec fn legend_spans(backends: Seq<Seq<char>>) -> Seq<Seq<char>> {
    backends.map_values(
        |b: Seq<char>| filled(str_views(LEGEND_SPAN@), seq![backend_colour(b), b]),
    )
}

/// Writes the legend.
pub fn build_legend(backends: &Vec<String>) -> (r: String)
    ensures
        r@ == joined(legend_spans(texts(backends@)), "\n"@),
{
    let ghost model = legend_spans(texts(backends@));
    let mut out: Vec<String> = Vec::new();
    let mut i: usize = 0;
    while i < backends.len()
        invariant
            i <= backends.len(),
            model == legend_spans(texts(backends@)),
            out.len() == i,
            forall|k: int| 0 <= k < i ==> (#[trigger] out@[k])@ == model[k],
        decreases backends.len() - i,
    {
        let c = backend_color(backends[i].as_str());
        let f = [c, backends[i].as_str()];
        assert(texts(backends@)[i as int] == backends@[i as int]@);
        assert(str_views(f@) =~= seq![c@, backends@[i as int]@]);
        out.push(fill(&LEGEND_SPAN, &f));
        i += 1;
    }
    assert(texts(out@) =~= model);
    join_texts(&out, "\n")
}

pub const COLOUR_ENTRY: [&'static str; 3] = ["", ":", ""];

/// The colours of some backends as entries of a JSON object.
pub open spec fn colour_entries(backends: Seq<Seq<char>>) -> Seq<Seq<char>> {
    backends.map_values(
        |b: Seq<char>|
            filled(str_views(COLOUR_ENTRY@), seq![json_text(b), json_text(backend_colour(b))]),
    )
}

/// The colours of some backends as JSON.
pub open spec fn colour_map(backends: Seq<Seq<char>>) -> Seq<char> {
    "{"@ + joined(colour_entries(backends), ","@) + "}"@
}

fn write_colour_map(backends: &Vec<String>) -> (r: String)
    ensures
        r@ == colour_map(texts(backends@)),
{
    let ghost model = colour_entries(texts(backends@));
    let mut cells: Vec<String> = Vec::new();
    let mut i: usize = 0;
    while i < backends.len()
        invariant
            i <= backends.len(),
            model == colour_entries(texts(backends@)),
            cells.len() == i,
            forall|k: int| 0 <= k < i ==> (#[trigger] cells@[k])@ == model[k],
        decreases backends.len() - i,
    {
        let key = json_string(backends[i].as_str());
        let value = json_string(backend_color(backends[i].as_str()));
        let f = [key.as_str(), value.as_str()];
        assert(texts(backends@)[i as int] == backends@[i as int]@);
        assert(str_views(f@) =~= seq![key@, value@]);
        cells.push(fill(&COLOUR_ENTRY, &f));
        i += 1;
    }
    assert(texts(cells@) =~= model);
    let list = join_texts(&cells, ",");
    let mut out = "{".to_owned();
    out.push_str(list.as_str());
    out.push_str("}");
    out
}

// ---------------------------------------------------------------------------
// Chart data
// ---------------------------------------------------------------------------

/// What a bar chart shows of a row.
#[derive(Clone, Copy, Debug, PartialEq, Eq, Structural)]
pub enum Measure {
    Ms,
    MaxErr,
}

/// A measure of a row.
pub open spec fn measured(r: E2eRowView, m: Measure) -> FigureView {
    match m {
        Measure::Ms => r.ms,
        Measure::MaxErr => r.max_err,
    }
}

/// The numbers of a backend over some batches, `null` where it was not timed.
pub open spec fn series(
    rows: Seq<E2eRowView>,
    pipeline: Seq<char>,
    device: Seq<char>,
    batches: Seq<usize>,
    backend: Seq<char>,
    m: Measure,
) -> Seq<Seq<char>> {
    batches.map_values(
        |b: usize|
            match row_for(rows, pipeline, device, b, backend) {
                Some(i) => measured(rows[i], m).json,
                None => "null"@,
            },
    )
}

fn write_series(
    rows: &Vec<E2eBenchRow>,
    pipeline: &str,
    device: &str,
    batches: &Vec<usize>,
    backend: &str,
    m: Measure,
) -> (r: String)
    ensures
        r@ == json_array(series(e2e_views(rows@), pipeline@, device@, batches@, backend@, m)),
{
    let ghost v = e2e_views(rows@);
    let ghost model = series(v, pipeline@, device@, batches@, backend@, m);
    let mut out: Vec<String> = Vec::new();
    let mut i: usize = 0;
    while i < batches.len()
        invariant
            i <= batches.len(),
            v == e2e_views(rows@),
            model == series(v, pipeline@, device@, batches@, backend@, m),
            out.len() == i,
            forall|k: int| 0 <= k < i ==> (#[trigger] out@[k])@ == model[k],
        decreases batches.len() - i,
    {
        let text = match lookup_row(rows, pipeline, device, batches[i], backend) {
            Some(k) => {
                assert(v[k as int] == rows@[k as int]@);
                match m {
                    Measure::Ms => copy_text(&rows[k].ms.json),
                    Measure::MaxErr => copy_text(&rows[k].max_err.json),
                }
            },
            None => "null".to_owned(),
        };
        out.push(text);
        i += 1;
    }
    assert(texts(out@) =~= model);
    write_array(&out)
}

pub const BAR_DATA: [&'static str; 5] = [
    "{\"backgroundColor\":",
    ",\"borderColor\":",
    ",\"data\":",
    ",\"label\":",
    "}",
];

pub const LINE_DATA: [&'static str; 5] = [
    "{\"backgroundColor\":",
    ",\"borderColor\":",
    ",\"data\":",
    ",\"fill\":false,\"label\":",
    ",\"tension\":0.15}",
];

/// The data of some backends.
pub open spec fn datasets(
    parts: Seq<Seq<char>>,
    rows: Seq<E2eRowView>,
    pipeline: Seq<char>,
    device: Seq<char>,
    batches: Seq<usize>,
    backends: Seq<Seq<char>>,
    m: Measure,
) -> Seq<Seq<char>> {
    backends.map_values(
        |b: Seq<char>|
            filled(
                parts,
                seq![
                    json_text(backend_colour(b)),
                    json_text(backend_colour(b)),
                    json_array(series(rows, pipeline, device, batches, b, m)),
                    json_text(b),
                ],
            ),
    )
}

/// Writes the data of some backends.
pub fn chart_datasets_json(
    parts: &[&str],
    rows: &Vec<E2eBenchRow>,
    pipeline: &str,
    device: &str,
    batches: &Vec<usize>,
    backends: &Vec<String>,
    m: Measure,
) -> (r: String)
    requires
        parts@.len() == 5,
    ensures
        r@ == json_array(
            datasets(
                str_views(parts@),
                e2e_views(rows@),
                pipeline@,
                device@,
                batches@,
                texts(backends@),
                m,
            ),
        ),
{
    let ghost v = e2e_views(rows@);
    let ghost t = texts(backends@);
    let ghost p = str_views(parts@);
    let ghost model = datasets(p, v, pipeline@, device@, batches@, t, m);
    let mut out: Vec<String> = Vec::new();
    let mut i: usize = 0;
    while i < backends.len()
        invariant
            i <= backends.len(),
            parts@.len() == 5,
            v == e2e_views(rows@),
            t == texts(backends@),
            p == str_views(parts@),
            model == datasets(p, v, pipeline@, device@, batches@, t, m),
            out.len() == i,
            forall|k: int| 0 <= k < i ==> (#[trigger] out@[k])@ == model[k],
        decreases backends.len() - i,
    {
        let b = backends[i].as_str();
        assert(t[i as int] == b@);
        let c = json_string(backend_color(b));
        let data = write_series(rows, pipeline, device, batches, b, m);
        let label = json_string(b);
        let f = [c.as_str(), c.as_str(), data.as_str(), label.as_str()];
        assert(str_views(f@) =~= seq![c@, c@, data@, label@]);
        out.push(fill(parts, &f));
        i += 1;
    }
    assert(texts(out@) =~= model);
    write_array(&out)
}

pub const SCATTER_POINT: [&'static str; 3] = ["[", ",", "]"];

pub const SCATTER_DATA: [&'static str; 4] = [
    "{\"backgroundColor\":",
    ",\"data\":",
    ",\"label\":",
    ",\"pointRadius\":6}",
];

/// Whether a row is of a pipeline, a device and a backend.
pub open spec fn is_point(
    r: E2eRowView,
    pipeline: Seq<char>,
    device: Seq<char>,
    backend: Seq<char>,
) -> bool {
    r.pipeline == pipeline && r.device == device && r.backend == backend
}

/// The points of a backend.
pub open spec fn points(
    rows: Seq<E2eRowView>,
    pipeline: Seq<char>,
    device: Seq<char>,
    backend: Seq<char>,
) -> Seq<Seq<char>>
    decreases rows.len(),
{
    if rows.len() == 0 {
        Seq::empty()
    } else {
        let head = points(rows.drop_last(), pipeline, device, backend);
        let r = rows.last();
        if is_point(r, pipeline, device, backend) {
            head.push(filled(str_views(SCATTER_POINT@), seq![r.ms.json, r.max_err.json]))
        } else {
            head
        }
    }
}

fn write_points(rows: &Vec<E2eBenchRow>, pipeline: &str, device: &str, backend: &str) -> (r: String)
    ensures
        r@ == json_array(points(e2e_views(rows@), pipeline@, device@, backend@)),
{
    let ghost v = e2e_views(rows@);
    let mut out: Vec<String> = Vec::new();
    let mut i: usize = 0;
    assert(texts(out@) =~= points(v.take(0), pipeline@, device@, backend@));
    while i < rows.len()
        invariant
            i <= rows.len(),
            v == e2e_views(rows@),
            texts(out@) == points(v.take(i as int), pipeline@, device@, backend@),
        decreases rows.len() - i,
    {
        let ghost before = texts(out@);
        let row = &rows[i];
        assert(v.take(i + 1).drop_last() =~= v.take(i as int));
        assert(v.take(i + 1).last() == row@);
        if same_text(row.pipeline.as_str(), pipeline) && same_text(row.device.as_str(), device)
            && same_text(row.backend.as_str(), backend) {
            let f = [row.ms.json.as_str(), row.max_err.json.as_str()];
            assert(str_views(f@) =~= seq![row@.ms.json, row@.max_err.json]);
            let point = fill(&SCATTER_POINT, &f);
            let ghost q = point@;
            out.push(point);
            assert(texts(out@) =~= before.push(q));
        }
        i += 1;
    }
    assert(v.take(v.len() as int) =~= v);
    write_array(&out)
}

/// The points of some backends.
pub open spec fn scatter_datasets(
    rows: Seq<E2eRowView>,
    pipeline: Seq<char>,
    device: Seq<char>,
    backends: Seq<Seq<char>>,
) -> Seq<Seq<char>> {
    backends.map_values(
        |b: Seq<char>|
            filled(
                str_views(SCATTER_DATA@),
                seq![
                    json_text(backend_colour(b)),
                    json_array(points(rows, pipeline, device, b)),
                    json_text(b),
                ],
            ),
    )
}

/// Writes the points of some backends.
pub fn scatter_datasets_json(
    rows: &Vec<E2eBenchRow>,
    pipeline: &str,
    device: &str,
    backends: &Vec<String>,
) -> (r: String)
    ensures
        r@ == json_array(
            scatter_datasets(e2e_views(rows@), pipeline@, device@, texts(backends@)),
        ),
{
    let ghost v = e2e_views(rows@);
    let ghost t = texts(backends@);
    let ghost model = scatter_datasets(v, pipeline@, device@, t);
    let mut out: Vec<String> = Vec::new();
    let mut i: usize = 0;
    while i < backends.len()
        invariant
            i <= backends.len(),
            v == e2e_views(rows@),
            t == texts(backends@),
            model == scatter_datasets(v, pipeline@, device@, t),
            out.len() == i,
            forall|k: int| 0 <= k < i ==> (#[trigger] out@[k])@ == model[k],
        decreases backends.len() - i,
    {
        let b = backends[i].as_str();
        assert(t[i as int] == b@);
        let c = json_string(backend_color(b));
        let data = write_points(rows, pipeline, device, b);
        let label = json_string(b);
        let f = [c.as_str(), data.as_str(), label.as_str()];
        assert(str_views(f@) =~= seq![c@, data@, label@]);
        out.push(fill(&SCATTER_DATA, &f));
        i += 1;
    }
    assert(texts(out@) =~= model);
    write_array(&out)
}

// ---------------------------------------------------------------------------
// Chart calls
// ---------------------------------------------------------------------------

pub const BAR_CALL: [&'static str; 6] = [
    "makeGroupedBar('",
    "-",
    "-",
    "', ",
    ", ",
    ", '",
];

pub const LINE_CALL: [&'static str; 4] = ["makeLineChart('line-", "', ", ", ", ", 'ms');\n"];

pub const SCATTER_CALL: [&'static str; 3] = ["makeScatter('scatter-", "', ", ");\n"];

/// The call that draws the bars of a pipeline on a device.
pub open spec fn bar_call(
    rows: Seq<E2eRowView>,
    pipeline: Seq<char>,
    devices: Seq<Seq<char>>,
    di: int,
    batches: Seq<usize>,
    backends: Seq<Seq<char>>,
    m: Measure,
) -> Seq<char> {
    filled(
        str_views(BAR_CALL@),
        seq![
            match m {
                Measure::Ms => "lat"@,
                Measure::MaxErr => "err"@,
            },
            underscored(pipeline),
            decimal(di as nat),
            json_numbers(batches),
            json_array(
                datasets(
                    str_views(BAR_DATA@),
                    rows,
                    pipeline,
                    devices[di],
                    batches,
                    backends,
                    m,
                ),
            ),
        ],
    ) + match m {
        Measure::Ms => "ms', true);\n"@,
        Measure::MaxErr => "max_err', true);\n"@,
    }
}

/// The calls that draw the charts of the mel pipeline on a device.
pub open spec fn mel_calls(
    rows: Seq<E2eRowView>,
    devices: Seq<Seq<char>>,
    batches: Seq<usize>,
    backends: Seq<Seq<char>>,
) -> spec_fn(int) -> Seq<char> {
    |di: int|
        bar_call(rows, "mel"@, devices, di, batches, backends, Measure::Ms) + bar_call(
            rows,
            "mel"@,
            devices,
            di,
            batches,
            backends,
            Measure::MaxErr,
        ) + filled(
            str_views(LINE_CALL@),
            seq![
                decimal(di as nat),
                json_numbers(batches),
                json_array(
                    datasets(
                        str_views(LINE_DATA@),
                        rows,
                        "mel"@,
                        devices[di],
                        batches,
                        backends,
                        Measure::Ms,
                    ),
                ),
            ],
        ) + filled(
            str_views(SCATTER_CALL@),
            seq![
                decimal(di as nat),
                json_array(scatter_datasets(rows, "mel"@, devices[di], backends)),
            ],
        )
}

/// The calls that draw the charts of another pipeline on a device.
pub open spec fn other_calls(
    rows: Seq<E2eRowView>,
    pipeline: Seq<char>,
    devices: Seq<Seq<char>>,
    batches: Seq<usize>,
    backends: Seq<Seq<char>>,
) -> spec_fn(int) -> Seq<char> {
    |di: int|
        bar_call(rows, pipeline, devices, di, batches, backends, Measure::Ms) + bar_call(
            rows,
            pipeline,
            devices,
            di,
            batches,
            backends,
            Measure::MaxErr,
        )
}

/// The calls that draw the charts of the other pipelines.
pub open spec fn pipeline_calls(
    rows: Seq<E2eRowView>,
    pipelines: Seq<Seq<char>>,
    devices: Seq<Seq<char>>,
    batches: Seq<usize>,
    backends: Seq<Seq<char>>,
) -> spec_fn(int) -> Seq<char> {
    |p: int|
        if pipelines[p] == "mel"@ {
            Seq::empty()
        } else {
            each(devices.len(), other_calls(rows, pipelines[p], devices, batches, backends))
        }
}

/// The calls that draw every chart.
pub open spec fn chart_calls(
    rows: Seq<E2eRowView>,
    pipelines: Seq<Seq<char>>,
    devices: Seq<Seq<char>>,
    batches: Seq<usize>,
    backends: Seq<Seq<char>>,
) -> Seq<char> {
    each(devices.len(), mel_calls(rows, devices, batches, backends)) + each(
        pipelines.len(),
        pipeline_calls(rows, pipelines, devices, batches, backends),
    )
}

fn write_bar_call(
    rows: &Vec<E2eBenchRow>,
    pipeline: &str,
    devices: &Vec<String>,
    di: usize,
    batches: &Vec<usize>,
    backends: &Vec<String>,
    m: Measure,
) -> (r: String)
    requires
        di < devices.len(),
    ensures
        r@ == bar_call(
            e2e_views(rows@),
            pipeline@,
            texts(devices@),
            di as int,
            batches@,
            texts(backends@),
            m,
        ),
{
    let kind = match m {
        Measure::Ms => "lat",
        Measure::MaxErr => "err",
    };
    let name = underscore(pipeline);
    let at = usize_text(di);
    let labels = json_counts(batches);
    let device = devices[di].as_str();
    assert(texts(devices@)[di as int] == device@);
    let data = chart_datasets_json(&BAR_DATA, rows, pipeline, device, batches, backends, m);
    let f = [kind, name.as_str(), at.as_str(), labels.as_str(), data.as_str()];
    assert(str_views(f@) =~= seq![kind@, name@, at@, labels@, data@]);
    let mut out = fill(&BAR_CALL, &f);
    match m {
        Measure::Ms => out.push_str("ms', true);\n"),
        Measure::MaxErr => out.push_str("max_err', true);\n"),
    }
    out
}

/// Writes the calls that draw every chart.
pub fn build_chart_init_js(
    rows: &Vec<E2eBenchRow>,
    pipelines: &Vec<String>,
    devices: &Vec<String>,
    batches: &Vec<usize>,
    backends: &Vec<String>,
) -> (r: String)
    ensures
        r@ == chart_calls(
            e2e_views(rows@),
            texts(pipelines@),
            texts(devices@),
            batches@,
            texts(backends@),
        ),
{
    let ghost v = e2e_views(rows@);
    let ghost ds = texts(devices@);
    let ghost bk = texts(backends@);
    let ghost ps = texts(pipelines@);
    assert(ds.len() == devices@.len());
    let ghost mel = mel_calls(v, ds, batches@, bk);
    let mut out = String::new();
    let mut di: usize = 0;
    assert(out@ =~= each(0, mel));
    while di < devices.len()
        invariant
            di <= devices.len(),
            v == e2e_views(rows@),
            ds == texts(devices@),
            bk == texts(backends@),
            mel == mel_calls(v, ds, batches@, bk),
            out@ == each(di as nat, mel),
        decreases devices.len() - di,
    {
        let ghost before = out@;
        let device = devices[di].as_str();
        assert(ds[di as int] == device@);
        let lat = write_bar_call(rows, "mel", devices, di, batches, backends, Measure::Ms);
        let err = write_bar_call(rows, "mel", devices, di, batches, backends, Measure::MaxErr);
        out.push_str(lat.as_str());
        out.push_str(err.as_str());
        let at = usize_text(di);
        let labels = json_counts(batches);
        let line = chart_datasets_json(
            &LINE_DATA,
            rows,
            "mel",
            device,
            batches,
            backends,
            Measure::Ms,
        );
        let f = [at.as_str(), labels.as_str(), line.as_str()];
        assert(str_views(f@) =~= seq![at@, labels@, line@]);
        let line_call = fill(&LINE_CALL, &f);
        out.push_str(line_call.as_str());
        let scatter = scatter_datasets_json(rows, "mel", device, backends);
        let f = [at.as_str(), scatter.as_str()];
        assert(str_views(f@) =~= seq![at@, scatter@]);
        let scatter_call = fill(&SCATTER_CALL, &f);
        out.push_str(scatter_call.as_str());
        assert(out@ =~= before + (lat@ + err@ + line_call@ + scatter_call@));
        assert(out@ =~= each((di + 1) as nat, mel));
        di += 1;
    }
    let ghost start = out@;
    let ghost others = pipeline_calls(v, ps, ds, batches@, bk);
    let mut p: usize = 0;
    assert(out@ =~= start + each(0, others));
    while p < pipelines.len()
        invariant
            p <= pipelines.len(),
            v == e2e_views(rows@),
            ds == texts(devices@),
            ds.len() == devices@.len(),
            bk == texts(backends@),
            ps == texts(pipelines@),
            others == pipeline_calls(v, ps, ds, batches@, bk),
            out@ == start + each(p as nat, others),
        decreases pipelines.len() - p,
    {
        let ghost before = out@;
        let pipeline = pipelines[p].as_str();
        assert(ps[p as int] == pipeline@);
        if !same_text(pipeline, "mel") {
            let ghost calls = other_calls(v, pipeline@, ds, batches@, bk);
            let mut di: usize = 0;
            assert(out@ =~= before + each(0, calls));
            while di < devices.len()
                invariant
                    di <= devices.len(),
                    v == e2e_views(rows@),
                    ds == texts(devices@),
                    bk == texts(backends@),
                    calls == other_calls(v, pipeline@, ds, batches@, bk),
                    out@ == before + each(di as nat, calls),
                decreases devices.len() - di,
            {
                let lat = write_bar_call(
                    rows,
                    pipeline,
                    devices,
                    di,
                    batches,
                    backends,
                    Measure::Ms,
                );
                let err = write_bar_call(
                    rows,
                    pipeline,
                    devices,
                    di,
                    batches,
                    backends,
                    Measure::MaxErr,
                );
                out.push_str(lat.as_str());
                out.push_str(err.as_str());
                assert(out@ =~= before + each((di + 1) as nat, calls));
                di += 1;
            }
        }
        assert(out@ =~= start + each((p + 1) as nat, others));
        p += 1;
    }
    assert(ps.len() == pipelines@.len());
    out
}

// ---------------------------------------------------------------------------
// Page
// ---------------------------------------------------------------------------

/// What a page is given besides its report: the time, the report as JSON, the judged gates, and the
/// ratios of its heatmaps as JSON numbers.
#[derive(Clone, Debug)]
pub struct E2ePage {
    pub generated: String,
    pub json: String,
    pub gates: Vec<GateLine>,
    pub speed: Vec<Vec<String>>,
    pub error: Vec<Vec<String>>,
}

/// The charts of the pipelines other than mel.
pub open spec fn other_charts(
    pipelines: Seq<Seq<char>>,
    devices: Seq<Seq<char>>,
    batches: Seq<usize>,
    backends: Seq<Seq<char>>,
) -> Seq<Seq<char>>
    decreases pipelines.len(),
{
    if pipelines.len() == 0 {
        Seq::empty()
    } else {
        let head = other_charts(pipelines.drop_last(), devices, batches, backends);
        if pipelines.last() == "mel"@ {
            head
        } else {
            head.push(pipeline_charts(pipelines.last(), devices, batches, backends))
        }
    }
}

/// The section of the other pipelines; nothing where it would be empty.
pub open spec fn other_section(charts: Seq<char>) -> Seq<char> {
    if charts.len() == 0 {
        Seq::empty()
    } else {
        "<section><h2>Other pipelines</h2>"@ + charts + "</section>"@
    }
}

fn write_other_section(
    pipelines: &Vec<String>,
    devices: &Vec<String>,
    batches: &Vec<usize>,
    backends: &Vec<String>,
) -> (r: String)
    ensures
        r@ == other_section(
            joined(
                other_charts(texts(pipelines@), texts(devices@), batches@, texts(backends@)),
                "\n"@,
            ),
        ),
{
    let ghost ps = texts(pipelines@);
    let ghost ds = texts(devices@);
    let ghost bk = texts(backends@);
    let mut parts: Vec<String> = Vec::new();
    let mut i: usize = 0;
    assert(texts(parts@) =~= other_charts(ps.take(0), ds, batches@, bk));
    while i < pipelines.len()
        invariant
            i <= pipelines.len(),
            ps == texts(pipelines@),
            ds == texts(devices@),
            bk == texts(backends@),
            texts(parts@) == other_charts(ps.take(i as int), ds, batches@, bk),
        decreases pipelines.len() - i,
    {
        let ghost before = texts(parts@);
        assert(ps.take(i + 1).drop_last() =~= ps.take(i as int));
        assert(ps.take(i + 1).last() == pipelines@[i as int]@);
        if !same_text(pipelines[i].as_str(), "mel") {
            let part = build_pipeline_chart_sections(
                pipelines[i].as_str(),
                devices,
                batches,
                backends,
            );
            let ghost q = part@;
            parts.push(part);
            assert(texts(parts@) =~= before.push(q));
        }
        i += 1;
    }
    assert(ps.take(ps.len() as int) =~= ps);
    let charts = join_texts(&parts, "\n");
    if charts.as_str().is_empty() {
        assert(charts@.len() == 0);
        return String::new();
    }
    let mut out = "<section><h2>Other pipelines</h2>".to_owned();
    out.push_str(charts.as_str());
    out.push_str("</section>");
    out
}

/// The page of a report, with its table of every row.
pub open spec fn e2e_page(report: E2eBenchReport, page: E2ePage, table: Seq<char>) -> Seq<char> {
    let rows = e2e_views(report.rows@);
    let devices = report_devices(report);
    let batches = report_batches(report);
    let pipelines = arranged::<String>(pipelines_of(rows));
    let backends = arranged::<String>(row_backends(rows));
    let shown = charted(CHART_BACKENDS@, backends);
    filled(
        str_views(E2E_PAGE@),
        seq![
            page.generated@,
            decimal(report_size(report) as nat),
            decimal(report.n_mels as nat),
            decimal(report.iters as nat),
            joined(devices, ", "@),
            joined(decimals(batches), ", "@),
            summary_markup(report),
            distillation_markup(
                teacher_view(report.meta.teacher),
                distill_view(report.meta.distill),
            ),
            per_batch_markup(meta_views(report.meta.per_batch@)),
            gate_table_markup(rows, line_views(page.gates@)),
            joined(legend_spans(backends), "\n"@),
            pipeline_charts("mel"@, devices, batches, shown),
            line_markup(devices, batches),
            scatter_markup(devices),
            ratio_markup(devices, batches, grid_texts(page.speed@), grid_texts(page.error@)),
            other_section(joined(other_charts(pipelines, devices, batches, shown), "\n"@)),
            table,
            report.elapsed_ms.fixed1@,
            page.json@,
            json_list_text(shown),
            colour_map(backends),
            chart_calls(rows, pipelines, devices, batches, shown),
        ],
    )
}

/// Writes the page of a report.
pub fn render_e2e_html(report: &E2eBenchReport, page: &E2ePage) -> (r: String)
    requires
        lines_fit(page.gates@, report.rows@.len()),
    ensures
        exists|table: Seq<char>| #[trigger]
            is_full_table(e2e_views(report.rows@), table) && r@ == e2e_page(*report, *page, table),
{
    let devices = devices_shown(report);
    let batches = batches_shown(report);
    let pipelines = distinct_pipelines(&report.rows);
    proof {
        arranged_is::<String>(pipelines_of(e2e_views(report.rows@)), texts(pipelines@));
    }
    let backends = backends_shown(&report.rows);
    let shown = charted_backends(&backends);
    let size = usize_text(shown_size(report));
    let n_mels = usize_text(report.n_mels);
    let iters = usize_text(report.iters);
    let device_list = join_texts(&devices, ", ");
    let numbers = number_texts(&batches);
    let batch_list = join_texts(&numbers, ", ");
    let summary = build_summary_cards(report);
    let distillation = build_distillation_section(report);
    let per_batch = build_per_batch_train_section(&report.meta.per_batch);
    let gates = build_gate_table(&report.rows, &page.gates);
    let names = build_legend(&backends);
    let mel_charts = build_pipeline_chart_sections("mel", &devices, &batches, &shown);
    let lines = build_line_sections(&devices, &batches);
    let scatter = build_scatter_section(&devices);
    let ratios = build_heatmap_sections(&devices, &batches, &page.speed, &page.error);
    let others = write_other_section(&pipelines, &devices, &batches, &shown);
    let table = build_full_table(&report.rows);
    let shown_json = json_list(&shown);
    let colours = write_colour_map(&backends);
    let calls = build_chart_init_js(&report.rows, &pipelines, &devices, &batches, &shown);
    let f = [
        page.generated.as_str(),
        size.as_str(),
        n_mels.as_str(),
        iters.as_str(),
        device_list.as_str(),
        batch_list.as_str(),
        summary.as_str(),
        distillation.as_str(),
        per_batch.as_str(),
        gates.as_str(),
        names.as_str(),
        mel_charts.as_str(),
        lines.as_str(),
        scatter.as_str(),
        ratios.as_str(),
        others.as_str(),
        table.as_str(),
        report.elapsed_ms.fixed1.as_str(),
        page.json.as_str(),
        shown_json.as_str(),
        colours.as_str(),
        calls.as_str(),
    ];
    assert(str_views(f@) =~= seq![
        page.generated@,
        size@,
        n_mels@,
        iters@,
        device_list@,
        batch_list@,
        summary@,
        distillation@,
        per_batch@,
        gates@,
        names@,
        mel_charts@,
        lines@,
        scatter@,
        ratios@,
        others@,
        table@,
        report.elapsed_ms.fixed1@,
        page.json@,
        shown_json@,
        colours@,
        calls@,
    ]);
    let r = fill(&E2E_PAGE, &f);
    assert(is_full_table(e2e_views(report.rows@), table@));
    assert(r@ == e2e_page(*report, *page, table@));
    r
}

} // verus!

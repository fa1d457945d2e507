//! The table of a peaks bench for a terminal.

use crate::ablation_csv::{starts_with, text_starts_with};
use crate::figure::{Figure, FigureView};
use crate::html::str_views;
use crate::order::{arranged, arranged_is};
use crate::pages::{each, fill, filled};
use crate::text::{
    align_left, align_right, chars_of, decimal, left_aligned, right_aligned, text_of, usize_text,
};
use crate::welch_peaks::{
    line_fits, lines_fit, peaks_axes, peaks_lines, peaks_table, peaks_views, row_batches, row_ks,
    row_lines, PeaksLine, PeaksRowView, WelchPeaksBenchRow,
};
use vstd::prelude::*;

verus! {

/// How many times as fast one row is as another: two decimals, and whether that is at least once.
#[derive(Clone, Debug)]
pub struct Gain {
    pub text: String,
    pub wins: bool,
}

/// The rows whose times a line compares: the first time over the second.
pub open spec fn compared_rows(line: PeaksLine) -> Option<(usize, usize)> {
    match line {
        PeaksLine::FastGain { full, fast } => Some((full, fast)),
        PeaksLine::PathGain { row, fast } => Some((fast, row)),
        PeaksLine::PickerAt { batch, fast, picker } => Some((fast, picker)),
        PeaksLine::NativeAt { batch, fast, native } => Some((fast, native)),
        PeaksLine::KAt { k, fast_row, streaming_row, native_row, picker_row } => match (
            fast_row,
            native_row,
        ) {
            (Some(f), Some(x)) => Some((f, x)),
            _ => None,
        },
        _ => None,
    }
}

/// The rows whose times a line compares.
pub fn rows_compared(line: PeaksLine) -> (r: Option<(usize, usize)>)
    ensures
        r == compared_rows(line),
{
    match line {
        PeaksLine::FastGain { full, fast } => Some((full, fast)),
        PeaksLine::PathGain { row, fast } => Some((fast, row)),
        PeaksLine::PickerAt { fast, picker, .. } => Some((fast, picker)),
        PeaksLine::NativeAt { fast, native, .. } => Some((fast, native)),
        PeaksLine::KAt { fast_row, native_row, .. } => match (fast_row, native_row) {
            (Some(f), Some(x)) => Some((f, x)),
            _ => None,
        },
        _ => None,
    }
}

pub const PEAKS_HEAD: [&'static str; 4] = [
    "\n=== Welch peaks bench n_fft=",
    " batch=",
    " k=",
    " ===\n\n",
];

pub const PEAKS_LABEL: [&'static str; 3] = ["[batch=", " k=", "] "];

pub const PEAKS_ROW: [&'static str; 6] = ["  ", "", " ms=", " out=", " peak_err=", "\n"];

pub const PEAKS_FAST: [&'static str; 2] = ["\n  fast_peaks vs full_welch: ", "x\n"];

pub const PEAKS_PATH: [&'static str; 3] = ["  ", " vs rustfft_fast: ", "x\n"];

pub const PEAKS_PICKER: [&'static str; 8] = [
    "  batch=",
    " k=",
    " rustfft=",
    "ms picker=",
    "ms (",
    ") ratio=",
    "x ",
    "\n",
];

pub const PEAKS_NATIVE: [&'static str; 7] = [
    "  batch=",
    " k=",
    " rustfft=",
    "ms rlx_fused=",
    "ms ratio=",
    "x ",
    "\n",
];

pub const PEAKS_BATCH: [&'static str; 2] = ["  batch=", ":\n"];

pub const PEAKS_K: [&'static str; 2] = ["    k=", ""];

pub const PEAKS_K_FAST: [&'static str; 2] = [" rustfft=", "ms"];

pub const PEAKS_K_STREAM: [&'static str; 2] = [" stream=", "ms"];

pub const PEAKS_K_NATIVE: [&'static str; 2] = [" rlx=", "ms"];

pub const PEAKS_K_PICKER: [&'static str; 2] = [" picker=", "ms"];

pub const PEAKS_K_GAIN: [&'static str; 2] = [" (rlx ", "x vs rustfft)"];

pub const PEAKS_TOTAL: [&'static str; 2] = ["\nTotal: ", " ms\n\n"];

pub const BATCH_CROSSOVER: &'static str =
    "\n  --- batch crossover (rustfft_fast vs auto picker) ---\n";

pub const K_CROSSOVER: &'static str = "\n  --- k crossover (ms by path) ---\n";

pub const PICKER_PREFIX: &'static str = "welch_peaks_picker_";

/// A path without what every picker starts with.
pub open spec fn picked(path: Seq<char>) -> Seq<char> {
    if starts_with(path, PICKER_PREFIX@) {
        path.skip(PICKER_PREFIX@.len() as int)
    } else {
        path
    }
}

fn show_picked(path: &str) -> (r: String)
    ensures
        r@ == picked(path@),
{
    if text_starts_with(path, PICKER_PREFIX) {
        let chars = chars_of(path);
        let prefix = chars_of(PICKER_PREFIX);
        let r = text_of(&chars, prefix.len(), chars.len());
        assert(r@ =~= path@.skip(PICKER_PREFIX@.len() as int));
        r
    } else {
        path.to_owned()
    }
}

/// What shows an error: `n/a` where there is none.
pub open spec fn peak_err_text(e: Option<FigureView>) -> Seq<char> {
    match e {
        Some(f) => f.sci3,
        None => "n/a"@,
    }
}

/// What stands in front of a row where the table holds several batches or peak counts.
pub open spec fn row_label(r: PeaksRowView, labelled: bool) -> Seq<char> {
    if labelled {
        filled(str_views(PEAKS_LABEL@), seq![decimal(r.batch as nat), decimal(r.k as nat)])
    } else {
        Seq::empty()
    }
}

/// The winner of a comparison.
pub open spec fn winner(wins: bool, name: Seq<char>) -> Seq<char> {
    if wins {
        name
    } else {
        "rustfft wins"@
    }
}

/// A time of a row, where there is one.
pub open spec fn time_of(parts: Seq<Seq<char>>, rows: Seq<PeaksRowView>, at: Option<usize>) -> Seq<char> {
    match at {
        Some(i) => filled(parts, seq![rows[i as int].ms.fixed4]),
        None => Seq::empty(),
    }
}

/// The text of a line, given what its comparison came to.
pub open spec fn line_text(rows: Seq<PeaksRowView>, line: PeaksLine, gain: Seq<char>, wins: bool) -> Seq<
    char,
> {
    match line {
        PeaksLine::Row { row, labelled } => {
            let r = rows[row as int];
            filled(
                str_views(PEAKS_ROW@),
                seq![
                    row_label(r, labelled),
                    left_aligned(r.path, 40),
                    right_aligned(r.ms.fixed4, 8),
                    right_aligned(decimal(r.output_len as nat), 6),
                    peak_err_text(r.peak_err),
                ],
            )
        },
        PeaksLine::FastGain { full, fast } => filled(str_views(PEAKS_FAST@), seq![gain]),
        PeaksLine::PathGain { row, fast } => filled(
            str_views(PEAKS_PATH@),
            seq![rows[row as int].path, gain],
        ),
        PeaksLine::PickerAt { batch, fast, picker } => filled(
            str_views(PEAKS_PICKER@),
            seq![
                right_aligned(decimal(batch as nat), 6),
                decimal(rows[fast as int].k as nat),
                rows[fast as int].ms.fixed4,
                rows[picker as int].ms.fixed4,
                picked(rows[picker as int].path),
                gain,
                winner(wins, "picker wins"@),
            ],
        ),
        PeaksLine::NativeAt { batch, fast, native } => filled(
            str_views(PEAKS_NATIVE@),
            seq![
                right_aligned(decimal(batch as nat), 6),
                decimal(rows[fast as int].k as nat),
                rows[fast as int].ms.fixed4,
                rows[native as int].ms.fixed4,
                gain,
                winner(wins, "rlx wins"@),
            ],
        ),
        PeaksLine::BatchHead { batch } => filled(
            str_views(PEAKS_BATCH@),
            seq![decimal(batch as nat)],
        ),
        PeaksLine::KAt { k, fast_row, streaming_row, native_row, picker_row } => filled(
            str_views(PEAKS_K@),
            seq![right_aligned(decimal(k as nat), 3)],
        ) + time_of(str_views(PEAKS_K_FAST@), rows, fast_row) + time_of(
            str_views(PEAKS_K_STREAM@),
            rows,
            streaming_row,
        ) + time_of(str_views(PEAKS_K_NATIVE@), rows, native_row) + time_of(
            str_views(PEAKS_K_PICKER@),
            rows,
            picker_row,
        ) + (if fast_row is Some && native_row is Some {
            filled(str_views(PEAKS_K_GAIN@), seq![gain])
        } else {
            Seq::empty()
        }) + "\n"@,
    }
}

fn show_row(r: &WelchPeaksBenchRow, labelled: bool) -> (s: String)
    ensures
        s@ == filled(
            str_views(PEAKS_ROW@),
            seq![
                row_label(r@, labelled),
                left_aligned(r@.path, 40),
                right_aligned(r@.ms.fixed4, 8),
                right_aligned(decimal(r@.output_len as nat), 6),
                peak_err_text(r@.peak_err),
            ],
        ),
{
    let label = if labelled {
        let b = usize_text(r.batch);
        let k = usize_text(r.k);
        let f = [b.as_str(), k.as_str()];
        assert(str_views(f@) =~= seq![b@, k@]);
        fill(&PEAKS_LABEL, &f)
    } else {
        String::new()
    };
    assert(label@ =~= row_label(r@, labelled));
    let path = align_left(r.path.as_str(), 40);
    let ms = align_right(r.ms.fixed4.as_str(), 8);
    let count = usize_text(r.output_len);
    let out = align_right(count.as_str(), 6);
    let err: &str = match &r.peak_err {
        Some(e) => e.sci3.as_str(),
        None => "n/a",
    };
    assert(err@ == peak_err_text(r@.peak_err));
    let f = [label.as_str(), path.as_str(), ms.as_str(), out.as_str(), err];
    assert(str_views(f@) =~= seq![label@, path@, ms@, out@, err@]);
    fill(&PEAKS_ROW, &f)
}

fn push_time(out: &mut String, parts: &[&str], rows: &Vec<WelchPeaksBenchRow>, at: Option<usize>)
    requires
        parts@.len() == 2,
        at matches Some(i) ==> i < rows@.len(),
    ensures
        final(out)@ == old(out)@ + time_of(str_views(parts@), peaks_views(rows@), at),
{
    match at {
        Some(i) => {
            assert(peaks_views(rows@)[i as int] == rows@[i as int]@);
            let f = [rows[i].ms.fixed4.as_str()];
            assert(str_views(f@) =~= seq![rows@[i as int]@.ms.fixed4]);
            let part = fill(parts, &f);
            out.push_str(part.as_str());
        },
        None => {
            assert(out@ =~= out@ + Seq::<char>::empty());
        },
    }
}

/// Shows a line, given what its comparison came to.
pub fn show_peaks_line(rows: &Vec<WelchPeaksBenchRow>, line: PeaksLine, gain: &Gain) -> (r: String)
    requires
        line_fits(line, rows@.len()),
    ensures
        r@ == line_text(peaks_views(rows@), line, gain.text@, gain.wins),
{
    let ghost v = peaks_views(rows@);
    match line {
        PeaksLine::Row { row, labelled } => {
            assert(v[row as int] == rows@[row as int]@);
            show_row(&rows[row], labelled)
        },
        PeaksLine::FastGain { full, fast } => {
            let f = [gain.text.as_str()];
            assert(str_views(f@) =~= seq![gain.text@]);
            fill(&PEAKS_FAST, &f)
        },
        PeaksLine::PathGain { row, fast } => {
            assert(v[row as int] == rows@[row as int]@);
            let f = [rows[row].path.as_str(), gain.text.as_str()];
            assert(str_views(f@) =~= seq![v[row as int].path, gain.text@]);
            fill(&PEAKS_PATH, &f)
        },
        PeaksLine::PickerAt { batch, fast, picker } => {
            assert(v[fast as int] == rows@[fast as int]@);
            assert(v[picker as int] == rows@[picker as int]@);
            let count = usize_text(batch);
            let b = align_right(count.as_str(), 6);
            let k = usize_text(rows[fast].k);
            let name = show_picked(rows[picker].path.as_str());
            let won: &str = if gain.wins {
                "picker wins"
            } else {
                "rustfft wins"
            };
            let f = [
                b.as_str(),
                k.as_str(),
                rows[fast].ms.fixed4.as_str(),
                rows[picker].ms.fixed4.as_str(),
                name.as_str(),
                gain.text.as_str(),
                won,
            ];
            assert(str_views(f@) =~= seq![
                b@,
                k@,
                v[fast as int].ms.fixed4,
                v[picker as int].ms.fixed4,
                name@,
                gain.text@,
                won@,
            ]);
            fill(&PEAKS_PICKER, &f)
        },
        PeaksLine::NativeAt { batch, fast, native } => {
            assert(v[fast as int] == rows@[fast as int]@);
            assert(v[native as int] == rows@[native as int]@);
            let count = usize_text(batch);
            let b = align_right(count.as_str(), 6);
            let k = usize_text(rows[fast].k);
            let won: &str = if gain.wins {
                "rlx wins"
            } else {
                "rustfft wins"
            };
            let f = [
                b.as_str(),
                k.as_str(),
                rows[fast].ms.fixed4.as_str(),
                rows[native].ms.fixed4.as_str(),
                gain.text.as_str(),
                won,
            ];
            assert(str_views(f@) =~= seq![
                b@,
                k@,
                v[fast as int].ms.fixed4,
                v[native as int].ms.fixed4,
                gain.text@,
                won@,
            ]);
            fill(&PEAKS_NATIVE, &f)
        },
        PeaksLine::BatchHead { batch } => {
            let b = usize_text(batch);
            let f = [b.as_str()];
            assert(str_views(f@) =~= seq![b@]);
            fill(&PEAKS_BATCH, &f)
        },
        PeaksLine::KAt { k, fast_row, streaming_row, native_row, picker_row } => {
            let count = usize_text(k);
            let shown = align_right(count.as_str(), 3);
            let f = [shown.as_str()];
            assert(str_views(f@) =~= seq![shown@]);
            let mut out = fill(&PEAKS_K, &f);
            push_time(&mut out, &PEAKS_K_FAST, rows, fast_row);
            push_time(&mut out, &PEAKS_K_STREAM, rows, streaming_row);
            push_time(&mut out, &PEAKS_K_NATIVE, rows, native_row);
            push_time(&mut out, &PEAKS_K_PICKER, rows, picker_row);
            if fast_row.is_some() && native_row.is_some() {
                let f = [gain.text.as_str()];
                assert(str_views(f@) =~= seq![gain.text@]);
                let part = fill(&PEAKS_K_GAIN, &f);
                out.push_str(part.as_str());
            } else {
                assert(out@ =~= out@ + Seq::<char>::empty());
            }
            out.push_str("\n");
            out
        },
    }
}

/// The texts of some lines, each with its comparison.
pub open spec fn line_texts(
    rows: Seq<PeaksRowView>,
    lines: Seq<PeaksLine>,
    gains: Seq<Gain>,
) -> spec_fn(int) -> Seq<char> {
    |i: int| line_text(rows, lines[i], gains[i].text@, gains[i].wins)
}

/// What stands between the rows and the comparisons.
pub open spec fn crossover_head(batches: nat, ks: nat) -> Seq<char> {
    if ks > 1 {
        K_CROSSOVER@
    } else if batches > 1 && ks == 1 {
        BATCH_CROSSOVER@
    } else {
        Seq::empty()
    }
}

/// A bench: its sizes and its rows.
#[derive(Clone, Debug)]
pub struct WelchPeaksBenchReport {
    pub n_fft: usize,
    pub batch: usize,
    pub k: usize,
    pub elapsed_ms: Figure,
    pub rows: Vec<WelchPeaksBenchRow>,
}

/// The table of a bench, given what the comparisons of its lines came to: the rows, then the
/// comparisons under their heading, then the time that the bench took.
pub open spec fn peaks_report(report: WelchPeaksBenchReport, gains: Seq<Gain>) -> Seq<char> {
    let rows = peaks_views(report.rows@);
    let lines = peaks_lines(rows);
    let n = rows.len();
    filled(
        str_views(PEAKS_HEAD@),
        seq![decimal(report.n_fft as nat), decimal(report.batch as nat), decimal(report.k as nat)],
    ) + each(n, line_texts(rows, lines, gains)) + crossover_head(
        arranged::<usize>(row_batches(rows)).len(),
        arranged::<usize>(row_ks(rows)).len(),
    ) + each(
        (lines.len() - n) as nat,
        line_texts(rows, lines.skip(n as int), gains.skip(n as int)),
    ) + filled(str_views(PEAKS_TOTAL@), seq![report.elapsed_ms@.fixed1])
}

fn push_lines(
    out: &mut String,
    rows: &Vec<WelchPeaksBenchRow>,
    lines: &Vec<PeaksLine>,
    gains: &Vec<Gain>,
    from: usize,
    to: usize,
)
    requires
        from <= to <= lines@.len(),
        gains@.len() == lines@.len(),
        lines_fit(lines@, rows@.len()),
    ensures
        final(out)@ == old(out)@ + each(
            (to - from) as nat,
            line_texts(
                peaks_views(rows@),
                lines@.skip(from as int),
                gains@.skip(from as int),
            ),
        ),
{
    let ghost start = out@;
    let ghost texts = line_texts(
        peaks_views(rows@),
        lines@.skip(from as int),
        gains@.skip(from as int),
    );
    let mut i: usize = from;
    assert(out@ =~= start + each(0, texts));
    while i < to
        invariant
            from <= i <= to,
            to <= lines@.len(),
            gains@.len() == lines@.len(),
            lines_fit(lines@, rows@.len()),
            texts == line_texts(
                peaks_views(rows@),
                lines@.skip(from as int),
                gains@.skip(from as int),
            ),
            out@ == start + each((i - from) as nat, texts),
        decreases to - i,
    {
        let ghost k = i - from;
        assert(lines@.skip(from as int)[k] == lines@[i as int]);
        assert(gains@.skip(from as int)[k] == gains@[i as int]);
        assert(line_fits(lines@[i as int], rows@.len()));
        let line = show_peaks_line(rows, lines[i], &gains[i]);
        out.push_str(line.as_str());
        assert(out@ =~= start + each((k + 1) as nat, texts));
        i += 1;
    }
}

/// Shows a bench, given what the comparisons of its lines came to, one for each line of
/// [`peaks_table`].
pub fn welch_peaks_text(report: &WelchPeaksBenchReport, gains: &Vec<Gain>) -> (r: String)
    requires
        gains@.len() == peaks_lines(peaks_views(report.rows@)).len(),
    ensures
        r@ == peaks_report(*report, gains@),
{
    let rows = &report.rows;
    let ghost v = peaks_views(rows@);
    let lines = peaks_table(rows);
    let (batches, ks) = peaks_axes(rows);
    proof {
        arranged_is::<usize>(row_batches(v), batches@);
        arranged_is::<usize>(row_ks(v), ks@);
        assert(row_lines(v.len(), true).len() == v.len());
        assert(row_lines(v.len(), false).len() == v.len());
        assert(lines@.len() >= v.len());
        assert(lines@.skip(0) =~= lines@);
        assert(gains@.skip(0) =~= gains@);
    }
    let n_fft = usize_text(report.n_fft);
    let batch = usize_text(report.batch);
    let k = usize_text(report.k);
    let f = [n_fft.as_str(), batch.as_str(), k.as_str()];
    assert(str_views(f@) =~= seq![n_fft@, batch@, k@]);
    let mut out = fill(&PEAKS_HEAD, &f);
    let count: usize = rows.len();
    push_lines(&mut out, rows, &lines, gains, 0, count);
    if ks.len() > 1 {
        out.push_str(K_CROSSOVER);
    } else if batches.len() > 1 && ks.len() == 1 {
        out.push_str(BATCH_CROSSOVER);
    } else {
        assert(out@ =~= out@ + Seq::<char>::empty());
    }
    push_lines(&mut out, rows, &lines, gains, count, lines.len());
    let f = [report.elapsed_ms.fixed1.as_str()];
    assert(str_views(f@) =~= seq![report.elapsed_ms@.fixed1]);
    let end = fill(&PEAKS_TOTAL, &f);
    out.push_str(end.as_str());
    out
}

} // verus!

//! Ablation reports as CSV text, and back.

use crate::ablation::{ablation_row_ok, distinct_sizes, ref_views, row_views, sizes, top5_variants_per_n_fft,
    top_five, top_views, usable, AblationReport, AblationRow, RowView};
use crate::config::{gpu_label, is_gpu_device_label};
use crate::csv::{bare, csv_escape, escaped, fields_of, lines_of, lines_text, special, split_csv_line, split_lines,
    with_ends, written_fields_read_back, written_lines_read_back};
use crate::figure::{is_less, is_nan, less, nan, Figure, FigureView};
use crate::order::{ascending, distinct_texts};
use crate::text::{chars_of, copy_text, decimal, join_texts, joined, lemma_decimal, lower_text,
    number_within, parse_usize, pieces, same_text, split_text, text_of, texts, trim_text, trimmed,
    usize_text};
use vstd::prelude::*;

verus! {

pub const ROWS_CSV: &'static str = "ablation_rows.csv";

pub const META_CSV: &'static str = "ablation_meta.csv";

pub const TOP5_CSV: &'static str = "ablation_top5.csv";

pub const LIMITS_CSV: &'static str = "ablation_limits.csv";

pub const ROWS_HEADER: &'static str =
    "tier,variant,direction,n_fft,batch,device,iters,ms,max_err,train_steps,param_count,memory_bytes,status,note";

pub const TOP5_HEADER: &'static str =
    "n_fft,rank,variant,direction,device,batch,ms,max_err,param_count,memory_bytes";

pub const LIMITS_HEADER: &'static str =
    "n_fft,device,device_kind,ok_count,fail_count,max_batch,fastest_variant,fastest_ms,fastest_max_err,max_n_fft_rustfft";

/// A file name below a directory.
pub open spec fn below(dir: Seq<char>, name: Seq<char>) -> Seq<char> {
    if dir.len() == 0 {
        name
    } else if dir.last() == '/' {
        dir + name
    } else {
        dir.push('/') + name
    }
}

/// A file name below a directory.
pub fn join_path(dir: &str, name: &str) -> (r: String)
    ensures
        r@ == below(dir@, name@),
{
    let chars = chars_of(dir);
    let n: usize = chars.len();
    let mut out = dir.to_owned();
    if n > 0 && chars[n - 1] != '/' {
        out.push('/');
    }
    out.push_str(name);
    assert(out@ =~= below(dir@, name@));
    out
}

/// The files of a report below a directory: rows, settings, best variants, limits.
pub fn ablation_csv_bundle_paths(dir: &str) -> (r: [String; 4])
    ensures
        r@[0]@ == below(dir@, ROWS_CSV@),
        r@[1]@ == below(dir@, META_CSV@),
        r@[2]@ == below(dir@, TOP5_CSV@),
        r@[3]@ == below(dir@, LIMITS_CSV@),
{
    [
        join_path(dir, ROWS_CSV),
        join_path(dir, META_CSV),
        join_path(dir, TOP5_CSV),
        join_path(dir, LIMITS_CSV),
    ]
}

/// How a file shows a figure.
pub open spec fn csv_figure(f: FigureView) -> Seq<char> {
    if nan(f.bits) {
        "nan"@
    } else {
        f.plain
    }
}

fn figure_text(f: &Figure) -> (r: String)
    ensures
        r@ == csv_figure(f@),
{
    if is_nan(f.bits) {
        "nan".to_owned()
    } else {
        copy_text(&f.plain)
    }
}

/// An optional text, or the empty one.
pub open spec fn text_or_empty(s: Option<Seq<char>>) -> Seq<char> {
    match s {
        Some(t) => t,
        None => Seq::empty(),
    }
}

/// The cells of a row.
pub open spec fn row_cells(r: RowView) -> Seq<Seq<char>> {
    seq![
        escaped(r.tier),
        escaped(r.variant),
        escaped(r.direction),
        decimal(r.n_fft as nat),
        decimal(r.batch as nat),
        escaped(r.device),
        decimal(r.iters as nat),
        csv_figure(r.ms),
        csv_figure(r.max_err),
        decimal(r.train_steps as nat),
        decimal(r.param_count as nat),
        decimal(r.memory_bytes as nat),
        escaped(r.status),
        escaped(text_or_empty(r.note)),
    ]
}

/// The line of a row.
pub open spec fn row_line(r: RowView) -> Seq<char> {
    joined(row_cells(r), seq![','])
}

/// The lines of a file of rows.
pub open spec fn rows_lines(rows: Seq<RowView>) -> Seq<Seq<char>> {
    seq![ROWS_HEADER@] + rows.map_values(|r: RowView| row_line(r))
}

fn join_cells(cells: &Vec<String>) -> (r: String)
    ensures
        r@ == joined(texts(cells@), seq![',']),
{
    proof {
        reveal_strlit(",");
        assert(","@ =~= seq![',']);
    }
    join_texts(cells, ",")
}

fn line_of_row(r: &AblationRow) -> (line: String)
    ensures
        line@ == row_line(r@),
{
    let note = match &r.note {
        Some(t) => copy_text(t),
        None => String::new(),
    };
    assert(note@ == text_or_empty(r@.note));
    let cells = vec![
        csv_escape(r.tier.as_str()),
        csv_escape(r.variant.as_str()),
        csv_escape(r.direction.as_str()),
        usize_text(r.n_fft),
        usize_text(r.batch),
        csv_escape(r.device.as_str()),
        usize_text(r.iters),
        figure_text(&r.ms),
        figure_text(&r.max_err),
        usize_text(r.train_steps),
        usize_text(r.param_count),
        usize_text(r.memory_bytes),
        csv_escape(r.status.as_str()),
        csv_escape(note.as_str()),
    ];
    assert(texts(cells@) =~= row_cells(r@));
    join_cells(&cells)
}

/// The text of a file of rows.
pub fn rows_csv_text(rows: &Vec<AblationRow>) -> (r: String)
    ensures
        r@ == with_ends(rows_lines(row_views(rows@))),
{
    let ghost v = row_views(rows@);
    let mut lines: Vec<String> = Vec::new();
    lines.push(ROWS_HEADER.to_owned());
    let mut i: usize = 0;
    while i < rows.len()
        invariant
            i <= rows.len(),
            v == row_views(rows@),
            lines.len() == i + 1,
            lines@[0]@ == ROWS_HEADER@,
            forall|k: int| 0 <= k < i ==> (#[trigger] lines@[k + 1])@ == row_line(v[k]),
        decreases rows.len() - i,
    {
        lines.push(line_of_row(&rows[i]));
        i += 1;
    }
    proof {
        let all = rows_lines(v);
        assert forall|k: int| 0 <= k < all.len() implies texts(lines@)[k] == all[k] by {
            if k > 0 {
                assert(lines@[(k - 1) + 1]@ == row_line(v[k - 1]));
            }
        }
        assert(texts(lines@) =~= all);
    }
    lines_text(&lines)
}

// ---------------------------------------------------------------------------
// Reading rows
// ---------------------------------------------------------------------------

/// A row as a file holds it: measured values are texts.
#[derive(Clone, Debug)]
pub struct RawRow {
    pub tier: String,
    pub variant: String,
    pub direction: String,
    pub n_fft: usize,
    pub batch: usize,
    pub device: String,
    pub iters: usize,
    pub ms: String,
    pub max_err: String,
    pub train_steps: usize,
    pub param_count: usize,
    pub memory_bytes: usize,
    pub status: String,
    pub note: Option<String>,
}

/// What a raw row stands for.
pub struct RawView {
    pub tier: Seq<char>,
    pub variant: Seq<char>,
    pub direction: Seq<char>,
    pub n_fft: usize,
    pub batch: usize,
    pub device: Seq<char>,
    pub iters: usize,
    pub ms: Seq<char>,
    pub max_err: Seq<char>,
    pub train_steps: usize,
    pub param_count: usize,
    pub memory_bytes: usize,
    pub status: Seq<char>,
    pub note: Option<Seq<char>>,
}

impl View for RawRow {
    type V = RawView;

    open spec fn view(&self) -> RawView {
        RawView {
            tier: self.tier@,
            variant: self.variant@,
            direction: self.direction@,
            n_fft: self.n_fft,
            batch: self.batch,
            device: self.device@,
            iters: self.iters,
            ms: self.ms@,
            max_err: self.max_err@,
            train_steps: self.train_steps,
            param_count: self.param_count,
            memory_bytes: self.memory_bytes,
            status: self.status@,
            note: crate::ablation::note_view(self.note),
        }
    }
}

impl RawRow {
    /// The row with its measured values read.
    pub fn with_figures(self, ms: Figure, max_err: Figure) -> (r: AblationRow)
        ensures
            r@ == (RowView {
                tier: self@.tier,
                variant: self@.variant,
                direction: self@.direction,
                n_fft: self@.n_fft,
                batch: self@.batch,
                device: self@.device,
                iters: self@.iters,
                ms: ms@,
                max_err: max_err@,
                train_steps: self@.train_steps,
                param_count: self@.param_count,
                memory_bytes: self@.memory_bytes,
                status: self@.status,
                note: self@.note,
            }),
    {
        AblationRow {
            tier: self.tier,
            variant: self.variant,
            direction: self.direction,
            n_fft: self.n_fft,
            batch: self.batch,
            device: self.device,
            iters: self.iters,
            ms,
            max_err,
            train_steps: self.train_steps,
            param_count: self.param_count,
            memory_bytes: self.memory_bytes,
            status: self.status,
            note: self.note,
        }
    }
}

/// What is wrong with a file of rows.
#[derive(Clone, Debug)]
pub enum CsvError {
    /// The file holds no line.
    Empty,
    /// The first line is no header of rows.
    BadHeader,
    /// A line has too few fields.
    BadRow { line: String },
    /// A field of a line is no number.
    BadNumber { field: &'static str },
}

/// What is wrong with a line.
pub enum RowFault {
    TooFew,
    NoNumber(Seq<char>),
}

/// A number field, zero where it is none.
pub open spec fn number_or_zero(s: Seq<char>) -> usize {
    match number_within(s, usize::MAX as nat) {
        Some(v) => v as usize,
        None => 0,
    }
}

/// The row that some fields hold.
pub open spec fn row_of_fields(f: Seq<Seq<char>>) -> Result<RawView, RowFault> {
    let max = usize::MAX as nat;
    if f.len() < 14 {
        Err(RowFault::TooFew)
    } else {
        match (number_within(f[3], max), number_within(f[4], max), number_within(f[6], max), number_within(f[9], max)) {
            (None, _, _, _) => Err(RowFault::NoNumber("n_fft"@)),
            (_, None, _, _) => Err(RowFault::NoNumber("batch"@)),
            (_, _, None, _) => Err(RowFault::NoNumber("iters"@)),
            (_, _, _, None) => Err(RowFault::NoNumber("train_steps"@)),
            (Some(n_fft), Some(batch), Some(iters), Some(train_steps)) => Ok(
                RawView {
                    tier: f[0],
                    variant: f[1],
                    direction: f[2],
                    n_fft: n_fft as usize,
                    batch: batch as usize,
                    device: f[5],
                    iters: iters as usize,
                    ms: f[7],
                    max_err: f[8],
                    train_steps: train_steps as usize,
                    param_count: number_or_zero(f[10]),
                    memory_bytes: number_or_zero(f[11]),
                    status: if f[12].len() == 0 {
                        "ok"@
                    } else {
                        f[12]
                    },
                    note: if f[13].len() == 0 {
                        None
                    } else {
                        Some(f[13])
                    },
                },
            ),
        }
    }
}

/// The rows of some lines, up to the first line that holds none; blank lines are skipped.
pub open spec fn rows_of_lines(lines: Seq<Seq<char>>) -> Result<
    Seq<RawView>,
    (Seq<char>, RowFault),
>
    decreases lines.len(),
{
    if lines.len() == 0 {
        Ok(Seq::empty())
    } else {
        match rows_of_lines(lines.drop_last()) {
            Err(e) => Err(e),
            Ok(rows) => if trimmed(lines.last()).len() == 0 {
                Ok(rows)
            } else {
                match row_of_fields(fields_of(lines.last())) {
                    Ok(r) => Ok(rows.push(r)),
                    Err(f) => Err((lines.last(), f)),
                }
            },
        }
    }
}

/// Whether `s` starts with `p`.
pub open spec fn starts_with(s: Seq<char>, p: Seq<char>) -> bool {
    p.len() <= s.len() && s.take(p.len() as int) == p
}

/// Whether a text starts with another.
pub fn text_starts_with(s: &str, p: &str) -> (r: bool)
    ensures
        r == starts_with(s@, p@),
{
    let a = chars_of(s);
    let b = chars_of(p);
    if b.len() > a.len() {
        return false;
    }
    let head = text_of(&a, 0, b.len());
    assert(head@ =~= s@.take(p@.len() as int));
    same_text(head.as_str(), p)
}

/// The views of raw rows.
pub open spec fn raw_views(rows: Seq<RawRow>) -> Seq<RawView> {
    rows.map_values(|r: RawRow| r@)
}

/// What reading a file of rows gives.
pub open spec fn rows_outcome(text: Seq<char>, r: Result<Vec<RawRow>, CsvError>) -> bool {
    let lines = lines_of(text);
    if lines.len() == 0 {
        r matches Err(e) && e is Empty
    } else if !starts_with(lines[0], "tier,variant,direction"@) {
        r matches Err(e) && e is BadHeader
    } else {
        match rows_of_lines(lines.drop_first()) {
            Ok(rows) => r matches Ok(v) && raw_views(v@) == rows,
            Err((l, RowFault::TooFew)) => r matches Err(CsvError::BadRow { line }) && line@ == l,
            Err((_, RowFault::NoNumber(name))) => r matches Err(CsvError::BadNumber { field })
                && field@ == name,
        }
    }
}

fn parse_row(f: &Vec<String>, line: &String) -> (r: Result<RawRow, CsvError>)
    ensures
        match row_of_fields(texts(f@)) {
            Ok(v) => r matches Ok(row) && row@ == v,
            Err(RowFault::TooFew) => r matches Err(CsvError::BadRow { line: l }) && l@ == line@,
            Err(RowFault::NoNumber(name)) => r matches Err(CsvError::BadNumber { field })
                && field@ == name,
        },
{
    let ghost t = texts(f@);
    if f.len() < 14 {
        return Err(CsvError::BadRow { line: copy_text(line) });
    }
    assert(forall|k: int| 0 <= k < 14 ==> #[trigger] t[k] == f@[k]@);
    let n_fft: usize = match parse_usize(f[3].as_str()) {
        Some(v) => v,
        None => {
            return Err(CsvError::BadNumber { field: "n_fft" });
        },
    };
    let batch: usize = match parse_usize(f[4].as_str()) {
        Some(v) => v,
        None => {
            return Err(CsvError::BadNumber { field: "batch" });
        },
    };
    let iters: usize = match parse_usize(f[6].as_str()) {
        Some(v) => v,
        None => {
            return Err(CsvError::BadNumber { field: "iters" });
        },
    };
    let train_steps: usize = match parse_usize(f[9].as_str()) {
        Some(v) => v,
        None => {
            return Err(CsvError::BadNumber { field: "train_steps" });
        },
    };
    Ok(
        RawRow {
            tier: copy_text(&f[0]),
            variant: copy_text(&f[1]),
            direction: copy_text(&f[2]),
            n_fft,
            batch,
            device: copy_text(&f[5]),
            iters,
            ms: copy_text(&f[7]),
            max_err: copy_text(&f[8]),
            train_steps,
            param_count: match parse_usize(f[10].as_str()) {
                Some(v) => v,
                None => 0,
            },
            memory_bytes: match parse_usize(f[11].as_str()) {
                Some(v) => v,
                None => 0,
            },
            status: if f[12].as_str().is_empty() {
                "ok".to_owned()
            } else {
                copy_text(&f[12])
            },
            note: if f[13].as_str().is_empty() {
                None
            } else {
                Some(copy_text(&f[13]))
            },
        },
    )
}

proof fn lemma_rows_stop(lines: Seq<Seq<char>>, i: int)
    requires
        0 <= i <= lines.len(),
        rows_of_lines(lines.take(i)) is Err,
    ensures
        rows_of_lines(lines) == rows_of_lines(lines.take(i)),
    decreases lines.len() - i,
{
    if i == lines.len() {
        assert(lines.take(i) =~= lines);
    } else {
        assert(lines.take(i + 1).drop_last() =~= lines.take(i));
        lemma_rows_stop(lines, i + 1);
    }
}

/// Reads a file of rows.
pub fn rows_from_csv_text(text: &str) -> (r: Result<Vec<RawRow>, CsvError>)
    ensures
        rows_outcome(text@, r),
{
    let lines = split_lines(text);
    let ghost all = lines_of(text@);
    if lines.len() == 0 {
        return Err(CsvError::Empty);
    }
    assert(all[0] == lines@[0]@);
    if !text_starts_with(lines[0].as_str(), "tier,variant,direction") {
        return Err(CsvError::BadHeader);
    }
    let ghost body = all.drop_first();
    let mut rows: Vec<RawRow> = Vec::new();
    let mut i: usize = 1;
    assert(body.take(0) =~= Seq::empty());
    assert(raw_views(rows@) =~= Seq::empty());
    while i < lines.len()
        invariant
            1 <= i <= lines.len(),
            all == texts(lines@),
            all == lines_of(text@),
            starts_with(all[0], "tier,variant,direction"@),
            body == all.drop_first(),
            rows_of_lines(body.take(i - 1)) == Ok::<Seq<RawView>, (Seq<char>, RowFault)>(
                raw_views(rows@),
            ),
        decreases lines.len() - i,
    {
        proof {
            assert(body.take(i as int).drop_last() =~= body.take(i - 1));
            assert(body.take(i as int).last() == lines@[i as int]@);
        }
        if trim_text(lines[i].as_str()).as_str().is_empty() {
            i += 1;
            continue;
        }
        let f = split_csv_line(lines[i].as_str());
        match parse_row(&f, &lines[i]) {
            Ok(row) => {
                let ghost was = raw_views(rows@);
                let ghost v = row@;
                rows.push(row);
                assert(raw_views(rows@) =~= was.push(v));
            },
            Err(e) => {
                proof {
                    lemma_rows_stop(body, i as int);
                }
                return Err(e);
            },
        }
        i += 1;
    }
    assert(body.take(body.len() as int) =~= body);
    Ok(rows)
}

// ---------------------------------------------------------------------------
// Rows read back
// ---------------------------------------------------------------------------

/// A row as reading its line gives it.
pub open spec fn raw_of(r: RowView) -> RawView {
    RawView {
        tier: r.tier,
        variant: r.variant,
        direction: r.direction,
        n_fft: r.n_fft,
        batch: r.batch,
        device: r.device,
        iters: r.iters,
        ms: csv_figure(r.ms),
        max_err: csv_figure(r.max_err),
        train_steps: r.train_steps,
        param_count: r.param_count,
        memory_bytes: r.memory_bytes,
        status: r.status,
        note: r.note,
    }
}

/// Whether a row survives its line: it has a status, an empty note is no note, and the texts of
/// its figures need no quotation marks.
pub open spec fn storable(r: RowView) -> bool {
    &&& r.status.len() > 0
    &&& r.note != Some(Seq::<char>::empty())
    &&& bare(csv_figure(r.ms))
    &&& bare(csv_figure(r.max_err))
}

/// Whether a row survives its file: its line holds no line feed either.
pub open spec fn one_line(r: RowView) -> bool {
    &&& !r.tier.contains('\n')
    &&& !r.variant.contains('\n')
    &&& !r.direction.contains('\n')
    &&& !r.device.contains('\n')
    &&& !r.status.contains('\n')
    &&& !text_or_empty(r.note).contains('\n')
}

/// The line of a row reads back as the row.
pub proof fn row_line_reads_back(r: RowView)
    requires
        storable(r),
    ensures
        row_of_fields(fields_of(row_line(r))) matches Ok(v) && v == raw_of(r),
{
    let f = seq![
        r.tier,
        r.variant,
        r.direction,
        decimal(r.n_fft as nat),
        decimal(r.batch as nat),
        r.device,
        decimal(r.iters as nat),
        csv_figure(r.ms),
        csv_figure(r.max_err),
        decimal(r.train_steps as nat),
        decimal(r.param_count as nat),
        decimal(r.memory_bytes as nat),
        r.status,
        text_or_empty(r.note),
    ];
    lemma_decimal_bare(r.n_fft as nat);
    lemma_decimal_bare(r.batch as nat);
    lemma_decimal_bare(r.iters as nat);
    lemma_decimal_bare(r.train_steps as nat);
    lemma_decimal_bare(r.param_count as nat);
    lemma_decimal_bare(r.memory_bytes as nat);
    assert(row_cells(r) =~= f.map_values(|x: Seq<char>| escaped(x)));
    written_fields_read_back(f);
    assert(fields_of(row_line(r)) == f);
    crate::text::decimal_reads_back(r.n_fft as nat, usize::MAX as nat);
    crate::text::decimal_reads_back(r.batch as nat, usize::MAX as nat);
    crate::text::decimal_reads_back(r.iters as nat, usize::MAX as nat);
    crate::text::decimal_reads_back(r.train_steps as nat, usize::MAX as nat);
    crate::text::decimal_reads_back(r.param_count as nat, usize::MAX as nat);
    crate::text::decimal_reads_back(r.memory_bytes as nat, usize::MAX as nat);
}

proof fn lemma_decimal_bare(n: nat)
    ensures
        bare(decimal(n)),
        escaped(decimal(n)) == decimal(n),
{
    lemma_decimal(n);
    assert forall|i: int| 0 <= i < decimal(n).len() implies !special(#[trigger] decimal(n)[i]) by {
        assert(crate::text::digit(decimal(n)[i]));
    }
}

/// A file of rows reads back as the rows.
pub proof fn rows_file_reads_back(rows: Seq<RowView>)
    requires
        forall|i: int| 0 <= i < rows.len() ==> storable(#[trigger] rows[i]) && one_line(rows[i]),
    ensures
        ({
            let lines = lines_of(with_ends(rows_lines(rows)));
            &&& lines.len() > 0
            &&& starts_with(lines[0], "tier,variant,direction"@)
            &&& rows_of_lines(lines.drop_first()) matches Ok(v) && v == rows.map_values(
                |r: RowView| raw_of(r),
            )
        }),
{
    let lines = rows_lines(rows);
    assert forall|i: int| 0 <= i < lines.len() implies !(#[trigger] lines[i]).contains('\n') && (
    lines[i].len() > 0 ==> lines[i].last() != '\r') by {
        if i == 0 {
            lemma_header();
        } else {
            lemma_row_line(rows[i - 1]);
            assert(lines[i] == row_line(rows[i - 1]));
        }
    }
    written_lines_read_back(lines);
    lemma_header();
    assert(lines.drop_first() =~= rows.map_values(|r: RowView| row_line(r)));
    lemma_rows_of_lines(rows);
}

proof fn lemma_header()
    ensures
        !ROWS_HEADER@.contains('\n'),
        ROWS_HEADER@.last() != '\r',
        starts_with(ROWS_HEADER@, "tier,variant,direction"@),
{
    reveal_strlit(
        "tier,variant,direction,n_fft,batch,device,iters,ms,max_err,train_steps,param_count,memory_bytes,status,note",
    );
    reveal_strlit("tier,variant,direction");
    assert(ROWS_HEADER@.take("tier,variant,direction"@.len() as int) =~= "tier,variant,direction"@);
}

proof fn lemma_rows_of_lines(rows: Seq<RowView>)
    requires
        forall|i: int| 0 <= i < rows.len() ==> storable(#[trigger] rows[i]) && one_line(rows[i]),
    ensures
        rows_of_lines(rows.map_values(|r: RowView| row_line(r))) matches Ok(v) && v
            == rows.map_values(|r: RowView| raw_of(r)),
    decreases rows.len(),
{
    let lines = rows.map_values(|r: RowView| row_line(r));
    if rows.len() == 0 {
        assert(rows.map_values(|r: RowView| raw_of(r)) =~= Seq::empty());
    } else {
        let d = rows.drop_last();
        assert forall|i: int| 0 <= i < d.len() implies storable(#[trigger] d[i]) && one_line(
            d[i],
        ) by {
            assert(d[i] == rows[i]);
        }
        lemma_rows_of_lines(d);
        assert(lines.drop_last() =~= d.map_values(|r: RowView| row_line(r)));
        let r = rows.last();
        assert(storable(rows[rows.len() - 1]));
        row_line_reads_back(r);
        lemma_line_not_blank(r);
        assert(rows.map_values(|x: RowView| raw_of(x)) =~= d.map_values(
            |x: RowView| raw_of(x),
        ).push(raw_of(r)));
    }
}

proof fn lemma_joined_contains(parts: Seq<Seq<char>>, c: char)
    requires
        c != ',',
        forall|i: int| 0 <= i < parts.len() ==> !(#[trigger] parts[i]).contains(c),
    ensures
        !joined(parts, seq![',']).contains(c),
    decreases parts.len(),
{
    if parts.len() > 1 {
        let d = parts.drop_last();
        assert forall|i: int| 0 <= i < d.len() implies !(#[trigger] d[i]).contains(c) by {
            assert(d[i] == parts[i]);
        }
        lemma_joined_contains(d, c);
        let a = joined(d, seq![',']);
        let s = joined(parts, seq![',']);
        assert(!parts[parts.len() - 1].contains(c));
        if s.contains(c) {
            let k = choose|k: int| 0 <= k < s.len() && s[k] == c;
            if k < a.len() {
                assert(a[k] == c);
            } else if k > a.len() {
                assert(parts.last()[k - a.len() - 1] == c);
            }
        }
    } else if parts.len() == 1 {
        assert(!parts[0].contains(c));
    }
}

proof fn lemma_escaped_contains(s: Seq<char>, c: char)
    requires
        c != '"',
        !s.contains(c),
    ensures
        !escaped(s).contains(c),
{
    lemma_doubled_contains(s, c);
    if !bare(s) && escaped(s).contains(c) {
        let e = escaped(s);
        let k = choose|k: int| 0 <= k < e.len() && e[k] == c;
        assert(crate::csv::doubled(s)[k - 1] == c);
    }
}

proof fn lemma_doubled_contains(s: Seq<char>, c: char)
    requires
        c != '"',
        !s.contains(c),
    ensures
        !crate::csv::doubled(s).contains(c),
    decreases s.len(),
{
    if s.len() > 0 {
        let d = s.drop_last();
        assert(!d.contains(c)) by {
            if d.contains(c) {
                let k = choose|k: int| 0 <= k < d.len() && d[k] == c;
                assert(s[k] == c);
            }
        }
        lemma_doubled_contains(d, c);
        assert(s[s.len() - 1] != c);
        let e = crate::csv::doubled(s);
        let f = crate::csv::doubled(d);
        if e.contains(c) {
            let k = choose|k: int| 0 <= k < e.len() && e[k] == c;
            assert(k < f.len());
            assert(f[k] == c);
        }
    }
}

proof fn lemma_bare_contains(s: Seq<char>)
    requires
        bare(s),
    ensures
        !s.contains('\n'),
        !s.contains('\r'),
{
    if s.contains('\n') {
        let k = choose|k: int| 0 <= k < s.len() && s[k] == '\n';
        assert(special(s[k]));
    }
    if s.contains('\r') {
        let k = choose|k: int| 0 <= k < s.len() && s[k] == '\r';
        assert(special(s[k]));
    }
}

proof fn lemma_row_line(r: RowView)
    requires
        storable(r),
        one_line(r),
    ensures
        !row_line(r).contains('\n'),
        row_line(r).len() > 0 ==> row_line(r).last() != '\r',
{
    let cells = row_cells(r);
    lemma_decimal_bare(r.n_fft as nat);
    lemma_decimal_bare(r.batch as nat);
    lemma_decimal_bare(r.iters as nat);
    lemma_decimal_bare(r.train_steps as nat);
    lemma_decimal_bare(r.param_count as nat);
    lemma_decimal_bare(r.memory_bytes as nat);
    lemma_bare_contains(decimal(r.n_fft as nat));
    lemma_bare_contains(decimal(r.batch as nat));
    lemma_bare_contains(decimal(r.iters as nat));
    lemma_bare_contains(decimal(r.train_steps as nat));
    lemma_bare_contains(decimal(r.param_count as nat));
    lemma_bare_contains(decimal(r.memory_bytes as nat));
    lemma_bare_contains(csv_figure(r.ms));
    lemma_bare_contains(csv_figure(r.max_err));
    lemma_escaped_contains(r.tier, '\n');
    lemma_escaped_contains(r.variant, '\n');
    lemma_escaped_contains(r.direction, '\n');
    lemma_escaped_contains(r.device, '\n');
    lemma_escaped_contains(r.status, '\n');
    lemma_escaped_contains(text_or_empty(r.note), '\n');
    assert forall|i: int| 0 <= i < cells.len() implies !(#[trigger] cells[i]).contains('\n') by {}
    lemma_joined_contains(cells, '\n');
    let note = text_or_empty(r.note);
    let line = row_line(r);
    let head = joined(cells.drop_last(), seq![',']);
    assert(line == head + seq![','] + cells.last());
    assert(cells.last() == escaped(note));
    if escaped(note).len() == 0 {
        assert(line.last() == ',');
    } else {
        assert(line.last() == escaped(note).last());
        if bare(note) {
            lemma_bare_contains(note);
            assert(note.last() == note[note.len() - 1]);
        }
    }
}

proof fn lemma_line_not_blank(r: RowView)
    ensures
        trimmed(row_line(r)).len() > 0,
{
    let cells = row_cells(r);
    let line = row_line(r);
    let head = joined(cells.drop_last(), seq![',']);
    assert(line == head + seq![','] + cells.last());
    assert(line[head.len() as int] == ',');
    crate::text::trimmed_is_a_middle_part(line);
    let (a, b) = choose|a: int, b: int|
        0 <= a <= b <= line.len() && trimmed(line) == #[trigger] line.subrange(a, b) && (forall|
            i: int,
        |
            0 <= i < a || b <= i < line.len() ==> crate::text::white(line[i])) && (a < b
            ==> !crate::text::white(line[a]) && !crate::text::white(line[b - 1]));
    if a == b {
        assert(crate::text::white(line[head.len() as int]));
    }
}

// ---------------------------------------------------------------------------
// The best variants
// ---------------------------------------------------------------------------

/// The line of a row in the list of the best variants of a size; ranks start at one.
pub open spec fn top_line(n: usize, k: int, r: RowView) -> Seq<char> {
    joined(
        seq![
            decimal(n as nat),
            decimal((k + 1) as nat),
            escaped(r.variant),
            escaped(r.direction),
            escaped(r.device),
            decimal(r.batch as nat),
            csv_figure(r.ms),
            csv_figure(r.max_err),
            decimal(r.param_count as nat),
            decimal(r.memory_bytes as nat),
        ],
        seq![','],
    )
}

/// The lines of the best variants of some sizes.
pub open spec fn top_lines(top: Seq<(usize, Seq<RowView>)>) -> Seq<Seq<char>>
    decreases top.len(),
{
    if top.len() == 0 {
        Seq::empty()
    } else {
        let (n, rows) = top.last();
        top_lines(top.drop_last()) + Seq::new(rows.len(), |k: int| top_line(n, k, rows[k]))
    }
}

/// The text of the file of the best variants.
pub open spec fn top_text(top: Seq<(usize, Seq<RowView>)>) -> Seq<char> {
    with_ends(seq![TOP5_HEADER@] + top_lines(top))
}

fn line_of_top(n: usize, k: usize, r: &AblationRow) -> (line: String)
    requires
        k < usize::MAX,
    ensures
        line@ == top_line(n, k as int, r@),
{
    let cells = vec![
        usize_text(n),
        usize_text(k + 1),
        csv_escape(r.variant.as_str()),
        csv_escape(r.direction.as_str()),
        csv_escape(r.device.as_str()),
        usize_text(r.batch),
        figure_text(&r.ms),
        figure_text(&r.max_err),
        usize_text(r.param_count),
        usize_text(r.memory_bytes),
    ];
    assert(texts(cells@) =~= seq![
        decimal(n as nat),
        decimal((k + 1) as nat),
        escaped(r@.variant),
        escaped(r@.direction),
        escaped(r@.device),
        decimal(r@.batch as nat),
        csv_figure(r@.ms),
        csv_figure(r@.max_err),
        decimal(r@.param_count as nat),
        decimal(r@.memory_bytes as nat),
    ]);
    join_cells(&cells)
}

/// The text of the file of the best variants of a report.
pub fn top5_csv_text(report: &AblationReport) -> (r: String)
    ensures
        exists|top: Seq<(usize, Seq<RowView>)>| #[trigger]
            top_five(report.row_views(), top) && r@ == top_text(top),
{
    let top = top5_variants_per_n_fft(report);
    let ghost tv = top_views(top@);
    let mut lines: Vec<String> = Vec::new();
    lines.push(TOP5_HEADER.to_owned());
    let mut i: usize = 0;
    assert(texts(lines@) =~= seq![TOP5_HEADER@] + top_lines(tv.take(0)));
    while i < top.len()
        invariant
            i <= top.len(),
            tv == top_views(top@),
            texts(lines@) == seq![TOP5_HEADER@] + top_lines(tv.take(i as int)),
        decreases top.len() - i,
    {
        let n: usize = top[i].0;
        let rows = &top[i].1;
        let ghost rv = ref_views(rows@);
        let ghost start = texts(lines@);
        let ghost added = Seq::new(rv.len(), |k: int| top_line(n, k, rv[k]));
        assert(tv[i as int] == (n, rv));
        let mut k: usize = 0;
        assert(start + added.take(0) =~= start);
        while k < rows.len()
            invariant
                k <= rows.len(),
                rv == ref_views(rows@),
                added == Seq::new(rv.len(), |k: int| top_line(n, k, rv[k])),
                texts(lines@) == start + added.take(k as int),
            decreases rows.len() - k,
        {
            let ghost was = texts(lines@);
            let line = line_of_top(n, k, rows[k]);
            let ghost l = line@;
            assert(rv[k as int] == rows@[k as int]@);
            lines.push(line);
            assert(texts(lines@) =~= was.push(l));
            assert(texts(lines@) =~= start + added.take(k + 1));
            k += 1;
        }
        proof {
            assert(added.take(k as int) =~= added);
            assert(tv.take(i + 1).drop_last() =~= tv.take(i as int));
            assert(tv.take(i + 1).last() == (n, rv));
            assert(top_lines(tv.take(i + 1)) =~= top_lines(tv.take(i as int)) + added);
            assert(texts(lines@) =~= seq![TOP5_HEADER@] + top_lines(tv.take(i + 1)));
        }
        i += 1;
    }
    assert(tv.take(tv.len() as int) =~= tv);
    let r = lines_text(&lines);
    assert(top_five(report.row_views(), tv) && r@ == top_text(tv));
    r
}

// ---------------------------------------------------------------------------
// Limits
// ---------------------------------------------------------------------------

/// Whether a row belongs to a size on a device.
pub open spec fn placed(r: RowView, n: usize, device: Seq<char>) -> bool {
    r.n_fft == n && r.device == device
}

/// How many rows a size has on a device, and how many of them are usable.
pub open spec fn counts_at(rows: Seq<RowView>, n: usize, device: Seq<char>) -> (nat, nat)
    decreases rows.len(),
{
    if rows.len() == 0 {
        (0, 0)
    } else {
        let (all, ok) = counts_at(rows.drop_last(), n, device);
        let r = rows.last();
        if !placed(r, n, device) {
            (all, ok)
        } else if usable(r) {
            (all + 1, ok + 1)
        } else {
            (all + 1, ok)
        }
    }
}

/// The largest batch of the usable rows of a size on a device, zero where there is none.
pub open spec fn max_batch_at(rows: Seq<RowView>, n: usize, device: Seq<char>) -> usize
    decreases rows.len(),
{
    if rows.len() == 0 {
        0
    } else {
        let m = max_batch_at(rows.drop_last(), n, device);
        let r = rows.last();
        if placed(r, n, device) && usable(r) && r.batch > m {
            r.batch
        } else {
            m
        }
    }
}

/// The first of the fastest usable rows of a size on a device.
pub open spec fn fastest_of(rows: Seq<RowView>, n: usize, device: Seq<char>) -> Option<RowView>
    decreases rows.len(),
{
    if rows.len() == 0 {
        None
    } else {
        let f = fastest_of(rows.drop_last(), n, device);
        let r = rows.last();
        if !placed(r, n, device) || !usable(r) {
            f
        } else {
            match f {
                None => Some(r),
                Some(b) => if less(r.ms.bits, b.ms.bits) {
                    Some(r)
                } else {
                    f
                },
            }
        }
    }
}

/// Whether the reference transform has a usable row for a size on a device.
pub open spec fn reference_ran(rows: Seq<RowView>, n: usize, device: Seq<char>) -> bool {
    exists|i: int|
        0 <= i < rows.len() && placed(#[trigger] rows[i], n, device) && rows[i].variant
            == "rustfft"@ && usable(rows[i])
}

/// The last of some sizes for which the reference transform ran on a device, zero where there is
/// none.
pub open spec fn last_reference(rows: Seq<RowView>, ns: Seq<usize>, device: Seq<char>) -> usize
    decreases ns.len(),
{
    if ns.len() == 0 {
        0
    } else if reference_ran(rows, ns.last(), device) {
        ns.last()
    } else {
        last_reference(rows, ns.drop_last(), device)
    }
}

/// The kind of device that a label names.
pub open spec fn device_kind(device: Seq<char>) -> Seq<char> {
    if gpu_label(lower_text(device)) {
        "gpu"@
    } else {
        "cpu"@
    }
}

/// The line of a size on a device.
pub open spec fn limit_line(rows: Seq<RowView>, n: usize, device: Seq<char>, max_n: usize) -> Seq<
    char,
> {
    let (all, ok) = counts_at(rows, n, device);
    joined(
        match fastest_of(rows, n, device) {
            Some(f) => seq![
                decimal(n as nat),
                escaped(device),
                device_kind(device),
                decimal(ok),
                decimal((all - ok) as nat),
                decimal(max_batch_at(rows, n, device) as nat),
                escaped(f.variant),
                csv_figure(f.ms),
                csv_figure(f.max_err),
                decimal(max_n as nat),
            ],
            None => seq![
                decimal(n as nat),
                escaped(device),
                device_kind(device),
                "0"@,
                decimal((all - ok) as nat),
                "0"@,
                ""@,
                "nan"@,
                "nan"@,
                decimal(max_n as nat),
            ],
        },
        seq![','],
    )
}

/// The lines of some sizes on a device; sizes without rows are left out.
pub open spec fn device_limit_lines(
    rows: Seq<RowView>,
    ns: Seq<usize>,
    device: Seq<char>,
    max_n: usize,
) -> Seq<Seq<char>>
    decreases ns.len(),
{
    if ns.len() == 0 {
        Seq::empty()
    } else {
        let before = device_limit_lines(rows, ns.drop_last(), device, max_n);
        if counts_at(rows, ns.last(), device).0 == 0 {
            before
        } else {
            before.push(limit_line(rows, ns.last(), device, max_n))
        }
    }
}

/// The lines of some devices.
pub open spec fn limit_lines(rows: Seq<RowView>, ns: Seq<usize>, devices: Seq<Seq<char>>) -> Seq<
    Seq<char>,
>
    decreases devices.len(),
{
    if devices.len() == 0 {
        Seq::empty()
    } else {
        let d = devices.last();
        limit_lines(rows, ns, devices.drop_last()) + device_limit_lines(
            rows,
            ns,
            d,
            last_reference(rows, ns, d),
        )
    }
}

/// The device names of some rows.
pub open spec fn device_names(rows: Seq<RowView>) -> Seq<Seq<char>> {
    rows.map_values(|r: RowView| r.device)
}

/// The sizes that a report is about: those it names, else those of its rows.
pub open spec fn report_sizes(report: AblationReport, ns: Seq<usize>) -> bool {
    if report.n_ffts@.len() > 0 {
        ns == report.n_ffts@
    } else {
        ascending::<usize>(ns) && ns.to_set() == sizes(report.row_views()).to_set()
    }
}

/// The text of the file of limits.
pub open spec fn limits_text(report: AblationReport, ns: Seq<usize>, devices: Seq<Seq<char>>) -> Seq<
    char,
> {
    with_ends(seq![LIMITS_HEADER@] + limit_lines(report.row_views(), ns, devices))
}

fn sizes_of_report(report: &AblationReport) -> (r: Vec<usize>)
    ensures
        report_sizes(*report, r@),
{
    if report.n_ffts.len() == 0 {
        distinct_sizes(&report.rows)
    } else {
        let mut out: Vec<usize> = Vec::new();
        let mut i: usize = 0;
        while i < report.n_ffts.len()
            invariant
                i <= report.n_ffts.len(),
                out@ == report.n_ffts@.take(i as int),
            decreases report.n_ffts.len() - i,
        {
            out.push(report.n_ffts[i]);
            assert(out@ =~= report.n_ffts@.take(i + 1));
            i += 1;
        }
        assert(out@ =~= report.n_ffts@);
        out
    }
}

/// The device names of a report, in dictionary order, each once.
pub fn distinct_devices(rows: &Vec<AblationRow>) -> (r: Vec<String>)
    ensures
        ascending::<String>(texts(r@)),
        texts(r@).to_set() == device_names(row_views(rows@)).to_set(),
{
    let mut out: Vec<String> = Vec::new();
    let mut i: usize = 0;
    while i < rows.len()
        invariant
            i <= rows.len(),
            out.len() == i,
            forall|k: int| 0 <= k < i ==> (#[trigger] out@[k])@ == rows@[k].device@,
        decreases rows.len() - i,
    {
        out.push(copy_text(&rows[i].device));
        i += 1;
    }
    assert(texts(out@) =~= device_names(row_views(rows@)));
    distinct_texts(out)
}

fn find_last_reference(rows: &Vec<AblationRow>, ns: &Vec<usize>, device: &str) -> (r: usize)
    ensures
        r == last_reference(row_views(rows@), ns@, device@),
{
    let ghost v = row_views(rows@);
    let mut i: usize = ns.len();
    assert(ns@.take(i as int) =~= ns@);
    while i > 0
        invariant
            i <= ns.len(),
            v == row_views(rows@),
            last_reference(v, ns@, device@) == last_reference(v, ns@.take(i as int), device@),
        decreases i,
    {
        let n: usize = ns[i - 1];
        let mut k: usize = 0;
        let mut found = false;
        while k < rows.len()
            invariant
                k <= rows.len(),
                v == row_views(rows@),
                found == reference_ran(v.take(k as int), n, device@),
            decreases rows.len() - k,
        {
            let r = &rows[k];
            let hit = r.n_fft == n && same_text(r.device.as_str(), device) && same_text(
                r.variant.as_str(),
                "rustfft",
            ) && ablation_row_ok(r);
            proof {
                let now = v.take(k + 1);
                assert(now[k as int] == r@);
                if found {
                    let q = choose|q: int|
                        0 <= q < k && placed(#[trigger] v.take(k as int)[q], n, device@) && v.take(
                            k as int,
                        )[q].variant == "rustfft"@ && usable(v.take(k as int)[q]);
                    assert(now[q] == v.take(k as int)[q]);
                }
                if reference_ran(now, n, device@) && !hit {
                    let q = choose|q: int|
                        0 <= q < now.len() && placed(#[trigger] now[q], n, device@)
                            && now[q].variant == "rustfft"@ && usable(now[q]);
                    assert(v.take(k as int)[q] == now[q]);
                }
            }
            if hit {
                found = true;
            }
            k += 1;
        }
        assert(v.take(v.len() as int) =~= v);
        assert(ns@.take(i as int).drop_last() =~= ns@.take(i - 1));
        if found {
            return n;
        }
        i -= 1;
    }
    0
}

fn line_of_limit(rows: &Vec<AblationRow>, n: usize, device: &str, max_n: usize) -> (r: Option<
    String,
>)
    ensures
        match r {
            Some(l) => counts_at(row_views(rows@), n, device@).0 > 0 && l@ == limit_line(
                row_views(rows@),
                n,
                device@,
                max_n,
            ),
            None => counts_at(row_views(rows@), n, device@).0 == 0,
        },
{
    let ghost v = row_views(rows@);
    let mut all: usize = 0;
    let mut ok: usize = 0;
    let mut max_batch: usize = 0;
    let mut fastest: Option<usize> = None;
    let mut i: usize = 0;
    while i < rows.len()
        invariant
            i <= rows.len(),
            v == row_views(rows@),
            counts_at(v.take(i as int), n, device@) == (all as nat, ok as nat),
            ok <= all <= i,
            max_batch == max_batch_at(v.take(i as int), n, device@),
            match fastest {
                Some(k) => k < i && fastest_of(v.take(i as int), n, device@) == Some(v[k as int]),
                None => fastest_of(v.take(i as int), n, device@) is None,
            },
        decreases rows.len() - i,
    {
        let r = &rows[i];
        proof {
            assert(v.take(i + 1).drop_last() =~= v.take(i as int));
            assert(v.take(i + 1).last() == r@);
            assert(v[i as int] == r@);
        }
        if r.n_fft == n && same_text(r.device.as_str(), device) {
            all += 1;
            if ablation_row_ok(r) {
                ok += 1;
                if r.batch > max_batch {
                    max_batch = r.batch;
                }
                match fastest {
                    None => {
                        fastest = Some(i);
                    },
                    Some(k) => {
                        assert(v[k as int] == rows@[k as int]@);
                        if is_less(r.ms.bits, rows[k].ms.bits) {
                            fastest = Some(i);
                        }
                    },
                }
            }
        }
        i += 1;
    }
    assert(v.take(v.len() as int) =~= v);
    if all == 0 {
        return None;
    }
    let kind = if is_gpu_device_label(device) {
        "gpu"
    } else {
        "cpu"
    };
    let failed: usize = all - ok;
    let cells = match fastest {
        Some(k) => {
            let f = &rows[k];
            assert(v[k as int] == f@);
            let cells = vec![
                usize_text(n),
                csv_escape(device),
                kind.to_owned(),
                usize_text(ok),
                usize_text(failed),
                usize_text(max_batch),
                csv_escape(f.variant.as_str()),
                figure_text(&f.ms),
                figure_text(&f.max_err),
                usize_text(max_n),
            ];
            assert(texts(cells@) =~= seq![
                decimal(n as nat),
                escaped(device@),
                device_kind(device@),
                decimal(ok as nat),
                decimal(failed as nat),
                decimal(max_batch as nat),
                escaped(f@.variant),
                csv_figure(f@.ms),
                csv_figure(f@.max_err),
                decimal(max_n as nat),
            ]);
            cells
        },
        None => {
            let cells = vec![
                usize_text(n),
                csv_escape(device),
                kind.to_owned(),
                "0".to_owned(),
                usize_text(failed),
                "0".to_owned(),
                "".to_owned(),
                "nan".to_owned(),
                "nan".to_owned(),
                usize_text(max_n),
            ];
            assert(texts(cells@) =~= seq![
                decimal(n as nat),
                escaped(device@),
                device_kind(device@),
                "0"@,
                decimal(failed as nat),
                "0"@,
                ""@,
                "nan"@,
                "nan"@,
                decimal(max_n as nat),
            ]);
            cells
        },
    };
    Some(join_cells(&cells))
}

/// The text of the file of limits: for every device and size with rows, how many are usable, the
/// largest batch, the fastest variant, and the largest size of the reference transform.
pub fn limits_csv_text(report: &AblationReport) -> (r: String)
    ensures
        exists|ns: Seq<usize>, devices: Seq<Seq<char>>|
            report_sizes(*report, ns) && ascending::<String>(devices) && devices.to_set()
                == device_names(report.row_views()).to_set() && r@ == #[trigger] limits_text(
                *report,
                ns,
                devices,
            ),
{
    let ns = sizes_of_report(report);
    let devices = distinct_devices(&report.rows);
    let ghost v = report.row_views();
    let ghost ds = texts(devices@);
    let mut lines: Vec<String> = Vec::new();
    lines.push(LIMITS_HEADER.to_owned());
    let mut i: usize = 0;
    assert(texts(lines@) =~= seq![LIMITS_HEADER@] + limit_lines(v, ns@, ds.take(0)));
    while i < devices.len()
        invariant
            i <= devices.len(),
            v == row_views(report.rows@),
            ds == texts(devices@),
            texts(lines@) == seq![LIMITS_HEADER@] + limit_lines(v, ns@, ds.take(i as int)),
        decreases devices.len() - i,
    {
        let device = devices[i].as_str();
        let max_n: usize = find_last_reference(&report.rows, &ns, device);
        let ghost start = texts(lines@);
        let mut k: usize = 0;
        assert(start + device_limit_lines(v, ns@.take(0), device@, max_n) =~= start);
        while k < ns.len()
            invariant
                k <= ns.len(),
                v == row_views(report.rows@),
                texts(lines@) == start + device_limit_lines(v, ns@.take(k as int), device@, max_n),
            decreases ns.len() - k,
        {
            let ghost was = texts(lines@);
            assert(ns@.take(k + 1).drop_last() =~= ns@.take(k as int));
            match line_of_limit(&report.rows, ns[k], device, max_n) {
                Some(line) => {
                    let ghost l = line@;
                    lines.push(line);
                    assert(texts(lines@) =~= was.push(l));
                },
                None => {},
            }
            assert(texts(lines@) =~= start + device_limit_lines(
                v,
                ns@.take(k + 1),
                device@,
                max_n,
            ));
            k += 1;
        }
        proof {
            assert(ns@.take(ns@.len() as int) =~= ns@);
            assert(ds.take(i + 1).drop_last() =~= ds.take(i as int));
            assert(ds.take(i + 1).last() == device@);
            assert(texts(lines@) =~= seq![LIMITS_HEADER@] + limit_lines(v, ns@, ds.take(i + 1)));
        }
        i += 1;
    }
    assert(ds.take(ds.len() as int) =~= ds);
    let r = lines_text(&lines);
    assert(r@ == limits_text(*report, ns@, ds));
    r
}

// ---------------------------------------------------------------------------
// Settings
// ---------------------------------------------------------------------------

/// The text of a truth value.
pub open spec fn bool_text(b: bool) -> Seq<char> {
    if b {
        "true"@
    } else {
        "false"@
    }
}

/// Shows a truth value.
pub fn show_bool(b: bool) -> (r: &'static str)
    ensures
        r@ == bool_text(b),
{
    if b {
        "true"
    } else {
        "false"
    }
}

/// Whether a text stands for true.
pub open spec fn truth(s: Seq<char>) -> bool {
    let t = trimmed(s);
    t == "1"@ || t == "true"@ || t == "True"@ || t == "TRUE"@
}

fn parse_bool(s: &str) -> (r: bool)
    ensures
        r == truth(s@),
{
    let t = trim_text(s);
    let t = t.as_str();
    same_text(t, "1") || same_text(t, "true") || same_text(t, "True") || same_text(t, "TRUE")
}

/// The decimal texts of some numbers.
pub open spec fn decimals(ns: Seq<usize>) -> Seq<Seq<char>> {
    ns.map_values(|n: usize| decimal(n as nat))
}

/// The decimal texts of some numbers.
pub fn number_texts(ns: &Vec<usize>) -> (r: Vec<String>)
    ensures
        texts(r@) == decimals(ns@),
{
    let mut out: Vec<String> = Vec::new();
    let mut i: usize = 0;
    while i < ns.len()
        invariant
            i <= ns.len(),
            out.len() == i,
            forall|k: int| 0 <= k < i ==> (#[trigger] out@[k])@ == decimal(ns@[k] as nat),
        decreases ns.len() - i,
    {
        out.push(usize_text(ns[i]));
        i += 1;
    }
    assert(texts(out@) =~= decimals(ns@));
    out
}

/// A line of a key and a value.
pub open spec fn setting(key: Seq<char>, value: Seq<char>) -> Seq<char> {
    key.push(',') + value
}

/// The lines of the file of settings.
pub open spec fn meta_lines(report: AblationReport, ns: Seq<usize>) -> Seq<Seq<char>> {
    seq![
        "key,value"@,
        setting("iters"@, decimal(report.iters as nat)),
        setting("train_steps"@, decimal(report.train_steps as nat)),
        setting("both_dirs"@, bool_text(report.both_dirs)),
        setting("with_welch"@, bool_text(report.with_welch)),
        setting("limit_sweep"@, bool_text(report.limit_sweep)),
        setting("elapsed_ms"@, report.elapsed_ms@.plain),
        setting("n_ffts"@, seq!['"'] + joined(decimals(ns), seq![',']) + seq!['"']),
        setting("row_count"@, decimal(report.rows@.len())),
    ]
}

fn line_of_setting(key: &str, value: &str) -> (r: String)
    ensures
        r@ == setting(key@, value@),
{
    let mut out = key.to_owned();
    out.push(',');
    out.push_str(value);
    out
}

/// The text of the file of settings.
pub fn meta_csv_text(report: &AblationReport) -> (r: String)
    ensures
        exists|ns: Seq<usize>| #[trigger]
            report_sizes(*report, ns) && r@ == with_ends(meta_lines(*report, ns)),
{
    let ns = sizes_of_report(report);
    let cells = number_texts(&ns);
    let mut list = String::new();
    list.push('"');
    list.push_str(join_cells(&cells).as_str());
    list.push('"');
    assert(list@ =~= seq!['"'] + joined(decimals(ns@), seq![',']) + seq!['"']);
    let lines = vec![
        "key,value".to_owned(),
        line_of_setting("iters", usize_text(report.iters).as_str()),
        line_of_setting("train_steps", usize_text(report.train_steps).as_str()),
        line_of_setting("both_dirs", show_bool(report.both_dirs)),
        line_of_setting("with_welch", show_bool(report.with_welch)),
        line_of_setting("limit_sweep", show_bool(report.limit_sweep)),
        line_of_setting("elapsed_ms", report.elapsed_ms.plain.as_str()),
        line_of_setting("n_ffts", list.as_str()),
        line_of_setting("row_count", usize_text(report.rows.len()).as_str()),
    ];
    assert(texts(lines@) =~= meta_lines(*report, ns@));
    lines_text(&lines)
}

/// The settings of a report as a file holds them; the elapsed time is a text, if any.
pub struct RawMeta {
    pub iters: usize,
    pub train_steps: usize,
    pub both_dirs: bool,
    pub with_welch: bool,
    pub limit_sweep: bool,
    pub elapsed_ms: Option<String>,
    pub n_ffts: Vec<usize>,
}

/// What read settings stand for.
pub struct MetaView {
    pub iters: usize,
    pub train_steps: usize,
    pub both_dirs: bool,
    pub with_welch: bool,
    pub limit_sweep: bool,
    pub elapsed_ms: Option<Seq<char>>,
    pub n_ffts: Seq<usize>,
}

impl View for RawMeta {
    type V = MetaView;

    open spec fn view(&self) -> MetaView {
        MetaView {
            iters: self.iters,
            train_steps: self.train_steps,
            both_dirs: self.both_dirs,
            with_welch: self.with_welch,
            limit_sweep: self.limit_sweep,
            elapsed_ms: crate::ablation::note_view(self.elapsed_ms),
            n_ffts: self.n_ffts@,
        }
    }
}

/// The settings where a file says nothing.
pub open spec fn default_meta() -> MetaView {
    MetaView {
        iters: 0,
        train_steps: 0,
        both_dirs: true,
        with_welch: true,
        limit_sweep: false,
        elapsed_ms: None,
        n_ffts: Seq::empty(),
    }
}

/// Where the first comma of a text stands, its length where it has none.
pub open spec fn comma_place(s: Seq<char>) -> int
    decreases s.len(),
{
    if s.len() == 0 || s[0] == ',' {
        0
    } else {
        1 + comma_place(s.drop_first())
    }
}

/// A text without the quotation marks at its start.
pub open spec fn unquoted_start(s: Seq<char>) -> Seq<char>
    decreases s.len(),
{
    if s.len() > 0 && s[0] == '"' {
        unquoted_start(s.drop_first())
    } else {
        s
    }
}

/// A text without the quotation marks at its end.
pub open spec fn unquoted_end(s: Seq<char>) -> Seq<char>
    decreases s.len(),
{
    if s.len() > 0 && s.last() == '"' {
        unquoted_end(s.drop_last())
    } else {
        s
    }
}

/// The numbers among some texts, in order; other texts are left out.
pub open spec fn numbers_among(parts: Seq<Seq<char>>) -> Seq<usize>
    decreases parts.len(),
{
    if parts.len() == 0 {
        Seq::empty()
    } else {
        let before = numbers_among(parts.drop_last());
        match number_within(trimmed(parts.last()), usize::MAX as nat) {
            Some(n) => before.push(n as usize),
            None => before,
        }
    }
}

/// The settings with one more line read: a line without a comma and an unknown key change nothing.
pub open spec fn meta_step(m: MetaView, line: Seq<char>) -> MetaView {
    let at = comma_place(line);
    if at >= line.len() {
        m
    } else {
        let k = line.take(at);
        let v = line.skip(at + 1);
        if k == "iters"@ {
            MetaView { iters: number_or_zero(v), ..m }
        } else if k == "train_steps"@ {
            MetaView { train_steps: number_or_zero(v), ..m }
        } else if k == "both_dirs"@ {
            MetaView { both_dirs: truth(v), ..m }
        } else if k == "with_welch"@ {
            MetaView { with_welch: truth(v), ..m }
        } else if k == "limit_sweep"@ {
            MetaView { limit_sweep: truth(v), ..m }
        } else if k == "elapsed_ms"@ {
            MetaView { elapsed_ms: Some(v), ..m }
        } else if k == "n_ffts"@ {
            MetaView {
                n_ffts: numbers_among(pieces(unquoted_end(unquoted_start(v)), ',')),
                ..m
            }
        } else {
            m
        }
    }
}

/// The settings after some lines.
pub open spec fn meta_of(lines: Seq<Seq<char>>) -> MetaView
    decreases lines.len(),
{
    if lines.len() == 0 {
        default_meta()
    } else {
        meta_step(meta_of(lines.drop_last()), lines.last())
    }
}

fn find_comma(chars: &Vec<char>) -> (r: usize)
    ensures
        r == comma_place(chars@),
        r <= chars.len(),
{
    let mut i: usize = 0;
    assert(chars@.skip(0) =~= chars@);
    while i < chars.len() && chars[i] != ','
        invariant
            i <= chars.len(),
            comma_place(chars@) == i + comma_place(chars@.skip(i as int)),
        decreases chars.len() - i,
    {
        assert(chars@.skip(i as int)[0] == chars@[i as int]);
        assert(chars@.skip(i as int).drop_first() =~= chars@.skip(i + 1));
        i += 1;
    }
    if i < chars.len() {
        assert(chars@.skip(i as int)[0] == chars@[i as int]);
    }
    i
}

fn strip_quotes(s: &str) -> (r: String)
    ensures
        r@ == unquoted_end(unquoted_start(s@)),
{
    let chars = chars_of(s);
    let mut a: usize = 0;
    let n: usize = chars.len();
    assert(chars@.subrange(0, n as int) =~= chars@);
    while a < n && chars[a] == '"'
        invariant
            a <= n,
            n == chars.len(),
            unquoted_start(chars@.subrange(a as int, n as int)) == unquoted_start(chars@),
        decreases n - a,
    {
        assert(chars@.subrange(a as int, n as int).drop_first() =~= chars@.subrange(
            a + 1,
            n as int,
        ));
        a += 1;
    }
    let ghost rest = chars@.subrange(a as int, n as int);
    let mut b: usize = n;
    while b > a && chars[b - 1] == '"'
        invariant
            a <= b <= n,
            n == chars.len(),
            unquoted_end(chars@.subrange(a as int, b as int)) == unquoted_end(rest),
        decreases b,
    {
        assert(chars@.subrange(a as int, b as int).drop_last() =~= chars@.subrange(
            a as int,
            b - 1,
        ));
        b -= 1;
    }
    text_of(&chars, a, b)
}

fn list_numbers(s: &str) -> (r: Vec<usize>)
    ensures
        r@ == numbers_among(pieces(s@, ',')),
{
    let parts = split_text(s, ',');
    let ghost all = texts(parts@);
    let mut out: Vec<usize> = Vec::new();
    let mut i: usize = 0;
    assert(all.take(0) =~= Seq::empty());
    while i < parts.len()
        invariant
            i <= parts.len(),
            all == texts(parts@),
            out@ == numbers_among(all.take(i as int)),
        decreases parts.len() - i,
    {
        assert(all.take(i + 1).drop_last() =~= all.take(i as int));
        if let Some(n) = parse_usize(trim_text(parts[i].as_str()).as_str()) {
            out.push(n);
        }
        i += 1;
    }
    assert(all.take(all.len() as int) =~= all);
    out
}

fn number_or_none(s: &str) -> (r: usize)
    ensures
        r == number_or_zero(s@),
{
    match parse_usize(s) {
        Some(v) => v,
        None => 0,
    }
}

/// Reads a file of settings; its first line is a header.
pub fn meta_from_csv_text(text: &str) -> (r: RawMeta)
    ensures
        r@ == meta_of(after_header(lines_of(text@))),
{
    let lines = split_lines(text);
    let ghost all = texts(lines@);
    let mut m = RawMeta {
        iters: 0,
        train_steps: 0,
        both_dirs: true,
        with_welch: true,
        limit_sweep: false,
        elapsed_ms: None,
        n_ffts: Vec::new(),
    };
    if lines.len() == 0 {
        assert(m@.n_ffts =~= default_meta().n_ffts);
        return m;
    }
    let mut i: usize = 1;
    let ghost body = all.drop_first();
    assert(body.take(0) =~= Seq::empty());
    assert(m@.n_ffts =~= default_meta().n_ffts);
    while i < lines.len()
        invariant
            1 <= i <= lines.len(),
            all == texts(lines@),
            body == all.drop_first(),
            m@ == meta_of(body.take(i - 1)),
        decreases lines.len() - i,
    {
        let chars = chars_of(lines[i].as_str());
        proof {
            assert(body.take(i as int).drop_last() =~= body.take(i - 1));
            assert(body.take(i as int).last() == chars@);
        }
        let at: usize = find_comma(&chars);
        if at < chars.len() {
            let k = text_of(&chars, 0, at);
            let v = text_of(&chars, at + 1, chars.len());
            assert(k@ =~= chars@.take(at as int));
            assert(v@ =~= chars@.skip(at + 1));
            let k = k.as_str();
            if same_text(k, "iters") {
                m.iters = number_or_none(v.as_str());
            } else if same_text(k, "train_steps") {
                m.train_steps = number_or_none(v.as_str());
            } else if same_text(k, "both_dirs") {
                m.both_dirs = parse_bool(v.as_str());
            } else if same_text(k, "with_welch") {
                m.with_welch = parse_bool(v.as_str());
            } else if same_text(k, "limit_sweep") {
                m.limit_sweep = parse_bool(v.as_str());
            } else if same_text(k, "elapsed_ms") {
                m.elapsed_ms = Some(v);
            } else if same_text(k, "n_ffts") {
                m.n_ffts = list_numbers(strip_quotes(v.as_str()).as_str());
            }
        }
        i += 1;
    }
    assert(body.take(body.len() as int) =~= body);
    m
}

/// The lines after a header.
pub open spec fn after_header(lines: Seq<Seq<char>>) -> Seq<Seq<char>> {
    if lines.len() == 0 {
        lines
    } else {
        lines.drop_first()
    }
}

/// The report that read settings and rows make: without settings the defaults, and without sizes
/// those of the rows. `elapsed_ms` is the elapsed time as read.
pub fn report_from_csv(meta: Option<RawMeta>, rows: Vec<AblationRow>, elapsed_ms: Figure) -> (r:
    AblationReport)
    ensures
        ({
            let m = match meta {
                Some(m) => m@,
                None => default_meta(),
            };
            &&& r.iters == m.iters
            &&& r.train_steps == m.train_steps
            &&& r.both_dirs == m.both_dirs
            &&& r.with_welch == m.with_welch
            &&& r.limit_sweep == m.limit_sweep
            &&& r.elapsed_ms == elapsed_ms
            &&& r.rows == rows
            &&& m.n_ffts.len() > 0 ==> r.n_ffts@ == m.n_ffts
            &&& m.n_ffts.len() == 0 ==> ascending::<usize>(r.n_ffts@) && r.n_ffts@.to_set()
                == sizes(row_views(rows@)).to_set()
        }),
{
    let m = match meta {
        Some(m) => m,
        None => RawMeta {
            iters: 0,
            train_steps: 0,
            both_dirs: true,
            with_welch: true,
            limit_sweep: false,
            elapsed_ms: None,
            n_ffts: Vec::new(),
        },
    };
    let n_ffts = if m.n_ffts.len() == 0 {
        distinct_sizes(&rows)
    } else {
        m.n_ffts
    };
    AblationReport {
        iters: m.iters,
        train_steps: m.train_steps,
        both_dirs: m.both_dirs,
        with_welch: m.with_welch,
        limit_sweep: m.limit_sweep,
        n_ffts,
        elapsed_ms,
        rows,
    }
}

proof fn lemma_comma_place(k: Seq<char>, v: Seq<char>)
    requires
        !k.contains(','),
    ensures
        comma_place(setting(k, v)) == k.len(),
        setting(k, v).take(k.len() as int) == k,
        setting(k, v).skip(k.len() as int + 1) == v,
    decreases k.len(),
{
    let s = setting(k, v);
    assert(s.take(k.len() as int) =~= k);
    assert(s.skip(k.len() as int + 1) =~= v);
    if k.len() > 0 {
        let d = k.drop_first();
        assert(k[0] != ',');
        assert(!d.contains(',')) by {
            if d.contains(',') {
                let i = choose|i: int| 0 <= i < d.len() && d[i] == ',';
                assert(k[i + 1] == ',');
            }
        }
        lemma_comma_place(d, v);
        assert(s.drop_first() =~= setting(d, v));
    }
}

proof fn lemma_truth(b: bool)
    ensures
        truth(bool_text(b)) == b,
        !bool_text(b).contains('\n'),
        bool_text(b).len() > 0,
        bool_text(b).last() != '\r',
{
    reveal_strlit("true");
    reveal_strlit("false");
    reveal_strlit("1");
    reveal_strlit("True");
    reveal_strlit("TRUE");
    let t = bool_text(b);
    assert(!crate::text::white(t[0]));
    assert(!crate::text::white(t.last()));
    assert("false"@.len() == 5);
}

proof fn lemma_digits_survive(ns: Seq<usize>)
    ensures
        numbers_among(decimals(ns)) == ns,
    decreases ns.len(),
{
    if ns.len() > 0 {
        let d = ns.drop_last();
        lemma_digits_survive(d);
        assert(decimals(ns).drop_last() =~= decimals(d));
        let n = ns.last() as nat;
        crate::text::decimal_reads_back(n, usize::MAX as nat);
        lemma_decimal(n);
        assert(crate::text::digit(decimal(n)[0]));
        assert(crate::text::digit(decimal(n)[decimal(n).len() - 1]));
        assert(trimmed(decimal(n)) == decimal(n));
        assert(d.push(ns.last()) =~= ns);
    } else {
        assert(numbers_among(decimals(ns)) =~= ns);
    }
}

proof fn lemma_size_list(ns: Seq<usize>)
    ensures
        ({
            let list = joined(decimals(ns), seq![',']);
            let v = seq!['"'] + list + seq!['"'];
            &&& numbers_among(pieces(unquoted_end(unquoted_start(v)), ',')) == ns
            &&& !v.contains('\n')
            &&& v.last() != '\r'
        }),
{
    let parts = decimals(ns);
    let list = joined(parts, seq![',']);
    let v = seq!['"'] + list + seq!['"'];
    assert forall|i: int| 0 <= i < parts.len() implies !(#[trigger] parts[i]).contains(',')
        && !parts[i].contains('\n') && !parts[i].contains('"') by {
        lemma_decimal_bare(ns[i] as nat);
        let p = parts[i];
        if p.contains(',') {
            let k = choose|k: int| 0 <= k < p.len() && p[k] == ',';
            assert(special(p[k]));
        }
        if p.contains('\n') {
            let k = choose|k: int| 0 <= k < p.len() && p[k] == '\n';
            assert(special(p[k]));
        }
        if p.contains('"') {
            let k = choose|k: int| 0 <= k < p.len() && p[k] == '"';
            assert(special(p[k]));
        }
    }
    lemma_joined_contains(parts, '\n');
    lemma_joined_contains(parts, '"');
    lemma_digits_survive(ns);
    if v.contains('\n') {
        let k = choose|k: int| 0 <= k < v.len() && v[k] == '\n';
        assert(list[k - 1] == '\n');
    }
    let tail = list + seq!['"'];
    assert(v.drop_first() =~= tail);
    if list.len() == 0 {
        assert(list =~= Seq::empty());
        assert(tail =~= seq!['"']);
        assert(tail.drop_first() =~= Seq::<char>::empty());
        assert(unquoted_start(Seq::<char>::empty()) =~= Seq::<char>::empty());
        assert(unquoted_start(tail) =~= Seq::<char>::empty());
        assert(unquoted_start(v) =~= Seq::<char>::empty());
        assert(unquoted_end(unquoted_start(v)) =~= Seq::<char>::empty());
        lemma_empty_list(ns);
        assert(ns =~= Seq::empty());
        let p = pieces(Seq::<char>::empty(), ',');
        assert(p =~= seq![Seq::<char>::empty()]);
        assert(p.drop_last() =~= Seq::empty());
        assert(p.last() =~= Seq::<char>::empty());
        assert(trimmed(Seq::<char>::empty()) =~= Seq::<char>::empty());
        assert(number_within(trimmed(p.last()), usize::MAX as nat) is None);
        assert(numbers_among(p.drop_last()) =~= Seq::empty());
        assert(numbers_among(p) =~= ns);
    } else {
        assert(list[0] != '"') by {
            if list[0] == '"' {
                assert(list.contains('"'));
            }
        }
        assert(tail[0] == list[0]);
        assert(unquoted_start(tail) == tail);
        assert(unquoted_start(v) == unquoted_start(tail));
        assert(tail.drop_last() =~= list);
        assert(list[list.len() - 1] != '"') by {
            if list[list.len() - 1] == '"' {
                assert(list.contains('"'));
            }
        }
        assert(unquoted_end(list) == list);
        assert(unquoted_end(tail) == unquoted_end(list));
        if ns.len() == 0 {
            assert(list.len() == 0);
        }
        crate::text::join_then_split(parts, ',');
    }
}

proof fn lemma_empty_list(ns: Seq<usize>)
    requires
        joined(decimals(ns), seq![',']).len() == 0,
    ensures
        ns.len() == 0,
{
    if ns.len() > 0 {
        lemma_decimal(ns[0] as nat);
        let p = decimals(ns);
        if p.len() > 1 {
            assert(joined(p, seq![',']) == joined(p.drop_last(), seq![',']) + seq![','] + p.last());
        } else {
            assert(p[0] == decimal(ns[0] as nat));
        }
    }
}

/// The file of settings reads back as the settings, with the elapsed time as its text.
pub proof fn meta_file_reads_back(report: AblationReport, ns: Seq<usize>)
    requires
        !report.elapsed_ms@.plain.contains('\n'),
        report.elapsed_ms@.plain.len() > 0 ==> report.elapsed_ms@.plain.last() != '\r',
    ensures
        meta_of(after_header(lines_of(with_ends(meta_lines(report, ns))))) == (MetaView {
            iters: report.iters,
            train_steps: report.train_steps,
            both_dirs: report.both_dirs,
            with_welch: report.with_welch,
            limit_sweep: report.limit_sweep,
            elapsed_ms: Some(report.elapsed_ms@.plain),
            n_ffts: ns,
        }),
{
    let lines = meta_lines(report, ns);
    lemma_keys();
    lemma_truth(report.both_dirs);
    lemma_truth(report.with_welch);
    lemma_truth(report.limit_sweep);
    lemma_size_list(ns);
    crate::text::decimal_reads_back(report.iters as nat, usize::MAX as nat);
    crate::text::decimal_reads_back(report.train_steps as nat, usize::MAX as nat);
    lemma_decimal_line(report.iters as nat);
    lemma_decimal_line(report.train_steps as nat);
    lemma_decimal_line(report.rows@.len());
    let list = seq!['"'] + joined(decimals(ns), seq![',']) + seq!['"'];
    lemma_setting_line("iters"@, decimal(report.iters as nat));
    lemma_setting_line("train_steps"@, decimal(report.train_steps as nat));
    lemma_setting_line("both_dirs"@, bool_text(report.both_dirs));
    lemma_setting_line("with_welch"@, bool_text(report.with_welch));
    lemma_setting_line("limit_sweep"@, bool_text(report.limit_sweep));
    lemma_setting_line("elapsed_ms"@, report.elapsed_ms@.plain);
    lemma_setting_line("n_ffts"@, list);
    lemma_setting_line("row_count"@, decimal(report.rows@.len()));
    assert(lines.len() == 9);
    written_lines_read_back(lines);
    lemma_meta_body(report, ns, lines.drop_first());
}

proof fn lemma_meta_body(report: AblationReport, ns: Seq<usize>, body: Seq<Seq<char>>)
    requires
        body == meta_lines(report, ns).drop_first(),
    ensures
        meta_of(body) == (MetaView {
            iters: report.iters,
            train_steps: report.train_steps,
            both_dirs: report.both_dirs,
            with_welch: report.with_welch,
            limit_sweep: report.limit_sweep,
            elapsed_ms: Some(report.elapsed_ms@.plain),
            n_ffts: ns,
        }),
{
    lemma_keys();
    lemma_truth(report.both_dirs);
    lemma_truth(report.with_welch);
    lemma_truth(report.limit_sweep);
    lemma_size_list(ns);
    crate::text::decimal_reads_back(report.iters as nat, usize::MAX as nat);
    crate::text::decimal_reads_back(report.train_steps as nat, usize::MAX as nat);
    let list = seq!['"'] + joined(decimals(ns), seq![',']) + seq!['"'];
    lemma_comma_place("iters"@, decimal(report.iters as nat));
    lemma_comma_place("train_steps"@, decimal(report.train_steps as nat));
    lemma_comma_place("both_dirs"@, bool_text(report.both_dirs));
    lemma_comma_place("with_welch"@, bool_text(report.with_welch));
    lemma_comma_place("limit_sweep"@, bool_text(report.limit_sweep));
    lemma_comma_place("elapsed_ms"@, report.elapsed_ms@.plain);
    lemma_comma_place("n_ffts"@, list);
    lemma_comma_place("row_count"@, decimal(report.rows@.len()));
    assert(body.take(0) =~= Seq::empty());
    assert(body.take(1).drop_last() =~= body.take(0));
    assert(body.take(2).drop_last() =~= body.take(1));
    assert(body.take(3).drop_last() =~= body.take(2));
    assert(body.take(4).drop_last() =~= body.take(3));
    assert(body.take(5).drop_last() =~= body.take(4));
    assert(body.take(6).drop_last() =~= body.take(5));
    assert(body.take(7).drop_last() =~= body.take(6));
    assert(body.take(8).drop_last() =~= body.take(7));
    assert(body.take(8) =~= body);
    let m0 = default_meta();
    assert(meta_of(body.take(0)) == m0);
    assert(body.take(1).last() == setting("iters"@, decimal(report.iters as nat)));
    let m1 = meta_of(body.take(1));
    assert(m1 == meta_step(m0, setting("iters"@, decimal(report.iters as nat))));
    assert(m1 == MetaView { iters: report.iters, ..m0 });
    let m2 = meta_of(body.take(2));
    assert(m2 == meta_step(m1, setting("train_steps"@, decimal(report.train_steps as nat))));
    assert(m2 == MetaView { train_steps: report.train_steps, ..m1 });
    let m3 = meta_of(body.take(3));
    assert(m3 == meta_step(m2, setting("both_dirs"@, bool_text(report.both_dirs))));
    assert(m3 == MetaView { both_dirs: report.both_dirs, ..m2 });
    let m4 = meta_of(body.take(4));
    assert(m4 == meta_step(m3, setting("with_welch"@, bool_text(report.with_welch))));
    assert(m4 == MetaView { with_welch: report.with_welch, ..m3 });
    let m5 = meta_of(body.take(5));
    assert(m5 == meta_step(m4, setting("limit_sweep"@, bool_text(report.limit_sweep))));
    assert(m5 == MetaView { limit_sweep: report.limit_sweep, ..m4 });
    let m6 = meta_of(body.take(6));
    assert(m6 == meta_step(m5, setting("elapsed_ms"@, report.elapsed_ms@.plain)));
    assert(m6 == MetaView { elapsed_ms: Some(report.elapsed_ms@.plain), ..m5 });
    let m7 = meta_of(body.take(7));
    assert(m7 == meta_step(m6, setting("n_ffts"@, list)));
    assert(m7 == MetaView { n_ffts: ns, ..m6 });
    let m8 = meta_of(body.take(8));
    assert(m8 == meta_step(m7, setting("row_count"@, decimal(report.rows@.len()))));
    assert(m8 == m7);
}

proof fn lemma_decimal_line(n: nat)
    ensures
        !decimal(n).contains('\n'),
        decimal(n).len() > 0,
        decimal(n).last() != '\r',
{
    lemma_decimal_bare(n);
    lemma_bare_contains(decimal(n));
    lemma_decimal(n);
    assert(decimal(n).last() == decimal(n)[decimal(n).len() - 1]);
}

/// A key starts with its own letter and holds neither a comma nor a line feed.
spec fn key_with(s: Seq<char>, first: char) -> bool {
    s.len() > 0 && s[0] == first && !s.contains(',') && !s.contains('\n')
}

proof fn lemma_keys()
    ensures
        key_with("iters"@, 'i'),
        key_with("train_steps"@, 't'),
        key_with("both_dirs"@, 'b'),
        key_with("with_welch"@, 'w'),
        key_with("limit_sweep"@, 'l'),
        key_with("elapsed_ms"@, 'e'),
        key_with("n_ffts"@, 'n'),
        key_with("row_count"@, 'r'),
        !"key,value"@.contains('\n'),
        "key,value"@.len() > 0,
        "key,value"@.last() != '\r',
{
    reveal_strlit("key,value");
    reveal_strlit("iters");
    reveal_strlit("train_steps");
    reveal_strlit("both_dirs");
    reveal_strlit("with_welch");
    reveal_strlit("limit_sweep");
    reveal_strlit("elapsed_ms");
    reveal_strlit("n_ffts");
    reveal_strlit("row_count");
}

proof fn lemma_setting_line(k: Seq<char>, v: Seq<char>)
    requires
        !k.contains(','),
        !k.contains('\n'),
        !v.contains('\n'),
        v.len() > 0 ==> v.last() != '\r',
    ensures
        !setting(k, v).contains('\n'),
        setting(k, v).last() != '\r',
        comma_place(setting(k, v)) == k.len(),
        setting(k, v).take(k.len() as int) == k,
        setting(k, v).skip(k.len() as int + 1) == v,
        k.len() < setting(k, v).len(),
{
    lemma_comma_place(k, v);
    let s = setting(k, v);
    if s.contains('\n') {
        let i = choose|i: int| 0 <= i < s.len() && s[i] == '\n';
        if i < k.len() {
            assert(k[i] == '\n');
        } else if i > k.len() {
            assert(v[i - k.len() - 1] == '\n');
        }
    }
    if v.len() > 0 {
        assert(s.last() == v.last());
    } else {
        assert(s.last() == ',');
    }
}

} // verus!

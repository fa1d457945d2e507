//! Ablation studies: measured rows, winners, the best variants of each size, and merged reports.

use crate::figure::{equal, is_equal, is_less, is_nan, less, nan, rank, rank_of, Figure, FigureView};
use crate::order::{ascending, models, sorted_distinct, stable_order, stable_order_of, Ranked};
use crate::text::{copy_text, same_text};
use vstd::prelude::*;

verus! {

/// One measurement of one variant.
#[derive(Clone, Debug)]
pub struct AblationRow {
    pub tier: String,
    pub variant: String,
    pub direction: String,
    pub n_fft: usize,
    pub batch: usize,
    pub device: String,
    pub iters: usize,
    pub ms: Figure,
    pub max_err: Figure,
    pub train_steps: usize,
    pub param_count: usize,
    pub memory_bytes: usize,
    /// `ok`, `prepare_fail`, or `bench_fail`.
    pub status: String,
    pub note: Option<String>,
}

/// What a row stands for.
pub struct RowView {
    pub tier: Seq<char>,
    pub variant: Seq<char>,
    pub direction: Seq<char>,
    pub n_fft: usize,
    pub batch: usize,
    pub device: Seq<char>,
    pub iters: usize,
    pub ms: FigureView,
    pub max_err: FigureView,
    pub train_steps: usize,
    pub param_count: usize,
    pub memory_bytes: usize,
    pub status: Seq<char>,
    pub note: Option<Seq<char>>,
}

/// The view of an optional string.
pub open spec fn note_view(s: Option<String>) -> Option<Seq<char>> {
    match s {
        Some(t) => Some(t@),
        None => None,
    }
}

impl View for AblationRow {
    type V = RowView;

    open spec fn view(&self) -> RowView {
        RowView {
            tier: self.tier@,
            variant: self.variant@,
            direction: self.direction@,
            n_fft: self.n_fft,
            batch: self.batch,
            device: self.device@,
            iters: self.iters,
            ms: self.ms@,
            max_err: self.max_err@,
            train_steps: self.train_steps,
            param_count: self.param_count,
            memory_bytes: self.memory_bytes,
            status: self.status@,
            note: note_view(self.note),
        }
    }
}

impl AblationRow {
    /// A copy of the row.
    pub fn copy(&self) -> (r: AblationRow)
        ensures
            r@ == self@,
    {
        AblationRow {
            tier: copy_text(&self.tier),
            variant: copy_text(&self.variant),
            direction: copy_text(&self.direction),
            n_fft: self.n_fft,
            batch: self.batch,
            device: copy_text(&self.device),
            iters: self.iters,
            ms: self.ms.copy(),
            max_err: self.max_err.copy(),
            train_steps: self.train_steps,
            param_count: self.param_count,
            memory_bytes: self.memory_bytes,
            status: copy_text(&self.status),
            note: match &self.note {
                Some(t) => Some(copy_text(t)),
                None => None,
            },
        }
    }
}

/// The views of some rows.
pub open spec fn row_views(rows: Seq<AblationRow>) -> Seq<RowView> {
    rows.map_values(|r: AblationRow| r@)
}

/// The views of some borrowed rows.
pub open spec fn ref_views(rows: Seq<&AblationRow>) -> Seq<RowView> {
    rows.map_values(|r: &AblationRow| r@)
}

/// A study: how it was run and what it measured.
#[derive(Clone, Debug)]
pub struct AblationReport {
    pub iters: usize,
    pub train_steps: usize,
    pub both_dirs: bool,
    pub with_welch: bool,
    pub limit_sweep: bool,
    pub n_ffts: Vec<usize>,
    pub elapsed_ms: Figure,
    pub rows: Vec<AblationRow>,
}

impl AblationReport {
    /// The views of the report's rows.
    pub open spec fn row_views(&self) -> Seq<RowView> {
        row_views(self.rows@)
    }
}

// ---------------------------------------------------------------------------
// Winners
// ---------------------------------------------------------------------------

/// The cell of a study that a row belongs to: size, batch, device and direction.
pub open spec fn cell(r: RowView) -> (usize, (usize, (Seq<char>, Seq<char>))) {
    (r.n_fft, (r.batch, (r.device, r.direction)))
}

/// The cells of some rows.
pub open spec fn cells(rows: Seq<RowView>) -> Seq<(usize, (usize, (Seq<char>, Seq<char>)))> {
    rows.map_values(|r: RowView| cell(r))
}

/// Whether `i` is the first of the fastest among the rows that `keep` selects.
pub open spec fn fastest_at(rows: Seq<RowView>, keep: spec_fn(RowView) -> bool, i: int) -> bool {
    &&& 0 <= i < rows.len()
    &&& keep(rows[i])
    &&& forall|j: int|
        0 <= j < rows.len() && keep(#[trigger] rows[j]) ==> !less(rows[j].ms.bits, rows[i].ms.bits)
    &&& forall|j: int|
        0 <= j < i && keep(#[trigger] rows[j]) ==> less(rows[i].ms.bits, rows[j].ms.bits)
}

/// Whether a row is measured and belongs to a cell.
pub open spec fn measured_in(
    c: (usize, (usize, (Seq<char>, Seq<char>))),
) -> spec_fn(RowView) -> bool {
    |r: RowView| cell(r) == c && !nan(r.ms.bits)
}

/// Whether some row among the first `n` is measured and belongs to a cell.
pub open spec fn has_cell(
    rows: Seq<RowView>,
    n: int,
    c: (usize, (usize, (Seq<char>, Seq<char>))),
) -> bool {
    exists|j: int| 0 <= j < n && measured_in(c)(#[trigger] rows[j])
}

pub type CellKey = (usize, (usize, (String, String)));

pub(crate) fn cell_key(r: &AblationRow) -> (k: CellKey)
    ensures
        k.model() == cell(r@),
{
    (r.n_fft, (r.batch, (copy_text(&r.device), copy_text(&r.direction))))
}

pub(crate) fn same_cell(r: &AblationRow, k: &CellKey) -> (same: bool)
    ensures
        same == (cell(r@) == k.model()),
{
    r.n_fft == k.0 && r.batch == k.1.0 && same_text(r.device.as_str(), k.1.1.0.as_str())
        && same_text(r.direction.as_str(), k.1.1.1.as_str())
}

/// The winners of a study: for every cell with a measurement, in ascending order of cells, the
/// first of its fastest rows.
pub open spec fn winners(rows: Seq<RowView>, w: Seq<RowView>) -> bool {
    &&& ascending::<CellKey>(cells(w))
    &&& forall|k: int| 0 <= k < w.len() ==> wins_cell(rows, #[trigger] w[k])
    &&& forall|i: int|
        0 <= i < rows.len() && !nan((#[trigger] rows[i]).ms.bits) ==> cells(w).contains(
            cell(rows[i]),
        )
}

/// Whether a row is the first of the fastest measured rows of its cell.
pub open spec fn wins_cell(rows: Seq<RowView>, r: RowView) -> bool {
    exists|i: int| #[trigger] fastest_at(rows, measured_in(cell(r)), i) && r == rows[i]
}

/// The first of the fastest measured rows of a cell.
fn fastest_in_cell(rows: &Vec<AblationRow>, key: &CellKey) -> (r: Option<usize>)
    ensures
        match r {
            Some(i) => fastest_at(row_views(rows@), measured_in(key.model()), i as int),
            None => forall|i: int|
                0 <= i < rows.len() ==> !measured_in(key.model())(#[trigger] row_views(rows@)[i]),
        },
{
    let ghost v = row_views(rows@);
    let ghost keep = measured_in(key.model());
    let mut best: Option<usize> = None;
    let mut i: usize = 0;
    while i < rows.len()
        invariant
            i <= rows.len(),
            v == row_views(rows@),
            keep == measured_in(key.model()),
            match best {
                Some(b) => b < i && fastest_at(v.take(i as int), keep, b as int),
                None => forall|j: int| 0 <= j < i ==> !keep(#[trigger] v[j]),
            },
        decreases rows.len() - i,
    {
        let r = &rows[i];
        assert(v[i as int] == r@);
        let ghost now = v.take(i + 1);
        proof {
            assert forall|j: int| 0 <= j < i implies #[trigger] now[j] == v.take(i as int)[j] by {}
        }
        if same_cell(r, key) && !is_nan(r.ms.bits) {
            match best {
                Some(b) => {
                    assert(v.take(i as int)[b as int] == v[b as int]);
                    assert(rows@[b as int]@ == v[b as int]);
                    if is_less(r.ms.bits, rows[b].ms.bits) {
                        best = Some(i);
                        assert(fastest_at(now, keep, i as int));
                    } else {
                        assert(fastest_at(now, keep, b as int));
                    }
                },
                None => {
                    best = Some(i);
                    assert(fastest_at(now, keep, i as int));
                },
            }
        } else {
            match best {
                Some(b) => {
                    assert(fastest_at(now, keep, b as int));
                },
                None => {},
            }
        }
        i += 1;
    }
    assert(v.take(v.len() as int) =~= v);
    best
}

/// The fastest measured variant of every cell.
pub fn ablation_winners(report: &AblationReport) -> (r: Vec<&AblationRow>)
    ensures
        winners(report.row_views(), ref_views(r@)),
{
    let rows = &report.rows;
    let ghost v = row_views(rows@);
    let mut keys: Vec<CellKey> = Vec::new();
    let mut i: usize = 0;
    while i < rows.len()
        invariant
            i <= rows.len(),
            v == row_views(rows@),
            forall|k: int| 0 <= k < keys.len() ==> has_cell(v, i as int, #[trigger] models(keys@)[k]),
            forall|j: int|
                0 <= j < i && !nan((#[trigger] v[j]).ms.bits) ==> models(keys@).contains(
                    cell(v[j]),
                ),
        decreases rows.len() - i,
    {
        let ghost was = models(keys@);
        assert(v[i as int] == rows@[i as int]@);
        if !is_nan(rows[i].ms.bits) {
            keys.push(cell_key(&rows[i]));
            assert(models(keys@) =~= was.push(cell(v[i as int])));
            assert(models(keys@)[was.len() as int] == cell(v[i as int]));
        }
        proof {
            let now = models(keys@);
            assert forall|j: int| 0 <= j < i + 1 && !nan((#[trigger] v[j]).ms.bits) implies now.contains(
                cell(v[j]),
            ) by {
                if j < i {
                    let k = choose|k: int| 0 <= k < was.len() && was[k] == cell(v[j]);
                    assert(now[k] == cell(v[j]));
                }
            }
            assert forall|k: int| 0 <= k < now.len() implies has_cell(v, i + 1, #[trigger] now[k]) by {
                if k < was.len() {
                    assert(has_cell(v, i as int, was[k]));
                    let j = choose|j: int| 0 <= j < i && measured_in(was[k])(#[trigger] v[j]);
                    assert(measured_in(now[k])(v[j]));
                } else {
                    assert(measured_in(now[k])(v[i as int]));
                }
            }
        }
        i += 1;
    }
    let ghost before = models(keys@);
    let keys = sorted_distinct(keys);
    let ghost m = models(keys@);
    let mut out: Vec<&AblationRow> = Vec::new();
    let mut k: usize = 0;
    proof {
        assert forall|a: int| 0 <= a < m.len() implies has_cell(v, v.len() as int, #[trigger] m[a]) by {
            assert(m.to_set().contains(m[a]));
            assert(before.to_set().contains(m[a]));
            let b = choose|b: int| 0 <= b < before.len() && before[b] == m[a];
            assert(has_cell(v, v.len() as int, before[b]));
        }
    }
    while k < keys.len()
        invariant
            k <= keys.len(),
            m == models(keys@),
            rows == &report.rows,
            v == row_views(rows@),
            forall|a: int| 0 <= a < m.len() ==> has_cell(v, v.len() as int, #[trigger] m[a]),
            out.len() == k,
            forall|a: int|
                0 <= a < k ==> cell(#[trigger] ref_views(out@)[a]) == m[a] && wins_cell(
                    v,
                    ref_views(out@)[a],
                ),
        decreases keys.len() - k,
    {
        let found = fastest_in_cell(rows, &keys[k]);
        proof {
            assert(m[k as int] == keys@[k as int].model());
            assert(has_cell(v, v.len() as int, m[k as int]));
        }
        let ghost was = ref_views(out@);
        let at: usize = found.unwrap();
        out.push(&rows[at]);
        proof {
            assert(ref_views(out@) =~= was.push(v[at as int]));
            assert(fastest_at(v, measured_in(m[k as int]), at as int));
        }
        k += 1;
    }
    proof {
        let w = ref_views(out@);
        assert(cells(w) =~= m);
        assert forall|i: int| 0 <= i < v.len() && !nan((#[trigger] v[i]).ms.bits) implies cells(
            w,
        ).contains(cell(v[i])) by {
            assert(before.to_set().contains(cell(v[i])));
            assert(m.to_set().contains(cell(v[i])));
        }
    }
    out
}

// ---------------------------------------------------------------------------
// The best variants of each size
// ---------------------------------------------------------------------------

/// Whether a row holds a usable measurement: status `ok` and a positive time.
pub open spec fn usable(r: RowView) -> bool {
    r.status == "ok"@ && !nan(r.ms.bits) && rank(r.ms.bits) > 0
}

/// Whether a row holds a usable measurement.
pub fn ablation_row_ok(r: &AblationRow) -> (ok: bool)
    ensures
        ok == usable(r@),
{
    same_text(r.status.as_str(), "ok") && !is_nan(r.ms.bits) && rank_of(r.ms.bits) > 0
}

/// Whether `a` replaces `b` as the best row of a variant: faster, or as fast with a smaller error.
pub open spec fn better(a: RowView, b: RowView) -> bool {
    less(a.ms.bits, b.ms.bits) || (equal(a.ms.bits, b.ms.bits) && less(
        a.max_err.bits,
        b.max_err.bits,
    ))
}

/// The best rows of a size, one for each variant in the order in which the variants first appear:
/// a usable row joins when its variant is new and replaces the best row of its variant when it is
/// better.
pub open spec fn best_rows(rows: Seq<RowView>, n: usize) -> Seq<RowView>
    decreases rows.len(),
{
    if rows.len() == 0 {
        Seq::empty()
    } else {
        let b = best_rows(rows.drop_last(), n);
        let r = rows.last();
        if r.n_fft != n || !usable(r) {
            b
        } else {
            match variant_place(b, r.variant) {
                None => b.push(r),
                Some(k) => if better(r, b[k]) {
                    b.update(k, r)
                } else {
                    b
                },
            }
        }
    }
}

/// Where a variant stands among some rows.
pub open spec fn variant_place(rows: Seq<RowView>, variant: Seq<char>) -> Option<int>
    decreases rows.len(),
{
    if rows.len() == 0 {
        None
    } else if rows.last().variant == variant {
        Some(rows.len() - 1)
    } else {
        variant_place(rows.drop_last(), variant)
    }
}

proof fn lemma_variant_place(rows: Seq<RowView>, variant: Seq<char>)
    ensures
        match variant_place(rows, variant) {
            Some(k) => 0 <= k < rows.len() && rows[k].variant == variant,
            None => forall|k: int| 0 <= k < rows.len() ==> (#[trigger] rows[k]).variant != variant,
        },
    decreases rows.len(),
{
    if rows.len() > 0 && rows.last().variant != variant {
        let d = rows.drop_last();
        lemma_variant_place(d, variant);
        if variant_place(d, variant) is None {
            assert forall|k: int| 0 <= k < rows.len() implies (#[trigger] rows[k]).variant
                != variant by {
                if k < d.len() {
                    assert(d[k].variant != variant);
                }
            }
        }
    }
}

/// The rank of an error, with one that is not a number after all others.
pub open spec fn err_rank(bits: u64) -> int {
    if nan(bits) {
        i64::MAX as int
    } else {
        rank(bits)
    }
}

pub(crate) fn err_rank_of(bits: u64) -> (r: i64)
    ensures
        r == err_rank(bits),
{
    if is_nan(bits) {
        i64::MAX
    } else {
        rank_of(bits)
    }
}

/// What the best rows are sorted by: time, and error where times are equal.
pub open spec fn speed_keys(rows: Seq<RowView>) -> Seq<(i64, i64)> {
    rows.map_values(
        |r: RowView| (rank(r.ms.bits) as i64, err_rank(r.max_err.bits) as i64),
    )
}

/// The rows at some positions.
pub open spec fn picked(rows: Seq<RowView>, order: Seq<usize>) -> Seq<RowView> {
    order.map_values(|i: usize| rows[i as int])
}

/// The first five of some rows by time and error, ties in their first order.
pub open spec fn five_fastest(best: Seq<RowView>, out: Seq<RowView>) -> bool {
    exists|order: Seq<usize>| #[trigger]
        stable_order_of::<(i64, i64)>(speed_keys(best), order) && out == picked(best, order).take(if order.len() < 5 { order.len() as int } else { 5 })
}

/// The best five variants of each size: every size of the study once, in ascending order, each
/// with its five fastest variants.
pub open spec fn top_five(rows: Seq<RowView>, out: Seq<(usize, Seq<RowView>)>) -> bool {
    &&& ascending::<usize>(listed_sizes(out))
    &&& listed_sizes(out).to_set() == sizes(rows).to_set()
    &&& forall|k: int| 0 <= k < out.len() ==> five_of_size(rows, #[trigger] out[k])
}

/// The sizes of a list of sizes with rows.
pub open spec fn listed_sizes(v: Seq<(usize, Seq<RowView>)>) -> Seq<usize> {
    v.map_values(|p: (usize, Seq<RowView>)| p.0)
}

/// Whether a size comes with its five fastest variants.
pub open spec fn five_of_size(rows: Seq<RowView>, p: (usize, Seq<RowView>)) -> bool {
    five_fastest(best_rows(rows, p.0), p.1)
}

/// The transform sizes of some rows.
pub open spec fn sizes(rows: Seq<RowView>) -> Seq<usize> {
    rows.map_values(|r: RowView| r.n_fft)
}

/// The transform sizes of some rows, ascending and without repeats.
pub fn distinct_sizes(rows: &Vec<AblationRow>) -> (r: Vec<usize>)
    ensures
        ascending::<usize>(r@),
        r@.to_set() == sizes(row_views(rows@)).to_set(),
{
    let mut out: Vec<usize> = Vec::new();
    let mut i: usize = 0;
    while i < rows.len()
        invariant
            i <= rows.len(),
            out.len() == i,
            forall|k: int| 0 <= k < i ==> #[trigger] out@[k] == rows@[k].n_fft,
        decreases rows.len() - i,
    {
        out.push(rows[i].n_fft);
        i += 1;
    }
    assert(models(out@) =~= sizes(row_views(rows@)));
    let r = sorted_distinct(out);
    assert(models(r@) =~= r@);
    r
}

fn best_rows_of(rows: &Vec<AblationRow>, n: usize) -> (r: Vec<&AblationRow>)
    ensures
        ref_views(r@) == best_rows(row_views(rows@), n),
{
    let ghost v = row_views(rows@);
    let mut out: Vec<&AblationRow> = Vec::new();
    let mut i: usize = 0;
    assert(ref_views(out@) =~= best_rows(v.take(0), n));
    while i < rows.len()
        invariant
            i <= rows.len(),
            v == row_views(rows@),
            ref_views(out@) == best_rows(v.take(i as int), n),
        decreases rows.len() - i,
    {
        let r = &rows[i];
        let ghost b = ref_views(out@);
        proof {
            assert(v.take(i + 1).drop_last() =~= v.take(i as int));
            assert(v.take(i + 1).last() == r@);
            lemma_variant_place(b, r@.variant);
        }
        if r.n_fft == n && ablation_row_ok(r) {
            let mut at: usize = out.len();
            assert(b.take(out@.len() as int) =~= b);
            while at > 0 && !same_text(out[at - 1].variant.as_str(), r.variant.as_str())
                invariant
                    at <= out.len(),
                    b == ref_views(out@),
                    variant_place(b, r@.variant) == variant_place(b.take(at as int), r@.variant),
                decreases at,
            {
                assert(b.take(at as int).drop_last() =~= b.take(at - 1));
                assert(b.take(at as int).last() == out@[at - 1]@);
                at -= 1;
            }
            if at == 0 {
                out.push(r);
                assert(ref_views(out@) =~= b.push(r@));
            } else {
                assert(b.take(at as int).last() == out@[at - 1]@);
                assert(variant_place(b, r@.variant) == Some(at - 1));
                let k: usize = at - 1;
                let prev = out[k];
                if is_less(r.ms.bits, prev.ms.bits) || (is_equal(r.ms.bits, prev.ms.bits)
                    && is_less(r.max_err.bits, prev.max_err.bits)) {
                    out.set(k, r);
                    assert(ref_views(out@) =~= b.update(k as int, r@));
                }
            }
        }
        i += 1;
    }
    assert(v.take(v.len() as int) =~= v);
    out
}

/// The best row of every variant at each size, and of these the five fastest.
pub fn top5_variants_per_n_fft(ab: &AblationReport) -> (r: Vec<(usize, Vec<&AblationRow>)>)
    ensures
        top_five(ab.row_views(), top_views(r@)),
{
    let sizes_all = distinct_sizes(&ab.rows);
    let ghost v = ab.row_views();
    let mut out: Vec<(usize, Vec<&AblationRow>)> = Vec::new();
    let mut i: usize = 0;
    while i < sizes_all.len()
        invariant
            i <= sizes_all.len(),
            v == row_views(ab.rows@),
            out.len() == i,
            forall|k: int| 0 <= k < i ==> (#[trigger] top_views(out@)[k]).0 == sizes_all@[k],
            forall|k: int| 0 <= k < i ==> five_of_size(v, #[trigger] top_views(out@)[k]),
        decreases sizes_all.len() - i,
    {
        let n: usize = sizes_all[i];
        let best = best_rows_of(&ab.rows, n);
        let five = fastest_five(&best);
        let ghost was = top_views(out@);
        let ghost pair = (n, ref_views(five@));
        assert(five_of_size(v, pair));
        out.push((n, five));
        assert(top_views(out@) =~= was.push(pair));
        i += 1;
    }
    proof {
        assert(listed_sizes(top_views(out@)) =~= sizes_all@);
    }
    out
}

/// The views of a list of sizes with borrowed rows.
pub open spec fn top_views(v: Seq<(usize, Vec<&AblationRow>)>) -> Seq<(usize, Seq<RowView>)> {
    v.map_values(|p: (usize, Vec<&AblationRow>)| (p.0, ref_views(p.1@)))
}

fn fastest_five<'a>(best: &Vec<&'a AblationRow>) -> (r: Vec<&'a AblationRow>)
    ensures
        five_fastest(ref_views(best@), ref_views(r@)),
{
    let ghost b = ref_views(best@);
    let mut keys: Vec<(i64, i64)> = Vec::new();
    let mut i: usize = 0;
    while i < best.len()
        invariant
            i <= best.len(),
            keys.len() == i,
            forall|k: int|
                0 <= k < i ==> #[trigger] keys@[k] == (
                    rank(best@[k].ms.bits) as i64,
                    err_rank(best@[k].max_err.bits) as i64,
                ),
        decreases best.len() - i,
    {
        keys.push((rank_of(best[i].ms.bits), err_rank_of(best[i].max_err.bits)));
        i += 1;
    }
    assert(models(keys@) =~= speed_keys(b));
    let order = stable_order(&keys);
    let mut out: Vec<&AblationRow> = Vec::new();
    let mut k: usize = 0;
    let ghost full = picked(b, order@);
    while k < order.len() && k < 5
        invariant
            k <= order.len(),
            k <= 5,
            order.len() == best.len(),
            b == ref_views(best@),
            full == picked(b, order@),
            forall|j: int| 0 <= j < order.len() ==> (#[trigger] order@[j]) < best.len(),
            ref_views(out@) == full.take(k as int),
        decreases order.len() - k,
    {
        let at: usize = order[k];
        let ghost was = ref_views(out@);
        out.push(best[at]);
        assert(b[at as int] == best@[at as int]@);
        assert(ref_views(out@) =~= was.push(b[at as int]));
        assert(full[k as int] == b[at as int]);
        assert(ref_views(out@) =~= full.take(k + 1));
        k += 1;
    }
    assert(ref_views(out@) == full.take(if order@.len() < 5 { order@.len() as int } else { 5 }));
    out
}

/// The best rows of a size are usable rows of that size, one for each variant.
pub proof fn best_rows_are_distinct(rows: Seq<RowView>, n: usize)
    ensures
        forall|k: int|
            0 <= k < best_rows(rows, n).len() ==> usable(#[trigger] best_rows(rows, n)[k])
                && best_rows(rows, n)[k].n_fft == n && rows.contains(best_rows(rows, n)[k]),
        forall|j: int, k: int|
            0 <= j < k < best_rows(rows, n).len() ==> (#[trigger] best_rows(rows, n)[j]).variant != (
            #[trigger] best_rows(rows, n)[k]).variant,
    decreases rows.len(),
{
    if rows.len() > 0 {
        let d = rows.drop_last();
        best_rows_are_distinct(d, n);
        let b = best_rows(d, n);
        let r = rows.last();
        lemma_variant_place(b, r.variant);
        assert(rows[rows.len() - 1] == r);
        assert forall|x: RowView| d.contains(x) implies rows.contains(x) by {
            let k = choose|k: int| 0 <= k < d.len() && d[k] == x;
            assert(rows[k] == x);
        }
        let now = best_rows(rows, n);
        assert forall|k: int| 0 <= k < now.len() implies usable(#[trigger] now[k]) && now[k].n_fft
            == n && rows.contains(now[k]) by {
            if k < b.len() && now[k] == b[k] {
                assert(d.contains(b[k]));
            }
        }
        assert forall|j: int, k: int| 0 <= j < k < now.len() implies (#[trigger] now[j]).variant != (
        #[trigger] now[k]).variant by {
            if j < b.len() {
                assert(now[j].variant == b[j].variant || now[j] == r);
            }
            if k < b.len() {
                assert(now[k].variant == b[k].variant || now[k] == r);
                assert(b[j].variant != b[k].variant);
            }
        }
    }
}

/// No variant is listed twice among the best five of a size, every listed row is usable, and no
/// later row is faster than an earlier one.
pub proof fn top_five_is_sound(rows: Seq<RowView>, p: (usize, Seq<RowView>))
    requires
        five_of_size(rows, p),
    ensures
        p.1.len() <= 5,
        forall|k: int| 0 <= k < p.1.len() ==> usable(#[trigger] p.1[k]) && p.1[k].n_fft == p.0,
        forall|j: int, k: int|
            0 <= j < k < p.1.len() ==> (#[trigger] p.1[j]).variant != (#[trigger] p.1[k]).variant
                && !less(p.1[k].ms.bits, p.1[j].ms.bits),
{
    let best = best_rows(rows, p.0);
    best_rows_are_distinct(rows, p.0);
    let order = choose|order: Seq<usize>| #[trigger]
        stable_order_of::<(i64, i64)>(speed_keys(best), order) && p.1 == picked(best, order).take(if order.len() < 5 { order.len() as int } else { 5 });
    assert forall|k: int| 0 <= k < p.1.len() implies usable(#[trigger] p.1[k]) && p.1[k].n_fft
        == p.0 by {
        assert(p.1[k] == best[order[k] as int]);
    }
    assert forall|j: int, k: int| 0 <= j < k < p.1.len() implies (#[trigger] p.1[j]).variant != (
    #[trigger] p.1[k]).variant && !less(p.1[k].ms.bits, p.1[j].ms.bits) by {
        let a = order[j] as int;
        let b = order[k] as int;
        assert(p.1[j] == best[a] && p.1[k] == best[b]);
        assert(a != b);
        if a < b {
            assert(best[a].variant != best[b].variant);
        } else {
            assert(best[b].variant != best[a].variant);
        }
        assert(speed_keys(best)[a].0 == rank(best[a].ms.bits));
        assert(speed_keys(best)[b].0 == rank(best[b].ms.bits));
    }
}

// ---------------------------------------------------------------------------
// Merging
// ---------------------------------------------------------------------------

/// The rows of several reports, one report after the other.
pub open spec fn all_rows(reports: Seq<AblationReport>) -> Seq<RowView>
    decreases reports.len(),
{
    if reports.len() == 0 {
        Seq::empty()
    } else {
        all_rows(reports.drop_last()) + reports.last().row_views()
    }
}

/// Whether some report names a size.
pub open spec fn names_size(reports: Seq<AblationReport>, n: usize) -> bool {
    exists|i: int| 0 <= i < reports.len() && (#[trigger] reports[i]).n_ffts@.contains(n)
}

/// Merges reports: the settings of the first, the rows of all in order, and the sizes of all in
/// ascending order without repeats. `elapsed_ms` is the total time.
pub fn merge_ablation_reports(reports: &Vec<AblationReport>, elapsed_ms: Figure) -> (r:
    AblationReport)
    ensures
        reports.len() > 0 ==> r.iters == reports@[0].iters && r.train_steps
            == reports@[0].train_steps && r.both_dirs == reports@[0].both_dirs && r.with_welch
            == reports@[0].with_welch,
        reports.len() == 0 ==> r.iters == 0 && r.train_steps == 0 && r.both_dirs && r.with_welch,
        r.limit_sweep == exists|i: int|
            0 <= i < reports.len() && (#[trigger] reports@[i]).limit_sweep,
        ascending::<usize>(r.n_ffts@),
        forall|n: usize| #[trigger] r.n_ffts@.contains(n) <==> names_size(reports@, n),
        r.elapsed_ms == elapsed_ms,
        r.row_views() == all_rows(reports@),
{
    let mut rows: Vec<AblationRow> = Vec::new();
    let mut n_ffts: Vec<usize> = Vec::new();
    let mut limit_sweep = false;
    let mut i: usize = 0;
    assert(row_views(rows@) =~= all_rows(reports@.take(0)));
    while i < reports.len()
        invariant
            i <= reports.len(),
            row_views(rows@) == all_rows(reports@.take(i as int)),
            limit_sweep == exists|k: int| 0 <= k < i && (#[trigger] reports@[k]).limit_sweep,
            forall|n: usize| #[trigger]
                n_ffts@.contains(n) <==> names_size(reports@.take(i as int), n),
        decreases reports.len() - i,
    {
        let rep = &reports[i];
        let ghost before = row_views(rows@);
        let ghost sizes_before = n_ffts@;
        let mut k: usize = 0;
        assert(rep.row_views().take(0) =~= Seq::empty());
        while k < rep.rows.len()
            invariant
                k <= rep.rows.len(),
                row_views(rows@) == before + rep.row_views().take(k as int),
            decreases rep.rows.len() - k,
        {
            let ghost was = row_views(rows@);
            rows.push(rep.rows[k].copy());
            assert(row_views(rows@) =~= was.push(rep.row_views()[k as int]));
            assert(row_views(rows@) =~= before + rep.row_views().take(k + 1));
            k += 1;
        }
        assert(rep.row_views().take(k as int) =~= rep.row_views());
        let mut m: usize = 0;
        while m < rep.n_ffts.len()
            invariant
                m <= rep.n_ffts.len(),
                n_ffts@ == sizes_before + rep.n_ffts@.take(m as int),
            decreases rep.n_ffts.len() - m,
        {
            n_ffts.push(rep.n_ffts[m]);
            assert(n_ffts@ =~= sizes_before + rep.n_ffts@.take(m + 1));
            m += 1;
        }
        assert(rep.n_ffts@.take(m as int) =~= rep.n_ffts@);
        proof {
            let now = reports@.take(i + 1);
            let old_reports = reports@.take(i as int);
            assert(now.drop_last() =~= old_reports);
            assert(now[i as int] == *rep);
            assert forall|n: usize| #[trigger] n_ffts@.contains(n) <==> names_size(now, n) by {
                assert(sizes_before.contains(n) <==> names_size(old_reports, n));
                if n_ffts@.contains(n) {
                    let q = choose|q: int| 0 <= q < n_ffts@.len() && n_ffts@[q] == n;
                    if q < sizes_before.len() {
                        assert(sizes_before[q] == n);
                        assert(sizes_before.contains(n));
                        let p = choose|p: int|
                            0 <= p < old_reports.len() && (
                            #[trigger] old_reports[p]).n_ffts@.contains(n);
                        assert(now[p].n_ffts@.contains(n));
                    } else {
                        assert(rep.n_ffts@[q - sizes_before.len()] == n);
                        assert(now[i as int].n_ffts@.contains(n));
                    }
                }
                if names_size(now, n) {
                    let p = choose|p: int|
                        0 <= p < now.len() && (#[trigger] now[p]).n_ffts@.contains(n);
                    if p < i {
                        assert(old_reports[p].n_ffts@.contains(n));
                        assert(names_size(old_reports, n));
                        let q = choose|q: int|
                            0 <= q < sizes_before.len() && sizes_before[q] == n;
                        assert(n_ffts@[q] == n);
                    } else {
                        let q = choose|q: int| 0 <= q < rep.n_ffts@.len() && rep.n_ffts@[q] == n;
                        assert(n_ffts@[sizes_before.len() + q] == n);
                    }
                }
            }
        }
        if rep.limit_sweep {
            limit_sweep = true;
            assert(reports@[i as int].limit_sweep);
        }
        i += 1;
    }
    assert(reports@.take(reports@.len() as int) =~= reports@);
    let ghost unsorted = n_ffts@;
    assert(models(n_ffts@) =~= n_ffts@);
    let n_ffts = sorted_distinct(n_ffts);
    assert(models(n_ffts@) =~= n_ffts@);
    proof {
        assert forall|n: usize| #[trigger] n_ffts@.contains(n) <==> names_size(reports@, n) by {
            assert(n_ffts@.to_set().contains(n) == unsorted.to_set().contains(n));
            assert(unsorted.contains(n) == names_size(reports@, n));
        }
    }
    let (iters, train_steps, both_dirs, with_welch) = if reports.len() > 0 {
        let first = &reports[0];
        (first.iters, first.train_steps, first.both_dirs, first.with_welch)
    } else {
        (0, 0, true, true)
    };
    AblationReport {
        iters,
        train_steps,
        both_dirs,
        with_welch,
        limit_sweep,
        n_ffts,
        elapsed_ms,
        rows,
    }
}

/// Merging reports keeps every row.
pub proof fn merging_keeps_rows(reports: Seq<AblationReport>, i: int, k: int)
    requires
        0 <= i < reports.len(),
        0 <= k < reports[i].row_views().len(),
    ensures
        all_rows(reports).contains(reports[i].row_views()[k]),
    decreases reports.len(),
{
    let d = all_rows(reports.drop_last());
    let last = reports.last().row_views();
    if i == reports.len() - 1 {
        assert(all_rows(reports)[d.len() + k] == last[k]);
    } else {
        merging_keeps_rows(reports.drop_last(), i, k);
        let q = choose|q: int| 0 <= q < d.len() && d[q] == reports[i].row_views()[k];
        assert(all_rows(reports)[q] == d[q]);
    }
}

// ---------------------------------------------------------------------------
// Tiers
// ---------------------------------------------------------------------------

/// The tier of a variant: that of its first row, `?` where it has none.
pub open spec fn tier_of(rows: Seq<RowView>, variant: Seq<char>) -> Seq<char>
    decreases rows.len(),
{
    if rows.len() == 0 {
        "?"@
    } else if rows[0].variant == variant {
        rows[0].tier
    } else {
        tier_of(rows.drop_first(), variant)
    }
}

/// The tier of a variant.
pub fn tier_for(rows: &Vec<AblationRow>, variant: &str) -> (r: String)
    ensures
        r@ == tier_of(row_views(rows@), variant@),
{
    let ghost v = row_views(rows@);
    let mut i: usize = 0;
    assert(v.skip(0) =~= v);
    while i < rows.len()
        invariant
            i <= rows.len(),
            v == row_views(rows@),
            tier_of(v, variant@) == tier_of(v.skip(i as int), variant@),
        decreases rows.len() - i,
    {
        assert(v.skip(i as int)[0] == rows@[i as int]@);
        if same_text(rows[i].variant.as_str(), variant) {
            return copy_text(&rows[i].tier);
        }
        assert(v.skip(i as int).drop_first() =~= v.skip(i + 1));
        i += 1;
    }
    "?".to_owned()
}

/// How many of some winners have a variant of a tier.
pub open spec fn wins_of(rows: Seq<RowView>, w: Seq<RowView>, tier: Seq<char>) -> nat
    decreases w.len(),
{
    if w.len() == 0 {
        0
    } else {
        wins_of(rows, w.drop_last(), tier) + if tier_of(rows, w.last().variant) == tier {
            1nat
        } else {
            0
        }
    }
}

/// The views of a list of counted texts.
pub open spec fn count_views(v: Seq<(String, usize)>) -> Seq<(Seq<char>, usize)> {
    v.map_values(|p: (String, usize)| (p.0@, p.1))
}

/// Whether `out` counts the wins of every tier that wins, each tier once.
pub open spec fn tier_counts(
    rows: Seq<RowView>,
    w: Seq<RowView>,
    out: Seq<(Seq<char>, usize)>,
) -> bool {
    &&& forall|k: int|
        0 <= k < out.len() ==> (#[trigger] out[k]).1 == wins_of(rows, w, out[k].0) && out[k].1 > 0
    &&& forall|j: int, k: int|
        0 <= j < k < out.len() ==> (#[trigger] out[j]).0 != (#[trigger] out[k]).0
    &&& forall|k: int|
        0 <= k < w.len() ==> tier_listed(out, tier_of(rows, (#[trigger] w[k]).variant))
}

/// Whether a tier is among the counted ones.
pub open spec fn tier_listed(out: Seq<(Seq<char>, usize)>, tier: Seq<char>) -> bool {
    exists|k: int| 0 <= k < out.len() && (#[trigger] out[k]).0 == tier
}

proof fn lemma_wins_bound(rows: Seq<RowView>, w: Seq<RowView>, tier: Seq<char>)
    ensures
        wins_of(rows, w, tier) <= w.len(),
    decreases w.len(),
{
    if w.len() > 0 {
        lemma_wins_bound(rows, w.drop_last(), tier);
    }
}

proof fn lemma_no_wins(rows: Seq<RowView>, w: Seq<RowView>, tier: Seq<char>)
    requires
        forall|k: int| 0 <= k < w.len() ==> tier_of(rows, (#[trigger] w[k]).variant) != tier,
    ensures
        wins_of(rows, w, tier) == 0,
    decreases w.len(),
{
    if w.len() > 0 {
        let d = w.drop_last();
        assert forall|k: int| 0 <= k < d.len() implies tier_of(rows, (#[trigger] d[k]).variant)
            != tier by {
            assert(d[k] == w[k]);
        }
        lemma_no_wins(rows, d, tier);
        assert(tier_of(rows, w[w.len() - 1].variant) != tier);
    }
}

/// How often each tier has the fastest variant of a cell, over some winners.
pub fn count_tiers(rows: &Vec<AblationRow>, winners: &Vec<&AblationRow>) -> (r: Vec<
    (String, usize),
>)
    ensures
        tier_counts(row_views(rows@), ref_views(winners@), count_views(r@)),
{
    let ghost v = row_views(rows@);
    let ghost w = ref_views(winners@);
    let mut out: Vec<(String, usize)> = Vec::new();
    let mut i: usize = 0;
    while i < winners.len()
        invariant
            i <= winners.len(),
            v == row_views(rows@),
            w == ref_views(winners@),
            tier_counts(v, w.take(i as int), count_views(out@)),
        decreases winners.len() - i,
    {
        let tier = tier_for(rows, winners[i].variant.as_str());
        let ghost was = count_views(out@);
        let ghost seen = w.take(i as int);
        let ghost now = w.take(i + 1);
        proof {
            assert(now.drop_last() =~= seen);
            assert(now.last() == winners@[i as int]@);
            lemma_wins_bound(v, seen, tier@);
        }
        let mut k: usize = 0;
        while k < out.len() && !same_text(out[k].0.as_str(), tier.as_str())
            invariant
                k <= out.len(),
                was == count_views(out@),
                forall|j: int| 0 <= j < k ==> (#[trigger] was[j]).0 != tier@,
            decreases out.len() - k,
        {
            assert(was[k as int].0 == out@[k as int].0@);
            k += 1;
        }
        if k < out.len() {
            assert(was[k as int].0 == out@[k as int].0@);
            let n: usize = out[k].1;
            assert(n == wins_of(v, seen, tier@));
            let name = copy_text(&out[k].0);
            out.set(k, (name, n + 1));
            assert(count_views(out@) =~= was.update(k as int, (tier@, (n + 1) as usize)));
        } else {
            proof {
                assert forall|j: int| 0 <= j < seen.len() implies tier_of(
                    v,
                    (#[trigger] seen[j]).variant,
                ) != tier@ by {
                    assert(tier_listed(was, tier_of(v, seen[j].variant)));
                }
                lemma_no_wins(v, seen, tier@);
            }
            let ghost t = tier@;
            out.push((tier, 1));
            assert(count_views(out@) =~= was.push((t, 1usize)));
        }
        proof {
            let c = count_views(out@);
            assert forall|j: int| 0 <= j < c.len() implies (#[trigger] c[j]).1 == wins_of(
                v,
                now,
                c[j].0,
            ) && c[j].1 > 0 by {
                if j < was.len() {
                    assert(was[j].1 == wins_of(v, seen, was[j].0));
                }
            }
            assert forall|a: int, b: int| 0 <= a < b < c.len() implies (#[trigger] c[a]).0 != (
            #[trigger] c[b]).0 by {
                assert(c[a].0 == was[a].0);
                if b < was.len() {
                    assert(c[b].0 == was[b].0);
                    assert(was[a].0 != was[b].0);
                }
            }
            assert forall|j: int| 0 <= j < now.len() implies tier_listed(
                c,
                tier_of(v, (#[trigger] now[j]).variant),
            ) by {
                if j < i {
                    assert(now[j] == seen[j]);
                    assert(tier_listed(was, tier_of(v, seen[j].variant)));
                    let q = choose|q: int|
                        0 <= q < was.len() && (#[trigger] was[q]).0 == tier_of(v, seen[j].variant);
                    assert(c[q].0 == was[q].0);
                } else {
                    assert(c[k as int].0 == tier_of(v, now[j].variant));
                }
            }
        }
        i += 1;
    }
    assert(w.take(w.len() as int) =~= w);
    out
}

/// How often each tier has the fastest variant of a cell.
pub fn tier_summary(report: &AblationReport) -> (r: Vec<(String, usize)>)
    ensures
        exists|w: Seq<RowView>| #[trigger]
            winners(report.row_views(), w) && tier_counts(
                report.row_views(),
                w,
                count_views(r@),
            ),
{
    let w = ablation_winners(report);
    let r = count_tiers(&report.rows, &w);
    assert(winners(report.row_views(), ref_views(w@)));
    r
}

// ---------------------------------------------------------------------------
// What reports keep
// ---------------------------------------------------------------------------

/// A winner of a study is one of its measured rows, and no measured row of the same size, batch,
/// device and direction is faster; of those that are as fast, it is the first.
pub proof fn nothing_beats_a_winner(rows: Seq<RowView>, w: Seq<RowView>, k: int)
    requires
        winners(rows, w),
        0 <= k < w.len(),
    ensures
        !nan(w[k].ms.bits),
        exists|i: int|
            0 <= i < rows.len() && #[trigger] rows[i] == w[k] && forall|j: int|
                0 <= j < rows.len() && (#[trigger] rows[j]).n_fft == w[k].n_fft && rows[j].batch
                    == w[k].batch && rows[j].device == w[k].device && rows[j].direction
                    == w[k].direction && !nan(rows[j].ms.bits) ==> !less(
                    rows[j].ms.bits,
                    w[k].ms.bits,
                ) && (j < i ==> less(w[k].ms.bits, rows[j].ms.bits)),
{
    assert(wins_cell(rows, w[k]));
    let i = choose|i: int| #[trigger]
        fastest_at(rows, measured_in(cell(w[k])), i) && w[k] == rows[i];
    assert forall|j: int|
        0 <= j < rows.len() && (#[trigger] rows[j]).n_fft == w[k].n_fft && rows[j].batch
            == w[k].batch && rows[j].device == w[k].device && rows[j].direction == w[k].direction
            && !nan(rows[j].ms.bits) implies !less(rows[j].ms.bits, w[k].ms.bits) && (j < i
        ==> less(w[k].ms.bits, rows[j].ms.bits)) by {
        assert(cell(rows[j]) == cell(w[k]));
        assert(measured_in(cell(w[k]))(rows[j]));
    }
    assert(measured_in(cell(w[k]))(rows[i]));
}

/// A usable row has a time above nought and the status `ok`, and the best row of its variant at its
/// size is at least as fast; where it is only as fast, its error is not larger.
pub proof fn no_usable_row_beats_the_best(rows: Seq<RowView>, n: usize, i: int)
    requires
        0 <= i < rows.len(),
        usable(rows[i]),
        rows[i].n_fft == n,
    ensures
        exists|k: int|
            0 <= k < best_rows(rows, n).len() && (#[trigger] best_rows(rows, n)[k]).variant
                == rows[i].variant && !less(rows[i].ms.bits, best_rows(rows, n)[k].ms.bits) && (
            equal(rows[i].ms.bits, best_rows(rows, n)[k].ms.bits) ==> !less(
                rows[i].max_err.bits,
                best_rows(rows, n)[k].max_err.bits,
            )),
    decreases rows.len(),
{
    let d = rows.drop_last();
    let b = best_rows(d, n);
    let r = rows.last();
    let now = best_rows(rows, n);
    best_rows_are_distinct(d, n);
    lemma_variant_place(b, r.variant);
    if i == rows.len() - 1 {
        match variant_place(b, r.variant) {
            None => {
                assert(now[b.len() as int] == r);
            },
            Some(k) => {
                assert(now[k].variant == r.variant);
            },
        }
    } else {
        assert(d[i] == rows[i]);
        no_usable_row_beats_the_best(d, n, i);
        let k = choose|k: int|
            0 <= k < b.len() && (#[trigger] b[k]).variant == rows[i].variant && !less(
                rows[i].ms.bits,
                b[k].ms.bits,
            ) && (equal(rows[i].ms.bits, b[k].ms.bits) ==> !less(
                rows[i].max_err.bits,
                b[k].max_err.bits,
            ));
        assert(now[k].variant == b[k].variant);
        assert(usable(b[k]));
    }
}

/// A usable row was measured, in a time above nought, and its status says so.
pub proof fn usable_rows_took_time(r: RowView)
    requires
        usable(r),
    ensures
        less(0, r.ms.bits),
        !nan(r.ms.bits),
        r.status == "ok"@,
{
}

/// The tier of a variant is that of the first row of the variant, whatever rows follow.
pub proof fn tiers_come_from_the_first_row(rows: Seq<RowView>, variant: Seq<char>, i: int)
    requires
        0 <= i < rows.len(),
        rows[i].variant == variant,
        forall|j: int| 0 <= j < i ==> (#[trigger] rows[j]).variant != variant,
    ensures
        tier_of(rows, variant) == rows[i].tier,
    decreases i,
{
    if i > 0 {
        let rest = rows.drop_first();
        assert(rows[0].variant != variant);
        assert forall|j: int| 0 <= j < i - 1 implies (#[trigger] rest[j]).variant != variant by {
            assert(rest[j] == rows[j + 1]);
        }
        assert(rest[i - 1] == rows[i]);
        tiers_come_from_the_first_row(rest, variant, i - 1);
    }
}

/// The wins of two lists of winners put together are their wins added; a winner counts once, for the
/// tier of its variant and no other.
pub proof fn wins_add_up(rows: Seq<RowView>, a: Seq<RowView>, b: Seq<RowView>, tier: Seq<char>)
    ensures
        wins_of(rows, a + b, tier) == wins_of(rows, a, tier) + wins_of(rows, b, tier),
        forall|r: RowView| #[trigger]
            wins_of(rows, seq![r], tier) == if tier_of(rows, r.variant) == tier {
                1nat
            } else {
                0
            },
    decreases b.len(),
{
    assert forall|r: RowView| #[trigger] wins_of(rows, seq![r], tier) == if tier_of(
        rows,
        r.variant,
    ) == tier {
        1nat
    } else {
        0
    } by {
        reveal_with_fuel(wins_of, 2);
        assert(seq![r].drop_last() =~= Seq::empty());
    }
    if b.len() == 0 {
        assert(a + b =~= a);
    } else {
        wins_add_up(rows, a, b.drop_last(), tier);
        assert((a + b).drop_last() =~= a + b.drop_last());
    }
}

/// Merging reports one after the other is merging them all: the rows of the first come first.
pub proof fn merged_rows_keep_their_order(a: Seq<AblationReport>, b: Seq<AblationReport>)
    ensures
        all_rows(a + b) == all_rows(a) + all_rows(b),
    decreases b.len(),
{
    if b.len() == 0 {
        assert(a + b =~= a);
        assert(all_rows(a) + all_rows(b) =~= all_rows(a));
    } else {
        merged_rows_keep_their_order(a, b.drop_last());
        assert((a + b).drop_last() =~= a + b.drop_last());
        assert(all_rows(a + b) =~= all_rows(a) + all_rows(b));
    }
}

} // verus!

//! Benchmark sweeps over directions, sizes, batches and devices, with their charts as text.

pub use crate::device::available_devices;
pub use crate::spec_list::{parse_batch_spec, parse_csv_usize, parse_k_spec};

use crate::ablation_csv::{bool_text, show_bool};
use crate::config::{is_supported_n_fft, supported, TransformDir, SUPPORTED_N_FFT};
use crate::device::{
    reports, resolve_train_device_in, resolved, view_of, wanted_device, Available, Device,
    DeviceError,
};
use crate::figure::{figure_view, is_nan, nan, Figure, FigureView};
use crate::grid::{
    axis_values, cell_views, devices_of, dirs_of, distinct_devices, distinct_dirs, find_cell,
    found, in_section, section_batches, section_sizes, CellView, GridCell,
};
use crate::html::str_views;
use crate::max_batch::{
    capacity, device_caps_from, dispatch_limit, max_fft_batch, override_bytes, FftProblem,
    LimitedBy, DEFAULT_MEM_BUDGET_BYTES, THREE_COPIES,
};
use crate::order::{arranged, arranged_is, distinct_numbers};
use crate::pages::{each, fill, filled};
use crate::text::{
    align_left, align_right, copy_text, decimal, join_texts, joined, left_aligned, right_aligned,
    same_text, texts, usize_text,
};
use vstd::prelude::*;

verus! {

/// One timing of one implementation.
#[derive(Clone, Debug)]
pub struct SweepRow {
    pub direction: String,
    pub n_fft: usize,
    pub batch: usize,
    pub device: String,
    pub iters: usize,
    pub implementation: String,
    pub ms: Figure,
    pub max_err: Option<Figure>,
    pub butterfly_weights: String,
}

/// What a timing stands for.
pub struct SweepRowView {
    pub direction: Seq<char>,
    pub n_fft: usize,
    pub batch: usize,
    pub device: Seq<char>,
    pub iters: usize,
    pub implementation: Seq<char>,
    pub ms: FigureView,
    pub max_err: Option<FigureView>,
    pub butterfly_weights: Seq<char>,
}

impl View for SweepRow {
    type V = SweepRowView;

    open spec fn view(&self) -> SweepRowView {
        SweepRowView {
            direction: self.direction@,
            n_fft: self.n_fft,
            batch: self.batch,
            device: self.device@,
            iters: self.iters,
            implementation: self.implementation@,
            ms: self.ms@,
            max_err: figure_view(self.max_err),
            butterfly_weights: self.butterfly_weights@,
        }
    }
}

/// The views of some timings.
pub open spec fn sweep_views(rows: Seq<SweepRow>) -> Seq<SweepRowView> {
    rows.map_values(|r: SweepRow| r@)
}

/// A sweep: how it was run and what it measured.
#[derive(Clone, Debug)]
pub struct SweepReport {
    pub iters: usize,
    pub with_butterfly_compiled: bool,
    pub weights: Option<String>,
    pub elapsed_ms: Figure,
    pub rows: Vec<SweepRow>,
}

// ---------------------------------------------------------------------------
// Plan
// ---------------------------------------------------------------------------

/// One place of a sweep.
#[derive(Clone, Debug)]
pub struct SweepCell {
    pub dir: TransformDir,
    pub n_fft: usize,
    pub batch: usize,
    pub device: String,
}

/// What a place stands for.
pub struct SweepPlace {
    pub dir: TransformDir,
    pub n_fft: usize,
    pub batch: usize,
    pub device: Seq<char>,
}

impl View for SweepCell {
    type V = SweepPlace;

    open spec fn view(&self) -> SweepPlace {
        SweepPlace {
            dir: self.dir,
            n_fft: self.n_fft,
            batch: self.batch,
            device: self.device@,
        }
    }
}

/// The views of some places.
pub open spec fn places(v: Seq<SweepCell>) -> Seq<SweepPlace> {
    v.map_values(|c: SweepCell| c@)
}

/// The places that a sweep visits in order, and the unsupported size at which it stops.
#[derive(Debug)]
pub struct SweepRun {
    pub cells: Vec<SweepCell>,
    pub unsupported: Option<usize>,
}

/// Why a sweep does not start.
#[derive(Debug)]
pub enum SweepError {
    NoIterations,
}

/// The places of a direction and a size in a batch.
pub open spec fn places_in_batch(
    dir: TransformDir,
    n: usize,
    batch: usize,
    devices: Seq<Seq<char>>,
) -> Seq<SweepPlace> {
    devices.map_values(|d: Seq<char>| SweepPlace { dir, n_fft: n, batch, device: d })
}

/// The places of a direction and a size.
pub open spec fn places_of_size(
    dir: TransformDir,
    n: usize,
    batches: Seq<usize>,
    devices: Seq<Seq<char>>,
) -> Seq<SweepPlace>
    decreases batches.len(),
{
    if batches.len() == 0 {
        Seq::empty()
    } else {
        places_of_size(dir, n, batches.drop_last(), devices) + places_in_batch(
            dir,
            n,
            batches.last(),
            devices,
        )
    }
}

/// The places of a direction, up to the first unsupported size.
pub open spec fn places_of_dir(
    dir: TransformDir,
    ns: Seq<usize>,
    batches: Seq<usize>,
    devices: Seq<Seq<char>>,
) -> (Seq<SweepPlace>, Option<usize>)
    decreases ns.len(),
{
    if ns.len() == 0 {
        (Seq::empty(), None)
    } else {
        let head = places_of_dir(dir, ns.drop_last(), batches, devices);
        if head.1 is Some {
            head
        } else if !supported(ns.last()) {
            (head.0, Some(ns.last()))
        } else {
            (head.0 + places_of_size(dir, ns.last(), batches, devices), None)
        }
    }
}

/// The places of a sweep, up to the first unsupported size.
pub open spec fn places_of_sweep(
    dirs: Seq<TransformDir>,
    ns: Seq<usize>,
    batches: Seq<usize>,
    devices: Seq<Seq<char>>,
) -> (Seq<SweepPlace>, Option<usize>)
    decreases dirs.len(),
{
    if dirs.len() == 0 {
        (Seq::empty(), None)
    } else {
        let head = places_of_sweep(dirs.drop_last(), ns, batches, devices);
        if head.1 is Some {
            head
        } else {
            let part = places_of_dir(dirs.last(), ns, batches, devices);
            (head.0 + part.0, part.1)
        }
    }
}

fn push_size(
    out: &mut Vec<SweepCell>,
    dir: TransformDir,
    n: usize,
    batches: &Vec<usize>,
    devices: &Vec<String>,
)
    ensures
        places(final(out)@) == places(old(out)@) + places_of_size(
            dir,
            n,
            batches@,
            texts(devices@),
        ),
{
    let ghost start = places(out@);
    let ghost t = texts(devices@);
    let mut b: usize = 0;
    assert(places(out@) =~= start + places_of_size(dir, n, batches@.take(0), t));
    while b < batches.len()
        invariant
            b <= batches.len(),
            t == texts(devices@),
            places(out@) == start + places_of_size(dir, n, batches@.take(b as int), t),
        decreases batches.len() - b,
    {
        let ghost before = places(out@);
        let batch: usize = batches[b];
        let ghost row = places_in_batch(dir, n, batch, t);
        let mut d: usize = 0;
        assert(places(out@) =~= before + row.take(0));
        while d < devices.len()
            invariant
                d <= devices.len(),
                t == texts(devices@),
                row == places_in_batch(dir, n, batch, t),
                places(out@) == before + row.take(d as int),
            decreases devices.len() - d,
        {
            let cell = SweepCell { dir, n_fft: n, batch, device: copy_text(&devices[d]) };
            let ghost c = cell@;
            let ghost all = out@;
            out.push(cell);
            assert(t[d as int] == devices@[d as int]@);
            assert(row[d as int] == c);
            assert(places(out@) =~= places(all).push(c));
            assert(row.take(d + 1) =~= row.take(d as int).push(c));
            assert(places(out@) =~= before + row.take(d + 1));
            d += 1;
        }
        assert(row.take(row.len() as int) =~= row);
        assert(batches@.take(b + 1).drop_last() =~= batches@.take(b as int));
        assert(places(out@) =~= start + places_of_size(dir, n, batches@.take(b + 1), t));
        b += 1;
    }
    assert(batches@.take(batches@.len() as int) =~= batches@);
}

/// Once a size stops a direction, later ones change nothing.
proof fn lemma_dir_stops(
    dir: TransformDir,
    ns: Seq<usize>,
    k: int,
    batches: Seq<usize>,
    devices: Seq<Seq<char>>,
)
    requires
        0 <= k <= ns.len(),
        places_of_dir(dir, ns.take(k), batches, devices).1 is Some,
    ensures
        places_of_dir(dir, ns, batches, devices) == places_of_dir(
            dir,
            ns.take(k),
            batches,
            devices,
        ),
    decreases ns.len() - k,
{
    if k < ns.len() {
        assert(ns.take(k + 1).drop_last() =~= ns.take(k));
        lemma_dir_stops(dir, ns, k + 1, batches, devices);
    } else {
        assert(ns.take(k) =~= ns);
    }
}

proof fn lemma_sweep_stops(
    dirs: Seq<TransformDir>,
    k: int,
    ns: Seq<usize>,
    batches: Seq<usize>,
    devices: Seq<Seq<char>>,
)
    requires
        0 <= k <= dirs.len(),
        places_of_sweep(dirs.take(k), ns, batches, devices).1 is Some,
    ensures
        places_of_sweep(dirs, ns, batches, devices) == places_of_sweep(
            dirs.take(k),
            ns,
            batches,
            devices,
        ),
    decreases dirs.len() - k,
{
    if k < dirs.len() {
        assert(dirs.take(k + 1).drop_last() =~= dirs.take(k));
        lemma_sweep_stops(dirs, k + 1, ns, batches, devices);
    } else {
        assert(dirs.take(k) =~= dirs);
    }
}

fn push_dir(
    out: &mut Vec<SweepCell>,
    dir: TransformDir,
    ns: &Vec<usize>,
    batches: &Vec<usize>,
    devices: &Vec<String>,
) -> (r: Option<usize>)
    ensures
        ({
            let part = places_of_dir(dir, ns@, batches@, texts(devices@));
            places(final(out)@) == places(old(out)@) + part.0 && r == part.1
        }),
{
    let ghost start = places(old(out)@);
    let ghost t = texts(devices@);
    let mut i: usize = 0;
    assert(places(out@) =~= start + places_of_dir(dir, ns@.take(0), batches@, t).0);
    while i < ns.len()
        invariant
            i <= ns.len(),
            start == places(old(out)@),
            t == texts(devices@),
            places(out@) == start + places_of_dir(dir, ns@.take(i as int), batches@, t).0,
            places_of_dir(dir, ns@.take(i as int), batches@, t).1 is None,
        decreases ns.len() - i,
    {
        let n: usize = ns[i];
        assert(ns@.take(i + 1).drop_last() =~= ns@.take(i as int));
        if !is_supported_n_fft(n) {
            proof {
                lemma_dir_stops(dir, ns@, i + 1, batches@, t);
            }
            return Some(n);
        }
        push_size(out, dir, n, batches, devices);
        assert(places(out@) =~= start + places_of_dir(dir, ns@.take(i + 1), batches@, t).0);
        i += 1;
    }
    assert(ns@.take(ns@.len() as int) =~= ns@);
    None
}

/// What a sweep visits: directions first, then sizes, batches and devices.
pub fn plan_sweep(
    directions: &Vec<TransformDir>,
    n_ffts: &Vec<usize>,
    batches: &Vec<usize>,
    devices: &Vec<String>,
    iters: usize,
) -> (r: Result<SweepRun, SweepError>)
    ensures
        match r {
            Ok(run) => iters >= 1 && (places(run.cells@), run.unsupported) == places_of_sweep(
                directions@,
                n_ffts@,
                batches@,
                texts(devices@),
            ),
            Err(SweepError::NoIterations) => iters == 0,
        },
{
    if iters == 0 {
        return Err(SweepError::NoIterations);
    }
    let ghost t = texts(devices@);
    let mut cells: Vec<SweepCell> = Vec::new();
    let mut i: usize = 0;
    assert(places(cells@) =~= places_of_sweep(directions@.take(0), n_ffts@, batches@, t).0);
    while i < directions.len()
        invariant
            i <= directions.len(),
            iters >= 1,
            t == texts(devices@),
            places(cells@) == places_of_sweep(
                directions@.take(i as int),
                n_ffts@,
                batches@,
                t,
            ).0,
            places_of_sweep(directions@.take(i as int), n_ffts@, batches@, t).1 is None,
        decreases directions.len() - i,
    {
        assert(directions@.take(i + 1).drop_last() =~= directions@.take(i as int));
        let stop = push_dir(&mut cells, directions[i], n_ffts, batches, devices);
        if stop.is_some() {
            proof {
                lemma_sweep_stops(directions@, i + 1, n_ffts@, batches@, t);
            }
            return Ok(SweepRun { cells, unsupported: stop });
        }
        i += 1;
    }
    assert(directions@.take(directions@.len() as int) =~= directions@);
    Ok(SweepRun { cells, unsupported: None })
}

/// Every place of a sweep has a supported size and comes from the lists that the sweep covers.
pub proof fn sweep_places_are_sound(
    dirs: Seq<TransformDir>,
    ns: Seq<usize>,
    batches: Seq<usize>,
    devices: Seq<Seq<char>>,
    i: int,
)
    requires
        0 <= i < places_of_sweep(dirs, ns, batches, devices).0.len(),
    ensures
        ({
            let p = places_of_sweep(dirs, ns, batches, devices).0[i];
            supported(p.n_fft) && dirs.contains(p.dir) && ns.contains(p.n_fft)
                && batches.contains(p.batch) && devices.contains(p.device)
        }),
    decreases dirs.len(),
{
    let head = places_of_sweep(dirs.drop_last(), ns, batches, devices);
    if i < head.0.len() {
        sweep_places_are_sound(dirs.drop_last(), ns, batches, devices, i);
        let p = head.0[i];
        let k = choose|k: int| 0 <= k < dirs.drop_last().len() && dirs.drop_last()[k] == p.dir;
        assert(dirs[k] == p.dir);
    } else {
        lemma_dir_places(dirs.last(), ns, batches, devices, i - head.0.len());
        assert(dirs[dirs.len() - 1] == dirs.last());
    }
}

proof fn lemma_dir_places(
    dir: TransformDir,
    ns: Seq<usize>,
    batches: Seq<usize>,
    devices: Seq<Seq<char>>,
    i: int,
)
    requires
        0 <= i < places_of_dir(dir, ns, batches, devices).0.len(),
    ensures
        ({
            let p = places_of_dir(dir, ns, batches, devices).0[i];
            supported(p.n_fft) && p.dir == dir && ns.contains(p.n_fft) && batches.contains(p.batch)
                && devices.contains(p.device)
        }),
    decreases ns.len(),
{
    let head = places_of_dir(dir, ns.drop_last(), batches, devices);
    if i < head.0.len() {
        lemma_dir_places(dir, ns.drop_last(), batches, devices, i);
        let p = head.0[i];
        let k = choose|k: int| 0 <= k < ns.drop_last().len() && ns.drop_last()[k] == p.n_fft;
        assert(ns[k] == p.n_fft);
    } else {
        lemma_size_places(dir, ns.last(), batches, devices, i - head.0.len());
        assert(ns[ns.len() - 1] == ns.last());
    }
}

proof fn lemma_size_places(
    dir: TransformDir,
    n: usize,
    batches: Seq<usize>,
    devices: Seq<Seq<char>>,
    i: int,
)
    requires
        0 <= i < places_of_size(dir, n, batches, devices).len(),
    ensures
        ({
            let p = places_of_size(dir, n, batches, devices)[i];
            p.dir == dir && p.n_fft == n && batches.contains(p.batch) && devices.contains(p.device)
        }),
    decreases batches.len(),
{
    let head = places_of_size(dir, n, batches.drop_last(), devices);
    if i < head.len() {
        lemma_size_places(dir, n, batches.drop_last(), devices, i);
        let p = head[i];
        let k = choose|k: int|
            0 <= k < batches.drop_last().len() && batches.drop_last()[k] == p.batch;
        assert(batches[k] == p.batch);
    } else {
        assert(batches[batches.len() - 1] == batches.last());
        assert(devices[i - head.len()] == places_of_size(dir, n, batches, devices)[i].device);
    }
}

/// What a sweep does at a place.
#[derive(Clone, Copy, Debug)]
pub enum SweepAction {
    /// The batch is above what the device can take.
    Skip { max_batch: usize, limited_by: LimitedBy },
    Bench { device: Device },
}

/// The memory budget of a machine.
pub open spec fn budget_of(override_mb: Option<Seq<char>>, soft: Option<usize>) -> u64 {
    match override_bytes(override_mb) {
        Some(b) => b as u64,
        None => match soft {
            Some(b) => b as u64,
            None => DEFAULT_MEM_BUDGET_BYTES,
        },
    }
}

/// What a sweep does at a place on a device.
pub open spec fn action_on(p: SweepPlace, device: Device, budget: u64) -> SweepAction {
    let problem = FftProblem { n_fft: p.n_fft, elem_bytes: 4, limbs: 1, working_copies: THREE_COPIES };
    let cap = capacity(problem, budget, dispatch_limit(device));
    if p.batch > cap.max_batch {
        SweepAction::Skip { max_batch: cap.max_batch, limited_by: cap.limited_by }
    } else {
        SweepAction::Bench { device }
    }
}

proof fn lemma_supported_is_countable(n: usize)
    requires
        supported(n),
    ensures
        (FftProblem { n_fft: n, elem_bytes: 4, limbs: 1, working_copies: THREE_COPIES }).countable(),
{
    let v = SUPPORTED_N_FFT@;
    let k = choose|k: int| 0 <= k < v.len() && v[k] == n;
    assert(v.len() == 12);
    assert(v[0] <= 131072 && v[1] <= 131072 && v[2] <= 131072 && v[3] <= 131072);
    assert(v[4] <= 131072 && v[5] <= 131072 && v[6] <= 131072 && v[7] <= 131072);
    assert(v[8] <= 131072 && v[9] <= 131072 && v[10] <= 131072 && v[11] <= 131072);
    assert(v[k] <= 131072) by {
        if k < 4 {
            assert(k == 0 || k == 1 || k == 2 || k == 3);
        } else if k < 8 {
            assert(k == 4 || k == 5 || k == 6 || k == 7);
        } else {
            assert(k == 8 || k == 9 || k == 10 || k == 11);
        }
    }
    assert(n <= 131072);
    assert(crate::arith::greatest(1, 1) == 1);
    assert(n * 2 * 4 * 1 == n * 8) by (nonlinear_arith);
}

/// Decides what a sweep does at a place: the device is resolved first, and a batch above its
/// capacity is passed over.
pub fn decide_cell(
    cell: &SweepCell,
    environment: Option<&str>,
    override_mb: Option<&str>,
    live: Available,
    soft: Option<usize>,
) -> (r: Result<SweepAction, DeviceError>)
    requires
        supported(cell.n_fft),
        override_bytes(view_of(override_mb)) matches Some(b) ==> b <= u64::MAX,
    ensures
        match resolved(wanted_device(Some(cell.device@), view_of(environment)), live) {
            Err(f) => r matches Err(e) && reports(e, f),
            Ok(d) => r == Ok::<SweepAction, DeviceError>(
                action_on(cell@, d, budget_of(view_of(override_mb), soft)),
            ),
        },
{
    let requested = Some(cell.device.as_str());
    assert(view_of(requested) == Some(cell.device@));
    match resolve_train_device_in(requested, environment, live) {
        Err(e) => Err(e),
        Ok(device) => {
            let caps = device_caps_from(device, override_mb, soft);
            proof {
                lemma_supported_is_countable(cell.n_fft);
            }
            let cap = max_fft_batch(FftProblem::single(cell.n_fft), caps);
            if cell.batch > cap.max_batch {
                Ok(SweepAction::Skip { max_batch: cap.max_batch, limited_by: cap.limited_by })
            } else {
                Ok(SweepAction::Bench { device })
            }
        },
    }
}

// ---------------------------------------------------------------------------
// Rows
// ---------------------------------------------------------------------------

/// What one place measured.
#[derive(Clone, Debug)]
pub struct BenchReport {
    pub direction: TransformDir,
    pub n_fft: usize,
    pub batch: usize,
    pub iters: usize,
    pub device: Device,
    /// `exact twiddles` or `learned checkpoint`.
    pub butterfly_weights: String,
    pub rustfft_ms: Figure,
    pub rlx_fft_ms: Figure,
    pub butterfly_eager_ms: Figure,
    pub butterfly_compiled_ms: Figure,
    pub rlx_fft_err: Figure,
    pub butterfly_eager_err: Figure,
    pub butterfly_compiled_err: Figure,
}

/// The row of an implementation at a place.
pub open spec fn row_at(
    p: SweepPlace,
    iters: usize,
    b: BenchReport,
    implementation: Seq<char>,
    ms: FigureView,
    max_err: Option<FigureView>,
) -> SweepRowView {
    SweepRowView {
        direction: p.dir.name_text(),
        n_fft: p.n_fft,
        batch: p.batch,
        device: p.device,
        iters,
        implementation,
        ms,
        max_err,
        butterfly_weights: b.butterfly_weights@,
    }
}

/// The name of the graph operator in a direction.
pub open spec fn graph_op(dir: TransformDir) -> Seq<char> {
    if dir is Forward {
        "rlx_op_fft"@
    } else {
        "rlx_op_ifft"@
    }
}

/// The rows of a place: the reference, the graph operator, the eager butterfly and, where it was
/// asked for, the compiled butterfly.
pub open spec fn rows_at(
    p: SweepPlace,
    iters: usize,
    compiled: bool,
    b: BenchReport,
) -> Seq<SweepRowView> {
    let three = seq![
        row_at(p, iters, b, "rustfft"@, b.rustfft_ms@, None),
        row_at(p, iters, b, graph_op(p.dir), b.rlx_fft_ms@, Some(b.rlx_fft_err@)),
        row_at(
            p,
            iters,
            b,
            "butterfly_eager"@,
            b.butterfly_eager_ms@,
            Some(b.butterfly_eager_err@),
        ),
    ];
    if compiled {
        three.push(
            row_at(
                p,
                iters,
                b,
                "butterfly_compiled"@,
                b.butterfly_compiled_ms@,
                Some(b.butterfly_compiled_err@),
            ),
        )
    } else {
        three
    }
}

fn make_row(
    cell: &SweepCell,
    iters: usize,
    b: &BenchReport,
    implementation: &str,
    ms: &Figure,
    max_err: Option<Figure>,
) -> (r: SweepRow)
    ensures
        r@ == row_at(cell@, iters, *b, implementation@, ms@, figure_view(max_err)),
{
    SweepRow {
        direction: cell.dir.name().to_owned(),
        n_fft: cell.n_fft,
        batch: cell.batch,
        device: copy_text(&cell.device),
        iters,
        implementation: implementation.to_owned(),
        ms: ms.copy(),
        max_err,
        butterfly_weights: copy_text(&b.butterfly_weights),
    }
}

/// The rows of a place.
pub fn sweep_rows(cell: &SweepCell, iters: usize, compiled: bool, b: &BenchReport) -> (r: Vec<
    SweepRow,
>)
    ensures
        sweep_views(r@) == rows_at(cell@, iters, compiled, *b),
{
    let mut out: Vec<SweepRow> = Vec::new();
    out.push(make_row(cell, iters, b, "rustfft", &b.rustfft_ms, None));
    let op = if cell.dir.is_forward() {
        "rlx_op_fft"
    } else {
        "rlx_op_ifft"
    };
    out.push(make_row(cell, iters, b, op, &b.rlx_fft_ms, Some(b.rlx_fft_err.copy())));
    out.push(
        make_row(
            cell,
            iters,
            b,
            "butterfly_eager",
            &b.butterfly_eager_ms,
            Some(b.butterfly_eager_err.copy()),
        ),
    );
    if compiled {
        out.push(
            make_row(
                cell,
                iters,
                b,
                "butterfly_compiled",
                &b.butterfly_compiled_ms,
                Some(b.butterfly_compiled_err.copy()),
            ),
        );
    }
    assert(sweep_views(out@) =~= rows_at(cell@, iters, compiled, *b));
    out
}

/// A row as a timing of a table.
pub open spec fn cell_of(r: SweepRowView) -> CellView {
    CellView {
        dir: r.direction,
        device: r.device,
        name: r.implementation,
        n_fft: r.n_fft,
        batch: r.batch,
        ms: r.ms,
        max_err: r.max_err,
    }
}

/// Rows as timings of a table.
pub open spec fn cells_of(rows: Seq<SweepRowView>) -> Seq<CellView> {
    rows.map_values(|r: SweepRowView| cell_of(r))
}

/// Rows as timings of a table.
pub fn grid_of(rows: &Vec<SweepRow>) -> (r: Vec<GridCell>)
    ensures
        cell_views(r@) == cells_of(sweep_views(rows@)),
{
    let mut out: Vec<GridCell> = Vec::new();
    let mut i: usize = 0;
    while i < rows.len()
        invariant
            i <= rows.len(),
            out.len() == i,
            forall|k: int| 0 <= k < i ==> (#[trigger] out@[k])@ == cell_of(rows@[k]@),
        decreases rows.len() - i,
    {
        let row = &rows[i];
        let err = match &row.max_err {
            Some(e) => Some(e.copy()),
            None => None,
        };
        let cell = GridCell {
            dir: copy_text(&row.direction),
            device: copy_text(&row.device),
            name: copy_text(&row.implementation),
            n_fft: row.n_fft,
            batch: row.batch,
            ms: row.ms.copy(),
            max_err: err,
        };
        assert(figure_view(cell.max_err) == figure_view(row.max_err));
        out.push(cell);
        i += 1;
    }
    assert(cell_views(out@) =~= cells_of(sweep_views(rows@)));
    out
}

/// The implementations in the order of the charts.
pub open spec fn implementations(compiled: bool) -> Seq<Seq<char>> {
    let four = seq!["rustfft"@, "rlx_op_fft"@, "rlx_op_ifft"@, "butterfly_eager"@];
    if compiled {
        four.push("butterfly_compiled"@)
    } else {
        four
    }
}

/// The implementations in the order of the charts.
pub fn impl_labels(with_compiled: bool) -> (r: Vec<String>)
    ensures
        texts(r@) == implementations(with_compiled),
{
    let mut out: Vec<String> = Vec::new();
    out.push("rustfft".to_owned());
    out.push("rlx_op_fft".to_owned());
    out.push("rlx_op_ifft".to_owned());
    out.push("butterfly_eager".to_owned());
    if with_compiled {
        out.push("butterfly_compiled".to_owned());
    }
    assert(texts(out@) =~= implementations(with_compiled));
    out
}

/// Every row of a sweep has an implementation of its charts.
pub proof fn charts_cover_rows(
    p: SweepPlace,
    iters: usize,
    compiled: bool,
    b: BenchReport,
    i: int,
)
    requires
        0 <= i < rows_at(p, iters, compiled, b).len(),
    ensures
        implementations(compiled).contains(rows_at(p, iters, compiled, b)[i].implementation),
{
    let names = implementations(compiled);
    assert(names[0] == "rustfft"@);
    assert(names[1] == "rlx_op_fft"@);
    assert(names[2] == "rlx_op_ifft"@);
    assert(names[3] == "butterfly_eager"@);
    if compiled {
        assert(names[4] == "butterfly_compiled"@);
    }
}

// ---------------------------------------------------------------------------
// Markdown
// ---------------------------------------------------------------------------

/// The sizes of a name in a batch of a section.
pub open spec fn sizes_of_name(
    cells: Seq<CellView>,
    dir: Seq<char>,
    device: Seq<char>,
    batch: usize,
    name: Seq<char>,
) -> Seq<usize>
    decreases cells.len(),
{
    if cells.len() == 0 {
        Seq::empty()
    } else {
        let head = sizes_of_name(cells.drop_last(), dir, device, batch, name);
        let c = cells.last();
        if in_section(c, dir, device) && c.batch == batch && c.name == name {
            head.push(c.n_fft)
        } else {
            head
        }
    }
}

/// Every size of a name has a timing.
proof fn lemma_sizes_are_found(
    cells: Seq<CellView>,
    dir: Seq<char>,
    device: Seq<char>,
    batch: usize,
    name: Seq<char>,
    n: usize,
)
    requires
        sizes_of_name(cells, dir, device, batch, name).contains(n),
    ensures
        found(cells, dir, device, batch, n, name) is Some,
    decreases cells.len(),
{
    if cells.len() > 0 {
        let head = sizes_of_name(cells.drop_last(), dir, device, batch, name);
        if head.contains(n) {
            lemma_sizes_are_found(cells.drop_last(), dir, device, batch, name, n);
        } else {
            let all = sizes_of_name(cells, dir, device, batch, name);
            let k = choose|k: int| 0 <= k < all.len() && all[k] == n;
            if k < head.len() {
                assert(head[k] == n);
            }
            assert(cells.last().n_fft == n);
        }
    }
}

pub const SIZE_ENTRY: [&'static str; 3] = ["n", ": ", "ms"];

/// The entries of a name in a batch: one for each size.
pub open spec fn size_entries(
    cells: Seq<CellView>,
    dir: Seq<char>,
    device: Seq<char>,
    batch: usize,
    name: Seq<char>,
) -> Seq<Seq<char>> {
    arranged::<usize>(sizes_of_name(cells, dir, device, batch, name)).map_values(
        |n: usize|
            filled(
                str_views(SIZE_ENTRY@),
                seq![
                    decimal(n as nat),
                    cells[found(cells, dir, device, batch, n, name)->0].ms.fixed4,
                ],
            ),
    )
}

fn list_size_entries(
    cells: &Vec<GridCell>,
    dir: &str,
    device: &str,
    batch: usize,
    name: &str,
) -> (r: Vec<String>)
    ensures
        texts(r@) == size_entries(cell_views(cells@), dir@, device@, batch, name@),
{
    let ghost v = cell_views(cells@);
    let mut ns: Vec<usize> = Vec::new();
    let mut i: usize = 0;
    while i < cells.len()
        invariant
            i <= cells.len(),
            v == cell_views(cells@),
            ns@ == sizes_of_name(v.take(i as int), dir@, device@, batch, name@),
        decreases cells.len() - i,
    {
        let c = &cells[i];
        assert(v.take(i + 1).drop_last() =~= v.take(i as int));
        assert(v.take(i + 1).last() == c@);
        if same_text(c.dir.as_str(), dir) && same_text(c.device.as_str(), device) && c.batch
            == batch && same_text(c.name.as_str(), name) {
            ns.push(c.n_fft);
        }
        i += 1;
    }
    assert(v.take(v.len() as int) =~= v);
    let ghost all = ns@;
    let ns = distinct_numbers(ns);
    proof {
        arranged_is::<usize>(all, ns@);
    }
    let ghost entries = size_entries(v, dir@, device@, batch, name@);
    let mut out: Vec<String> = Vec::new();
    let mut i: usize = 0;
    while i < ns.len()
        invariant
            i <= ns.len(),
            v == cell_views(cells@),
            all == sizes_of_name(v, dir@, device@, batch, name@),
            ns@.to_set() == all.to_set(),
            ns@ == arranged::<usize>(all),
            entries == size_entries(v, dir@, device@, batch, name@),
            out.len() == i,
            forall|k: int| 0 <= k < i ==> (#[trigger] out@[k])@ == entries[k],
        decreases ns.len() - i,
    {
        let n: usize = ns[i];
        proof {
            assert(ns@.to_set().contains(ns@[i as int]));
            assert(all.contains(n));
            lemma_sizes_are_found(v, dir@, device@, batch, name@, n);
        }
        if let Some(at) = find_cell(cells, dir, device, batch, n, name) {
            let number = usize_text(n);
            let f = [number.as_str(), cells[at].ms.fixed4.as_str()];
            assert(v[at as int].ms.fixed4 == cells@[at as int].ms.fixed4@);
            assert(str_views(f@) =~= seq![number@, v[at as int].ms.fixed4]);
            out.push(fill(&SIZE_ENTRY, &f));
        }
        i += 1;
    }
    assert(texts(out@) =~= entries);
    out
}

pub const MARKDOWN_BATCH: [&'static str; 2] = [" **b=", "** |"];

pub const MARKDOWN_CELL: [&'static str; 2] = [" ", " |"];

pub const MARKDOWN_ROW: [&'static str; 2] = ["| **", "** |"];

pub const MARKDOWN_SECTION: [&'static str; 3] = ["## ", " — `", "`\n\n| n_fft \\ batch |"];

pub const MARKDOWN_HEAD: [&'static str; 4] = [
    "# RLX-FFT benchmark sweep\n\niters=",
    ", compiled=",
    ", sweep_ms=",
    "\n\n",
];

/// The heads of the batches.
pub open spec fn markdown_heads(bs: Seq<usize>) -> spec_fn(int) -> Seq<char> {
    |k: int| filled(str_views(MARKDOWN_BATCH@), seq![decimal(bs[k] as nat)])
}

/// The rules under the heads.
pub open spec fn markdown_rules() -> spec_fn(int) -> Seq<char> {
    |k: int| " --- |"@
}

/// The cells of a name.
pub open spec fn markdown_cells(
    cells: Seq<CellView>,
    dir: Seq<char>,
    device: Seq<char>,
    bs: Seq<usize>,
    name: Seq<char>,
) -> spec_fn(int) -> Seq<char> {
    |k: int|
        filled(
            str_views(MARKDOWN_CELL@),
            seq![joined(size_entries(cells, dir, device, bs[k], name), "<br>"@)],
        )
}

/// The rows of a section.
pub open spec fn markdown_rows(
    cells: Seq<CellView>,
    dir: Seq<char>,
    device: Seq<char>,
    bs: Seq<usize>,
    names: Seq<Seq<char>>,
) -> spec_fn(int) -> Seq<char> {
    |j: int|
        filled(str_views(MARKDOWN_ROW@), seq![names[j]]) + each(
            bs.len(),
            markdown_cells(cells, dir, device, bs, names[j]),
        ) + "\n"@
}

/// A section; nothing where it holds no timing.
pub open spec fn markdown_section(
    cells: Seq<CellView>,
    dir: Seq<char>,
    device: Seq<char>,
    names: Seq<Seq<char>>,
) -> Seq<char> {
    let bs = section_batches(cells, dir, device);
    if bs.len() == 0 {
        Seq::empty()
    } else {
        filled(str_views(MARKDOWN_SECTION@), seq![dir, device]) + each(
            bs.len(),
            markdown_heads(bs),
        ) + "\n| --- |"@ + each(bs.len(), markdown_rules()) + "\n"@ + each(
            names.len(),
            markdown_rows(cells, dir, device, bs, names),
        ) + "\n"@
    }
}

/// The sections of the devices: forward first, then inverse.
pub open spec fn markdown_sections(
    cells: Seq<CellView>,
    devices: Seq<Seq<char>>,
    names: Seq<Seq<char>>,
) -> spec_fn(int) -> Seq<char> {
    |i: int|
        markdown_section(cells, "Forward"@, devices[i], names) + markdown_section(
            cells,
            "Inverse"@,
            devices[i],
            names,
        )
}

/// A sweep as Markdown; `elapsed` is its duration in milliseconds without decimals.
pub open spec fn markdown_chart(report: SweepReport, elapsed: Seq<char>) -> Seq<char> {
    let cells = cells_of(sweep_views(report.rows@));
    let devices = arranged::<String>(devices_of(cells));
    filled(
        str_views(MARKDOWN_HEAD@),
        seq![
            decimal(report.iters as nat),
            bool_text(report.with_butterfly_compiled),
            elapsed,
        ],
    ) + each(
        devices.len(),
        markdown_sections(cells, devices, implementations(report.with_butterfly_compiled)),
    )
}

fn write_section(cells: &Vec<GridCell>, dir: &str, device: &str, names: &Vec<String>) -> (r: String)
    ensures
        r@ == markdown_section(cell_views(cells@), dir@, device@, texts(names@)),
{
    let ghost v = cell_views(cells@);
    let (_, bs) = axis_values(cells, dir, device);
    if bs.len() == 0 {
        return String::new();
    }
    let f = [dir, device];
    assert(str_views(f@) =~= seq![dir@, device@]);
    let mut out = fill(&MARKDOWN_SECTION, &f);
    let ghost start = out@;
    let mut k: usize = 0;
    assert(out@ =~= start + each(0, markdown_heads(bs@)));
    while k < bs.len()
        invariant
            k <= bs.len(),
            out@ == start + each(k as nat, markdown_heads(bs@)),
        decreases bs.len() - k,
    {
        let b = usize_text(bs[k]);
        let f = [b.as_str()];
        assert(str_views(f@) =~= seq![b@]);
        out.push_str(fill(&MARKDOWN_BATCH, &f).as_str());
        assert(out@ =~= start + each((k + 1) as nat, markdown_heads(bs@)));
        k += 1;
    }
    out.push_str("\n| --- |");
    let ghost start = out@;
    let mut k: usize = 0;
    assert(out@ =~= start + each(0, markdown_rules()));
    while k < bs.len()
        invariant
            k <= bs.len(),
            out@ == start + each(k as nat, markdown_rules()),
        decreases bs.len() - k,
    {
        out.push_str(" --- |");
        assert(out@ =~= start + each((k + 1) as nat, markdown_rules()));
        k += 1;
    }
    out.push_str("\n");
    let ghost start = out@;
    let ghost rows = markdown_rows(v, dir@, device@, bs@, texts(names@));
    let mut j: usize = 0;
    assert(out@ =~= start + each(0, rows));
    while j < names.len()
        invariant
            j <= names.len(),
            v == cell_views(cells@),
            rows == markdown_rows(v, dir@, device@, bs@, texts(names@)),
            out@ == start + each(j as nat, rows),
        decreases names.len() - j,
    {
        let row = write_row(cells, dir, device, &bs, names[j].as_str());
        out.push_str(row.as_str());
        assert(texts(names@)[j as int] == names@[j as int]@);
        assert(out@ =~= start + each((j + 1) as nat, rows));
        j += 1;
    }
    out.push_str("\n");
    out
}

fn write_row(
    cells: &Vec<GridCell>,
    dir: &str,
    device: &str,
    bs: &Vec<usize>,
    name: &str,
) -> (r: String)
    ensures
        r@ == filled(str_views(MARKDOWN_ROW@), seq![name@]) + each(
            bs@.len(),
            markdown_cells(cell_views(cells@), dir@, device@, bs@, name@),
        ) + "\n"@,
{
    let ghost entries = markdown_cells(cell_views(cells@), dir@, device@, bs@, name@);
    let f = [name];
    assert(str_views(f@) =~= seq![name@]);
    let mut out = fill(&MARKDOWN_ROW, &f);
    let ghost start = out@;
    let mut k: usize = 0;
    assert(out@ =~= start + each(0, entries));
    while k < bs.len()
        invariant
            k <= bs.len(),
            entries == markdown_cells(cell_views(cells@), dir@, device@, bs@, name@),
            out@ == start + each(k as nat, entries),
        decreases bs.len() - k,
    {
        let parts = list_size_entries(cells, dir, device, bs[k], name);
        let text = join_texts(&parts, "<br>");
        let f = [text.as_str()];
        assert(str_views(f@) =~= seq![text@]);
        out.push_str(fill(&MARKDOWN_CELL, &f).as_str());
        assert(out@ =~= start + each((k + 1) as nat, entries));
        k += 1;
    }
    out.push_str("\n");
    out
}

/// Writes a sweep as Markdown.
pub fn sweep_markdown_chart(report: &SweepReport, elapsed: &str) -> (r: String)
    ensures
        r@ == markdown_chart(*report, elapsed@),
{
    let cells = grid_of(&report.rows);
    let names = impl_labels(report.with_butterfly_compiled);
    let devices = distinct_devices(&cells);
    let iters = usize_text(report.iters);
    let compiled = show_bool(report.with_butterfly_compiled);
    let f = [iters.as_str(), compiled, elapsed];
    assert(str_views(f@) =~= seq![iters@, compiled@, elapsed@]);
    let mut out = fill(&MARKDOWN_HEAD, &f);
    let ghost start = out@;
    let ghost v = cell_views(cells@);
    let ghost t = texts(devices@);
    assert(t.len() == devices@.len());
    let ghost parts = markdown_sections(v, t, texts(names@));
    let mut i: usize = 0;
    assert(out@ =~= start + each(0, parts));
    while i < devices.len()
        invariant
            i <= devices.len(),
            v == cell_views(cells@),
            t == texts(devices@),
            parts == markdown_sections(v, t, texts(names@)),
            out@ == start + each(i as nat, parts),
        decreases devices.len() - i,
    {
        let device = devices[i].as_str();
        let a = write_section(&cells, "Forward", device, &names);
        let b = write_section(&cells, "Inverse", device, &names);
        out.push_str(a.as_str());
        out.push_str(b.as_str());
        assert(t[i as int] == device@);
        assert(out@ =~= start + each((i + 1) as nat, parts));
        i += 1;
    }
    out
}

// ---------------------------------------------------------------------------
// Terminal chart
// ---------------------------------------------------------------------------

/// A timing in the terminal chart.
pub open spec fn chart_ms(f: Option<FigureView>) -> Seq<char> {
    match f {
        Some(f) if !nan(f.bits) => right_aligned(f.fixed4, 12),
        _ => "           n/a"@,
    }
}

/// The timing of a name at a place, in the terminal chart.
pub open spec fn chart_entry(
    cells: Seq<CellView>,
    dir: Seq<char>,
    device: Seq<char>,
    batch: usize,
    n: usize,
    name: Seq<char>,
) -> Seq<char> {
    chart_ms(
        match found(cells, dir, device, batch, n, name) {
            Some(i) => Some(cells[i].ms),
            None => None,
        },
    )
}

/// The timings of some names at a place.
pub open spec fn chart_entries(
    cells: Seq<CellView>,
    dir: Seq<char>,
    device: Seq<char>,
    batch: usize,
    n: usize,
    names: Seq<Seq<char>>,
) -> Seq<Seq<char>> {
    names.map_values(|name: Seq<char>| chart_entry(cells, dir, device, batch, n, name))
}

/// The heads of the names.
pub open spec fn chart_heads(names: Seq<Seq<char>>) -> Seq<Seq<char>> {
    names.map_values(|s: Seq<char>| right_aligned(s, 16))
}

pub const CHART_LINE: [&'static str; 3] = ["  n=", " ", "\n"];

pub const CHART_BATCH: [&'static str; 3] = ["\n  batch=", "\n  n_fft    ", "\n"];

pub const CHART_SECTION: [&'static str; 3] = ["--- ", " @ ", " ---\n"];

pub const CHART_HEAD: [&'static str; 3] = [
    "\n=== FFT benchmark sweep (iters=",
    ", compiled=",
    ") ===\n\n",
];

pub const CHART_END: [&'static str; 2] = [
    "Legend: ms/iter (lower is faster). rustfft is always CPU reference.\nTotal sweep time: ",
    " ms\n\n",
];

/// The lines of a batch.
pub open spec fn chart_lines(
    cells: Seq<CellView>,
    dir: Seq<char>,
    device: Seq<char>,
    batch: usize,
    ns: Seq<usize>,
    names: Seq<Seq<char>>,
) -> spec_fn(int) -> Seq<char> {
    |i: int|
        filled(
            str_views(CHART_LINE@),
            seq![
                left_aligned(decimal(ns[i] as nat), 5),
                joined(chart_entries(cells, dir, device, batch, ns[i], names), " | "@),
            ],
        )
}

/// The batches of a section.
pub open spec fn chart_batches(
    cells: Seq<CellView>,
    dir: Seq<char>,
    device: Seq<char>,
    bs: Seq<usize>,
    ns: Seq<usize>,
    names: Seq<Seq<char>>,
) -> spec_fn(int) -> Seq<char> {
    |k: int|
        filled(
            str_views(CHART_BATCH@),
            seq![decimal(bs[k] as nat), joined(chart_heads(names), " | "@)],
        ) + each(ns.len(), chart_lines(cells, dir, device, bs[k], ns, names))
}

/// A section of the terminal chart.
pub open spec fn chart_section(
    cells: Seq<CellView>,
    dir: Seq<char>,
    device: Seq<char>,
    names: Seq<Seq<char>>,
) -> Seq<char> {
    let ns = section_sizes(cells, dir, device);
    let bs = section_batches(cells, dir, device);
    filled(str_views(CHART_SECTION@), seq![dir, device]) + each(
        bs.len(),
        chart_batches(cells, dir, device, bs, ns, names),
    ) + "\n"@
}

/// The sections of a direction.
pub open spec fn chart_of_dir(
    cells: Seq<CellView>,
    dir: Seq<char>,
    devices: Seq<Seq<char>>,
    names: Seq<Seq<char>>,
) -> spec_fn(int) -> Seq<char> {
    |j: int| chart_section(cells, dir, devices[j], names)
}

/// The sections of the terminal chart.
pub open spec fn chart_sections(
    cells: Seq<CellView>,
    dirs: Seq<Seq<char>>,
    devices: Seq<Seq<char>>,
    names: Seq<Seq<char>>,
) -> spec_fn(int) -> Seq<char> {
    |i: int| each(devices.len(), chart_of_dir(cells, dirs[i], devices, names))
}

/// A sweep as a terminal chart; `elapsed` is its duration in milliseconds with one decimal.
pub open spec fn terminal_chart(report: SweepReport, elapsed: Seq<char>) -> Seq<char> {
    let cells = cells_of(sweep_views(report.rows@));
    let dirs = arranged::<String>(dirs_of(cells));
    let devices = arranged::<String>(devices_of(cells));
    filled(
        str_views(CHART_HEAD@),
        seq![decimal(report.iters as nat), bool_text(report.with_butterfly_compiled)],
    ) + each(
        dirs.len(),
        chart_sections(cells, dirs, devices, implementations(report.with_butterfly_compiled)),
    ) + filled(str_views(CHART_END@), seq![elapsed])
}

fn draw_batch(
    cells: &Vec<GridCell>,
    dir: &str,
    device: &str,
    batch: usize,
    ns: &Vec<usize>,
    names: &Vec<String>,
    heads: &str,
) -> (r: String)
    requires
        heads@ == joined(chart_heads(texts(names@)), " | "@),
    ensures
        r@ == filled(str_views(CHART_BATCH@), seq![decimal(batch as nat), heads@]) + each(
            ns@.len(),
            chart_lines(cell_views(cells@), dir@, device@, batch, ns@, texts(names@)),
        ),
{
    let ghost v = cell_views(cells@);
    let ghost t = texts(names@);
    let ghost lines = chart_lines(v, dir@, device@, batch, ns@, t);
    let b = usize_text(batch);
    let f = [b.as_str(), heads];
    assert(str_views(f@) =~= seq![b@, heads@]);
    let mut out = fill(&CHART_BATCH, &f);
    let ghost start = out@;
    let mut i: usize = 0;
    assert(out@ =~= start + each(0, lines));
    while i < ns.len()
        invariant
            i <= ns.len(),
            v == cell_views(cells@),
            t == texts(names@),
            lines == chart_lines(v, dir@, device@, batch, ns@, t),
            out@ == start + each(i as nat, lines),
        decreases ns.len() - i,
    {
        let n: usize = ns[i];
        let ghost entries_model = chart_entries(v, dir@, device@, batch, n, t);
        let mut entries: Vec<String> = Vec::new();
        let mut j: usize = 0;
        while j < names.len()
            invariant
                j <= names.len(),
                v == cell_views(cells@),
                t == texts(names@),
                entries_model == chart_entries(v, dir@, device@, batch, n, t),
                entries.len() == j,
                forall|k: int| 0 <= k < j ==> (#[trigger] entries@[k])@ == entries_model[k],
            decreases names.len() - j,
        {
            assert(t[j as int] == names@[j as int]@);
            let entry = match find_cell(cells, dir, device, batch, n, names[j].as_str()) {
                Some(at) => {
                    assert(v[at as int].ms == cells@[at as int].ms@);
                    if is_nan(cells[at].ms.bits) {
                        "           n/a".to_owned()
                    } else {
                        align_right(cells[at].ms.fixed4.as_str(), 12)
                    }
                },
                None => "           n/a".to_owned(),
            };
            entries.push(entry);
            j += 1;
        }
        assert(texts(entries@) =~= entries_model);
        let number = usize_text(n);
        let size = align_left(number.as_str(), 5);
        let row = join_texts(&entries, " | ");
        let f = [size.as_str(), row.as_str()];
        assert(str_views(f@) =~= seq![size@, row@]);
        out.push_str(fill(&CHART_LINE, &f).as_str());
        assert(out@ =~= start + each((i + 1) as nat, lines));
        i += 1;
    }
    out
}

fn draw_section(
    cells: &Vec<GridCell>,
    dir: &str,
    device: &str,
    names: &Vec<String>,
    heads: &str,
) -> (r: String)
    requires
        heads@ == joined(chart_heads(texts(names@)), " | "@),
    ensures
        r@ == chart_section(cell_views(cells@), dir@, device@, texts(names@)),
{
    let (ns, bs) = axis_values(cells, dir, device);
    let ghost batches = chart_batches(
        cell_views(cells@),
        dir@,
        device@,
        bs@,
        ns@,
        texts(names@),
    );
    let f = [dir, device];
    assert(str_views(f@) =~= seq![dir@, device@]);
    let mut out = fill(&CHART_SECTION, &f);
    let ghost start = out@;
    let mut k: usize = 0;
    assert(out@ =~= start + each(0, batches));
    while k < bs.len()
        invariant
            k <= bs.len(),
            heads@ == joined(chart_heads(texts(names@)), " | "@),
            batches == chart_batches(
                cell_views(cells@),
                dir@,
                device@,
                bs@,
                ns@,
                texts(names@),
            ),
            out@ == start + each(k as nat, batches),
        decreases bs.len() - k,
    {
        let part = draw_batch(cells, dir, device, bs[k], &ns, names, heads);
        out.push_str(part.as_str());
        assert(out@ =~= start + each((k + 1) as nat, batches));
        k += 1;
    }
    out.push_str("\n");
    out
}

fn column_heads(names: &Vec<String>) -> (r: String)
    ensures
        r@ == joined(chart_heads(texts(names@)), " | "@),
{
    let ghost heads = chart_heads(texts(names@));
    let mut out: Vec<String> = Vec::new();
    let mut i: usize = 0;
    while i < names.len()
        invariant
            i <= names.len(),
            heads == chart_heads(texts(names@)),
            out.len() == i,
            forall|k: int| 0 <= k < i ==> (#[trigger] out@[k])@ == heads[k],
        decreases names.len() - i,
    {
        assert(texts(names@)[i as int] == names@[i as int]@);
        out.push(align_right(names[i].as_str(), 16));
        i += 1;
    }
    assert(texts(out@) =~= heads);
    join_texts(&out, " | ")
}

/// Draws a sweep for a terminal.
pub fn sweep_terminal_chart(report: &SweepReport, elapsed: &str) -> (r: String)
    ensures
        r@ == terminal_chart(*report, elapsed@),
{
    let cells = grid_of(&report.rows);
    let names = impl_labels(report.with_butterfly_compiled);
    let dirs = distinct_dirs(&cells);
    let devices = distinct_devices(&cells);
    let heads = column_heads(&names);
    let iters = usize_text(report.iters);
    let compiled = show_bool(report.with_butterfly_compiled);
    let f = [iters.as_str(), compiled];
    assert(str_views(f@) =~= seq![iters@, compiled@]);
    let mut out = fill(&CHART_HEAD, &f);
    let ghost start = out@;
    let ghost v = cell_views(cells@);
    let ghost ds = texts(devices@);
    let ghost sections = chart_sections(v, texts(dirs@), ds, texts(names@));
    assert(texts(dirs@).len() == dirs@.len());
    let mut i: usize = 0;
    assert(out@ =~= start + each(0, sections));
    while i < dirs.len()
        invariant
            i <= dirs.len(),
            heads@ == joined(chart_heads(texts(names@)), " | "@),
            v == cell_views(cells@),
            ds == texts(devices@),
            sections == chart_sections(v, texts(dirs@), ds, texts(names@)),
            out@ == start + each(i as nat, sections),
        decreases dirs.len() - i,
    {
        let ghost before = out@;
        let dir = dirs[i].as_str();
        let ghost row = chart_of_dir(v, dir@, ds, texts(names@));
        let mut j: usize = 0;
        assert(out@ =~= before + each(0, row));
        while j < devices.len()
            invariant
                j <= devices.len(),
                heads@ == joined(chart_heads(texts(names@)), " | "@),
                v == cell_views(cells@),
                ds == texts(devices@),
                row == chart_of_dir(v, dir@, ds, texts(names@)),
                out@ == before + each(j as nat, row),
            decreases devices.len() - j,
        {
            let part = draw_section(&cells, dir, devices[j].as_str(), &names, heads.as_str());
            out.push_str(part.as_str());
            assert(ds[j as int] == devices@[j as int]@);
            assert(out@ =~= before + each((j + 1) as nat, row));
            j += 1;
        }
        assert(texts(dirs@)[i as int] == dir@);
        assert(ds.len() == devices@.len());
        assert(out@ =~= start + each((i + 1) as nat, sections));
        i += 1;
    }
    let f = [elapsed];
    assert(str_views(f@) =~= seq![elapsed@]);
    out.push_str(fill(&CHART_END, &f).as_str());
    out
}

} // verus!

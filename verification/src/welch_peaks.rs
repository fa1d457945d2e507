//! The Welch peaks bench: runs of a sweep, the paths of a run, rows, and the lines of its table.

use crate::ablation_csv::{starts_with, text_starts_with};
use crate::arith::{least, min_usize};
use crate::device::{device_token, Device};
use crate::figure::{equal, figure_view, is_equal, Figure, FigureView};
use crate::order::{arranged, arranged_is, ascending, distinct_numbers};
use crate::spec_list::{find_text, first_place};
use crate::text::{chars_of, same_text};
use vstd::prelude::*;

verus! {

/// The settings of one run.
#[derive(Debug, Clone, Copy, PartialEq, Eq, Structural)]
pub struct PeaksSettings {
    pub n_fft: usize,
    pub batch: usize,
    pub k: usize,
    pub iters: usize,
    pub train_steps: usize,
    pub seed: u64,
    pub with_compiled: bool,
    pub with_ultra_fast: bool,
    /// Whether the picker is forced to the compiled learned path.
    pub force_learned: bool,
}

/// The run of a sweep for a batch and a peak count: large batches are not trained and run at most
/// ten times.
pub open spec fn swept_run(base: PeaksSettings, batch: usize, k: usize) -> PeaksSettings {
    if batch >= 4096 {
        PeaksSettings {
            batch,
            k,
            train_steps: 0,
            iters: least(base.iters as int, 10) as usize,
            ..base
        }
    } else {
        PeaksSettings { batch, k, ..base }
    }
}

/// The runs of some peak counts for one batch.
pub open spec fn k_runs(base: PeaksSettings, batch: usize, ks: Seq<usize>) -> Seq<PeaksSettings> {
    ks.map_values(|k: usize| swept_run(base, batch, k))
}

/// The runs of a sweep: every batch with every peak count.
pub open spec fn sweep_runs(base: PeaksSettings, batches: Seq<usize>, ks: Seq<usize>) -> Seq<
    PeaksSettings,
>
    decreases batches.len(),
{
    if batches.len() == 0 {
        Seq::empty()
    } else {
        sweep_runs(base, batches.drop_last(), ks) + k_runs(base, batches.last(), ks)
    }
}

/// The runs of a sweep, in order.
pub fn plan_peaks_sweep(base: PeaksSettings, batches: &Vec<usize>, ks: &Vec<usize>) -> (r: Vec<
    PeaksSettings,
>)
    ensures
        r@ == sweep_runs(base, batches@, ks@),
{
    let mut out: Vec<PeaksSettings> = Vec::new();
    let mut i: usize = 0;
    assert(out@ =~= sweep_runs(base, batches@.take(0), ks@));
    while i < batches.len()
        invariant
            i <= batches.len(),
            out@ == sweep_runs(base, batches@.take(i as int), ks@),
        decreases batches.len() - i,
    {
        let batch: usize = batches[i];
        let ghost start = out@;
        let ghost added = k_runs(base, batch, ks@);
        let mut j: usize = 0;
        assert(start + added.take(0) =~= start);
        while j < ks.len()
            invariant
                j <= ks.len(),
                added == k_runs(base, batch, ks@),
                out@ == start + added.take(j as int),
            decreases ks.len() - j,
        {
            let k: usize = ks[j];
            let run = if batch >= 4096 {
                PeaksSettings {
                    batch,
                    k,
                    train_steps: 0,
                    iters: min_usize(base.iters, 10),
                    ..base
                }
            } else {
                PeaksSettings { batch, k, ..base }
            };
            out.push(run);
            assert(out@ =~= start + added.take(j + 1));
            j += 1;
        }
        assert(added.take(ks@.len() as int) =~= added);
        assert(batches@.take(i + 1).drop_last() =~= batches@.take(i as int));
        assert(out@ =~= sweep_runs(base, batches@.take(i + 1), ks@));
        i += 1;
    }
    assert(batches@.take(batches@.len() as int) =~= batches@);
    out
}

/// A sweep runs every batch with every peak count, once.
pub proof fn sweep_covers_the_product(base: PeaksSettings, batches: Seq<usize>, ks: Seq<usize>)
    ensures
        sweep_runs(base, batches, ks).len() == batches.len() * ks.len(),
    decreases batches.len(),
{
    if batches.len() == 0 {
        assert(0 * ks.len() == 0);
    } else {
        sweep_covers_the_product(base, batches.drop_last(), ks);
        assert(batches.len() * ks.len() == (batches.len() - 1) * ks.len() + ks.len())
            by (nonlinear_arith)
            requires
                batches.len() >= 1,
        ;
    }
}

/// The paths of a run.
#[derive(Debug, Clone, Copy, PartialEq, Eq, Structural)]
pub enum PeaksPath {
    /// The full density of eight segments.
    FullPsd,
    /// Two segments and the largest peaks, by the reference transform.
    FastReference,
    /// The same with reused buffers.
    Streaming,
    /// One segment.
    Ultra,
    /// What the picker picks, or is forced to.
    Picker,
    /// The fused native path.
    NativeFused,
    /// The learned model.
    Learned,
    /// The learned model with hard gates.
    LearnedHard,
    /// The compiled learned model.
    LearnedCompiled,
}

/// For how many steps a model is trained, where a run needs one.
pub open spec fn model_steps(s: PeaksSettings) -> Option<usize> {
    if s.train_steps > 0 {
        Some(s.train_steps)
    } else if s.force_learned {
        Some(100)
    } else {
        None
    }
}

/// For how many steps a model is trained, where a run needs one.
pub fn peaks_model_steps(s: &PeaksSettings) -> (r: Option<usize>)
    ensures
        r == model_steps(*s),
{
    if s.train_steps > 0 {
        Some(s.train_steps)
    } else if s.force_learned {
        Some(100)
    } else {
        None
    }
}

/// The paths of a run, in order.
pub open spec fn paths_of(s: PeaksSettings) -> Seq<PeaksPath> {
    let a = seq![PeaksPath::FullPsd, PeaksPath::FastReference, PeaksPath::Streaming];
    let b = if s.with_ultra_fast {
        a.push(PeaksPath::Ultra)
    } else {
        a
    };
    let c = b.push(PeaksPath::Picker);
    let d = if s.with_compiled {
        c.push(PeaksPath::NativeFused)
    } else {
        c
    };
    if model_steps(s) is None {
        d
    } else {
        let e = d.push(PeaksPath::Learned).push(PeaksPath::LearnedHard);
        if s.with_compiled {
            e.push(PeaksPath::LearnedCompiled)
        } else {
            e
        }
    }
}

/// The paths of a run, in order.
pub fn plan_peaks_run(s: &PeaksSettings) -> (r: Vec<PeaksPath>)
    ensures
        r@ == paths_of(*s),
{
    let mut out = vec![PeaksPath::FullPsd, PeaksPath::FastReference, PeaksPath::Streaming];
    if s.with_ultra_fast {
        out.push(PeaksPath::Ultra);
    }
    out.push(PeaksPath::Picker);
    if s.with_compiled {
        out.push(PeaksPath::NativeFused);
    }
    if peaks_model_steps(s).is_some() {
        out.push(PeaksPath::Learned);
        out.push(PeaksPath::LearnedHard);
        if s.with_compiled {
            out.push(PeaksPath::LearnedCompiled);
        }
    }
    assert(out@ =~= paths_of(*s));
    out
}

/// Whether a run can be made: it needs an iteration and a peak.
pub fn peaks_run_is_valid(s: &PeaksSettings) -> (r: bool)
    ensures
        r == (s.iters >= 1 && s.k >= 1),
{
    s.iters >= 1 && s.k >= 1
}

/// The name of a path in rows: the picker's carries its strategy, the compiled ones their device.
pub open spec fn path_text(p: PeaksPath, strategy: Seq<char>, device: Device) -> Seq<char> {
    match p {
        PeaksPath::FullPsd => "welch_full_psd"@,
        PeaksPath::FastReference => "welch_fast_peaks_rustfft"@,
        PeaksPath::Streaming => "welch_fast_peaks_streaming"@,
        PeaksPath::Ultra => "welch_ultra_fast_peaks"@,
        PeaksPath::Picker => "welch_peaks_picker_"@ + strategy,
        PeaksPath::NativeFused => "welch_fast_peaks_rlx_"@ + device_token(device),
        PeaksPath::Learned => "learned_fast_peaks"@,
        PeaksPath::LearnedHard => "learned_fast_peaks_hard_gates"@,
        PeaksPath::LearnedCompiled => "learned_fast_peaks_compiled_"@ + device_token(device),
    }
}

fn path_name(p: PeaksPath, strategy: &str, device: Device) -> (r: String)
    ensures
        r@ == path_text(p, strategy@, device),
{
    match p {
        PeaksPath::FullPsd => "welch_full_psd".to_owned(),
        PeaksPath::FastReference => "welch_fast_peaks_rustfft".to_owned(),
        PeaksPath::Streaming => "welch_fast_peaks_streaming".to_owned(),
        PeaksPath::Ultra => "welch_ultra_fast_peaks".to_owned(),
        PeaksPath::Picker => {
            let mut s = "welch_peaks_picker_".to_owned();
            s.push_str(strategy);
            s
        },
        PeaksPath::NativeFused => {
            let mut s = "welch_fast_peaks_rlx_".to_owned();
            s.push_str(device.token());
            s
        },
        PeaksPath::Learned => "learned_fast_peaks".to_owned(),
        PeaksPath::LearnedHard => "learned_fast_peaks_hard_gates".to_owned(),
        PeaksPath::LearnedCompiled => {
            let mut s = "learned_fast_peaks_compiled_".to_owned();
            s.push_str(device.token());
            s
        },
    }
}

/// One measurement of one path.
#[derive(Clone, Debug)]
pub struct WelchPeaksBenchRow {
    pub path: String,
    pub n_fft: usize,
    pub batch: usize,
    pub k: usize,
    pub device: String,
    pub iters: usize,
    pub ms: Figure,
    pub output_len: usize,
    pub peak_err: Option<Figure>,
    /// Useful bytes over time.
    pub algo_bw_gbps: Option<Figure>,
}

/// What a row stands for.
pub struct PeaksRowView {
    pub path: Seq<char>,
    pub n_fft: usize,
    pub batch: usize,
    pub k: usize,
    pub device: Seq<char>,
    pub iters: usize,
    pub ms: FigureView,
    pub output_len: usize,
    pub peak_err: Option<FigureView>,
    pub algo_bw_gbps: Option<FigureView>,
}

impl View for WelchPeaksBenchRow {
    type V = PeaksRowView;

    open spec fn view(&self) -> PeaksRowView {
        PeaksRowView {
            path: self.path@,
            n_fft: self.n_fft,
            batch: self.batch,
            k: self.k,
            device: self.device@,
            iters: self.iters,
            ms: self.ms@,
            output_len: self.output_len,
            peak_err: figure_view(self.peak_err),
            algo_bw_gbps: figure_view(self.algo_bw_gbps),
        }
    }
}

/// The views of some rows.
pub open spec fn peaks_views(rows: Seq<WelchPeaksBenchRow>) -> Seq<PeaksRowView> {
    rows.map_values(|r: WelchPeaksBenchRow| r@)
}

/// What a path measured.
#[derive(Clone, Debug)]
pub struct PeaksMeasured {
    pub ms: Figure,
    pub output_len: usize,
    pub peak_err: Figure,
    pub algo_bw_gbps: Figure,
    /// The strategy that the picker took.
    pub strategy: String,
    /// The device that the path ran on.
    pub run_device: Device,
}

/// The row that a path leaves; the full density has neither peaks nor a bandwidth.
pub open spec fn measured_row(
    s: PeaksSettings,
    device: Seq<char>,
    path: PeaksPath,
    m: PeaksMeasured,
) -> PeaksRowView {
    PeaksRowView {
        path: path_text(path, m.strategy@, m.run_device),
        n_fft: s.n_fft,
        batch: s.batch,
        k: s.k,
        device,
        iters: s.iters,
        ms: m.ms@,
        output_len: m.output_len,
        peak_err: if path is FullPsd {
            None
        } else {
            Some(m.peak_err@)
        },
        algo_bw_gbps: if path is FullPsd {
            None
        } else {
            Some(m.algo_bw_gbps@)
        },
    }
}

/// The row that a path leaves.
pub fn peaks_row(s: &PeaksSettings, device: &str, path: PeaksPath, m: PeaksMeasured) -> (r:
    WelchPeaksBenchRow)
    ensures
        r@ == measured_row(*s, device@, path, m),
{
    let full = matches!(path, PeaksPath::FullPsd);
    WelchPeaksBenchRow {
        path: path_name(path, m.strategy.as_str(), m.run_device),
        n_fft: s.n_fft,
        batch: s.batch,
        k: s.k,
        device: device.to_owned(),
        iters: s.iters,
        ms: m.ms,
        output_len: m.output_len,
        peak_err: if full {
            None
        } else {
            Some(m.peak_err)
        },
        algo_bw_gbps: if full {
            None
        } else {
            Some(m.algo_bw_gbps)
        },
    }
}

/// How a path went.
#[derive(Debug)]
pub enum PathOutcome {
    /// It ran: what it measured, and its peaks as the bits of doubles.
    Ran { measured: PeaksMeasured, peaks: Vec<u64> },
    /// It could not be compiled.
    NotCompiled,
    /// It failed.
    Failed,
}

/// The fast peaks by the reference transform, as the bits of doubles, and their error.
#[derive(Debug)]
pub struct FastPeaks {
    pub peaks: Vec<u64>,
    pub peak_err: Figure,
}

/// Why a run ends without a report.
#[derive(Debug, Clone, Copy, PartialEq, Eq, Structural)]
pub enum PathFault {
    Failed,
    /// The path with reused buffers gives other peaks than the one without.
    StreamingDiffers,
}

/// Whether two lists of numbers are equal, number by number.
pub open spec fn same_peaks(a: Seq<u64>, b: Seq<u64>) -> bool {
    a.len() == b.len() && forall|i: int| 0 <= i < a.len() ==> equal(#[trigger] a[i], b[i])
}

fn peaks_agree(a: &Vec<u64>, b: &Vec<u64>) -> (r: bool)
    ensures
        r == same_peaks(a@, b@),
{
    if a.len() != b.len() {
        return false;
    }
    let mut i: usize = 0;
    while i < a.len()
        invariant
            i <= a.len(),
            a.len() == b.len(),
            forall|k: int| 0 <= k < i ==> equal(#[trigger] a@[k], b@[k]),
        decreases a.len() - i,
    {
        if !is_equal(a[i], b[i]) {
            assert(!equal(a@[i as int], b@[i as int]));
            return false;
        }
        i += 1;
    }
    true
}

/// What a path leaves in a report. The fused and the compiled learned path are left out where they
/// do not compile. The path with reused buffers has to give the fast peaks, and shares their error.
/// Whatever else goes wrong ends the run.
pub open spec fn path_left(
    s: PeaksSettings,
    device: Seq<char>,
    path: PeaksPath,
    outcome: PathOutcome,
    fast: Option<FastPeaks>,
) -> Result<Option<PeaksRowView>, PathFault> {
    match outcome {
        PathOutcome::Failed => Err(PathFault::Failed),
        PathOutcome::NotCompiled => if path is NativeFused || path is LearnedCompiled {
            Ok(None)
        } else {
            Err(PathFault::Failed)
        },
        PathOutcome::Ran { measured, peaks } => {
            let row = measured_row(s, device, path, measured);
            if path is Streaming {
                match fast {
                    Some(f) if same_peaks(f.peaks@, peaks@) => Ok(
                        Some(PeaksRowView { peak_err: Some(f.peak_err@), ..row }),
                    ),
                    _ => Err(PathFault::StreamingDiffers),
                }
            } else {
                Ok(Some(row))
            }
        },
    }
}

/// The row that a path leaves in a report, where it leaves one.
pub fn path_row(
    s: &PeaksSettings,
    device: &str,
    path: PeaksPath,
    outcome: PathOutcome,
    fast: &Option<FastPeaks>,
) -> (r: Result<Option<WelchPeaksBenchRow>, PathFault>)
    ensures
        match path_left(*s, device@, path, outcome, *fast) {
            Err(e) => r matches Err(f) && f == e,
            Ok(None) => r matches Ok(None),
            Ok(Some(v)) => r matches Ok(Some(row)) && row@ == v,
        },
{
    match outcome {
        PathOutcome::Failed => Err(PathFault::Failed),
        PathOutcome::NotCompiled => match path {
            PeaksPath::NativeFused => Ok(None),
            PeaksPath::LearnedCompiled => Ok(None),
            _ => Err(PathFault::Failed),
        },
        PathOutcome::Ran { measured, peaks } => {
            let mut row = peaks_row(s, device, path, measured);
            if matches!(path, PeaksPath::Streaming) {
                match fast {
                    Some(f) => {
                        if !peaks_agree(&f.peaks, &peaks) {
                            return Err(PathFault::StreamingDiffers);
                        }
                        row.peak_err = Some(f.peak_err.copy());
                    },
                    None => {
                        return Err(PathFault::StreamingDiffers);
                    },
                }
            }
            Ok(Some(row))
        },
    }
}

/// The sizes that the report of a sweep names: those of its last run.
pub open spec fn last_sizes(base: PeaksSettings, batches: Seq<usize>, ks: Seq<usize>) -> (usize, usize) {
    if batches.len() > 0 && ks.len() > 0 {
        (batches.last(), ks.last())
    } else {
        (base.batch, base.k)
    }
}

/// The batch and the peak count that the report of a sweep names.
pub fn reported_sizes(base: &PeaksSettings, batches: &Vec<usize>, ks: &Vec<usize>) -> (r: (usize, usize))
    ensures
        r == last_sizes(*base, batches@, ks@),
{
    if batches.len() > 0 && ks.len() > 0 {
        (batches[batches.len() - 1], ks[ks.len() - 1])
    } else {
        (base.batch, base.k)
    }
}

/// The report of a sweep names the sizes of its last run.
pub proof fn reports_name_the_last_run(base: PeaksSettings, batches: Seq<usize>, ks: Seq<usize>)
    requires
        batches.len() > 0,
        ks.len() > 0,
    ensures
        ({
            let last = sweep_runs(base, batches, ks).last();
            last_sizes(base, batches, ks) == (last.batch, last.k)
        }),
{
    let added = k_runs(base, batches.last(), ks);
    assert(sweep_runs(base, batches, ks).last() == added[ks.len() - 1]);
}

// ---------------------------------------------------------------------------
// The table
// ---------------------------------------------------------------------------

/// Which rows a lookup is after.
pub struct Wanted {
    pub batch: Option<usize>,
    pub k: Option<usize>,
    pub path: Seq<char>,
    /// Whether the path only has to start so.
    pub prefix: bool,
}

/// Whether a row is wanted.
pub open spec fn wanted(w: Wanted, r: PeaksRowView) -> bool {
    &&& w.batch matches Some(b) ==> r.batch == b
    &&& w.k matches Some(k) ==> r.k == k
    &&& if w.prefix {
        starts_with(r.path, w.path)
    } else {
        r.path == w.path
    }
}

/// The first wanted row.
pub open spec fn first_wanted(rows: Seq<PeaksRowView>, w: Wanted) -> Option<usize>
    decreases rows.len(),
{
    if rows.len() == 0 {
        None
    } else {
        match first_wanted(rows.drop_last(), w) {
            Some(i) => Some(i),
            None => if wanted(w, rows.last()) {
                Some((rows.len() - 1) as usize)
            } else {
                None
            },
        }
    }
}

proof fn lemma_first_stays(rows: Seq<PeaksRowView>, n: int, w: Wanted)
    requires
        0 <= n <= rows.len(),
        first_wanted(rows.take(n), w) is Some,
    ensures
        first_wanted(rows, w) == first_wanted(rows.take(n), w),
    decreases rows.len() - n,
{
    if n == rows.len() {
        assert(rows.take(n) =~= rows);
    } else {
        assert(rows.take(n + 1).drop_last() =~= rows.take(n));
        lemma_first_stays(rows, n + 1, w);
    }
}

fn find_row(
    rows: &Vec<WelchPeaksBenchRow>,
    batch: Option<usize>,
    k: Option<usize>,
    path: &str,
    prefix: bool,
) -> (r: Option<usize>)
    ensures
        r == first_wanted(peaks_views(rows@), (Wanted { batch, k, path: path@, prefix })),
{
    let ghost v = peaks_views(rows@);
    let ghost w = Wanted { batch, k, path: path@, prefix };
    let mut i: usize = 0;
    assert(v.take(0) =~= Seq::empty());
    while i < rows.len()
        invariant
            i <= rows.len(),
            v == peaks_views(rows@),
            w == (Wanted { batch, k, path: path@, prefix }),
            first_wanted(v.take(i as int), w) is None,
        decreases rows.len() - i,
    {
        let r = &rows[i];
        proof {
            assert(v.take(i + 1).drop_last() =~= v.take(i as int));
            assert(v.take(i + 1).last() == r@);
        }
        let batch_ok = match batch {
            Some(b) => r.batch == b,
            None => true,
        };
        let k_ok = match k {
            Some(x) => r.k == x,
            None => true,
        };
        let path_ok = if prefix {
            text_starts_with(r.path.as_str(), path)
        } else {
            same_text(r.path.as_str(), path)
        };
        if batch_ok && k_ok && path_ok {
            proof {
                lemma_first_stays(v, i + 1, w);
            }
            return Some(i);
        }
        i += 1;
    }
    assert(v.take(v.len() as int) =~= v);
    None
}

/// A line of the table. Rows are given by their places.
#[derive(Debug, Clone, Copy, PartialEq, Eq, Structural)]
pub enum PeaksLine {
    /// A row, with its batch and peak count in front where the table holds several.
    Row { row: usize, labelled: bool },
    /// The full density against the fast peaks.
    FastGain { full: usize, fast: usize },
    /// A path against the fast peaks.
    PathGain { row: usize, fast: usize },
    /// The picker against the fast peaks at a batch.
    PickerAt { batch: usize, fast: usize, picker: usize },
    /// The fused native path against the fast peaks at a batch.
    NativeAt { batch: usize, fast: usize, native: usize },
    /// The start of the peak counts of a batch.
    BatchHead { batch: usize },
    /// The paths at a batch and a peak count.
    KAt {
        k: usize,
        fast_row: Option<usize>,
        streaming_row: Option<usize>,
        native_row: Option<usize>,
        picker_row: Option<usize>,
    },
}

/// The lines of the rows themselves.
pub open spec fn row_lines(n: nat, labelled: bool) -> Seq<PeaksLine> {
    Seq::new(n, |i: int| PeaksLine::Row { row: i as usize, labelled })
}

/// Whether a path is compared with the fast peaks.
pub open spec fn compared(path: Seq<char>) -> bool {
    first_place(path, "compiled"@) is Some || first_place(path, "streaming"@) is Some || first_place(
        path,
        "ultra"@,
    ) is Some
}

/// The comparisons of the first `n` rows with the fast peaks.
pub open spec fn gain_lines(rows: Seq<PeaksRowView>, n: nat, fast: usize) -> Seq<PeaksLine>
    decreases n,
{
    if n == 0 {
        Seq::empty()
    } else {
        let before = gain_lines(rows, (n - 1) as nat, fast);
        if compared(rows[n - 1].path) {
            before.push(PeaksLine::PathGain { row: (n - 1) as usize, fast })
        } else {
            before
        }
    }
}

/// A wanted path by its name.
pub open spec fn named(batch: Option<usize>, k: Option<usize>, path: Seq<char>) -> Wanted {
    Wanted { batch, k, path, prefix: false }
}

/// A wanted path by how its name starts.
pub open spec fn starting(batch: Option<usize>, k: Option<usize>, path: Seq<char>) -> Wanted {
    Wanted { batch, k, path, prefix: true }
}

/// The comparisons of a table of one batch and one peak count.
pub open spec fn single_lines(rows: Seq<PeaksRowView>) -> Seq<PeaksLine> {
    let full = first_wanted(rows, named(None, None, "welch_full_psd"@));
    match first_wanted(rows, named(None, None, "welch_fast_peaks_rustfft"@)) {
        None => Seq::empty(),
        Some(fast) => {
            let head = match full {
                Some(f) => seq![PeaksLine::FastGain { full: f, fast }],
                None => Seq::empty(),
            };
            head + gain_lines(rows, rows.len(), fast)
        },
    }
}

/// The comparisons of one batch.
pub open spec fn batch_lines(rows: Seq<PeaksRowView>, batch: usize) -> Seq<PeaksLine> {
    match first_wanted(rows, named(Some(batch), None, "welch_fast_peaks_rustfft"@)) {
        None => Seq::empty(),
        Some(fast) => {
            let a = match first_wanted(rows, starting(Some(batch), None, "welch_peaks_picker_"@)) {
                Some(picker) => seq![PeaksLine::PickerAt { batch, fast, picker }],
                None => Seq::empty(),
            };
            match first_wanted(rows, starting(Some(batch), None, "welch_fast_peaks_rlx_"@)) {
                Some(native) => a.push(PeaksLine::NativeAt { batch, fast, native }),
                None => a,
            }
        },
    }
}

/// The comparisons of some batches.
pub open spec fn crossover_lines(rows: Seq<PeaksRowView>, batches: Seq<usize>) -> Seq<PeaksLine>
    decreases batches.len(),
{
    if batches.len() == 0 {
        Seq::empty()
    } else {
        crossover_lines(rows, batches.drop_last()) + batch_lines(rows, batches.last())
    }
}

/// The line of a batch and a peak count.
pub open spec fn k_line(rows: Seq<PeaksRowView>, batch: usize, k: usize) -> PeaksLine {
    PeaksLine::KAt {
        k,
        fast_row: first_wanted(rows, named(Some(batch), Some(k), "welch_fast_peaks_rustfft"@)),
        streaming_row: first_wanted(
            rows,
            named(Some(batch), Some(k), "welch_fast_peaks_streaming"@),
        ),
        native_row: first_wanted(rows, starting(Some(batch), Some(k), "welch_fast_peaks_rlx_"@)),
        picker_row: first_wanted(rows, starting(Some(batch), Some(k), "welch_peaks_picker_"@)),
    }
}

/// The peak counts of some batches.
pub open spec fn k_lines(rows: Seq<PeaksRowView>, batches: Seq<usize>, ks: Seq<usize>) -> Seq<
    PeaksLine,
>
    decreases batches.len(),
{
    if batches.len() == 0 {
        Seq::empty()
    } else {
        let b = batches.last();
        k_lines(rows, batches.drop_last(), ks).push(PeaksLine::BatchHead { batch: b })
            + ks.map_values(|k: usize| k_line(rows, b, k))
    }
}

/// The lines of the table: every row; the gains where there is one batch and one peak count; the
/// crossover of batches where only batches vary; the peak counts where those vary.
pub open spec fn table_lines(
    rows: Seq<PeaksRowView>,
    batches: Seq<usize>,
    ks: Seq<usize>,
) -> Seq<PeaksLine> {
    let several = batches.len() > 1 || ks.len() > 1;
    let a = row_lines(rows.len(), several);
    let b = if several {
        a
    } else {
        a + single_lines(rows)
    };
    let c = if batches.len() > 1 && ks.len() == 1 {
        b + crossover_lines(rows, batches)
    } else {
        b
    };
    if ks.len() > 1 {
        c + k_lines(rows, batches, ks)
    } else {
        c
    }
}

/// The lines of the table over the batches and the peak counts of the rows.
pub open spec fn peaks_lines(rows: Seq<PeaksRowView>) -> Seq<PeaksLine> {
    table_lines(rows, arranged::<usize>(row_batches(rows)), arranged::<usize>(row_ks(rows)))
}

/// Whether a place, where there is one, is that of a row.
pub open spec fn place_fits(p: Option<usize>, n: nat) -> bool {
    p matches Some(i) ==> i < n
}

/// Whether the rows that a line speaks of exist.
pub open spec fn line_fits(line: PeaksLine, n: nat) -> bool {
    match line {
        PeaksLine::Row { row, labelled } => row < n,
        PeaksLine::FastGain { full, fast } => full < n && fast < n,
        PeaksLine::PathGain { row, fast } => row < n && fast < n,
        PeaksLine::PickerAt { batch, fast, picker } => fast < n && picker < n,
        PeaksLine::NativeAt { batch, fast, native } => fast < n && native < n,
        PeaksLine::BatchHead { batch } => true,
        PeaksLine::KAt { k, fast_row, streaming_row, native_row, picker_row } => place_fits(
            fast_row,
            n,
        ) && place_fits(streaming_row, n) && place_fits(native_row, n) && place_fits(
            picker_row,
            n,
        ),
    }
}

/// Whether the rows that some lines speak of exist.
pub open spec fn lines_fit(lines: Seq<PeaksLine>, n: nat) -> bool {
    forall|i: int| 0 <= i < lines.len() ==> line_fits(#[trigger] lines[i], n)
}

proof fn lemma_found_fits(rows: Seq<PeaksRowView>, w: Wanted)
    requires
        rows.len() <= usize::MAX,
    ensures
        place_fits(first_wanted(rows, w), rows.len()),
    decreases rows.len(),
{
    if rows.len() > 0 {
        lemma_found_fits(rows.drop_last(), w);
    }
}

proof fn lemma_joined_fit(a: Seq<PeaksLine>, b: Seq<PeaksLine>, n: nat)
    requires
        lines_fit(a, n),
        lines_fit(b, n),
    ensures
        lines_fit(a + b, n),
{
    assert forall|i: int| 0 <= i < (a + b).len() implies line_fits(#[trigger] (a + b)[i], n) by {
        if i < a.len() {
            assert((a + b)[i] == a[i]);
        } else {
            assert((a + b)[i] == b[i - a.len()]);
        }
    }
}

proof fn lemma_gains_fit(rows: Seq<PeaksRowView>, n: nat, fast: usize)
    requires
        n <= rows.len() <= usize::MAX,
        fast < rows.len(),
    ensures
        lines_fit(gain_lines(rows, n, fast), rows.len()),
    decreases n,
{
    if n > 0 {
        lemma_gains_fit(rows, (n - 1) as nat, fast);
    }
}

proof fn lemma_crossover_fits(rows: Seq<PeaksRowView>, batches: Seq<usize>)
    requires
        rows.len() <= usize::MAX,
    ensures
        lines_fit(crossover_lines(rows, batches), rows.len()),
    decreases batches.len(),
{
    if batches.len() > 0 {
        let b = batches.last();
        lemma_crossover_fits(rows, batches.drop_last());
        lemma_found_fits(rows, named(Some(b), None, "welch_fast_peaks_rustfft"@));
        lemma_found_fits(rows, starting(Some(b), None, "welch_peaks_picker_"@));
        lemma_found_fits(rows, starting(Some(b), None, "welch_fast_peaks_rlx_"@));
        lemma_joined_fit(
            crossover_lines(rows, batches.drop_last()),
            batch_lines(rows, b),
            rows.len(),
        );
    }
}

proof fn lemma_counts_fit(rows: Seq<PeaksRowView>, batches: Seq<usize>, ks: Seq<usize>)
    requires
        rows.len() <= usize::MAX,
    ensures
        lines_fit(k_lines(rows, batches, ks), rows.len()),
    decreases batches.len(),
{
    if batches.len() > 0 {
        let b = batches.last();
        lemma_counts_fit(rows, batches.drop_last(), ks);
        let head = k_lines(rows, batches.drop_last(), ks).push(PeaksLine::BatchHead { batch: b });
        let more = ks.map_values(|k: usize| k_line(rows, b, k));
        assert forall|i: int| 0 <= i < more.len() implies line_fits(
            #[trigger] more[i],
            rows.len(),
        ) by {
            let k = ks[i];
            lemma_found_fits(rows, named(Some(b), Some(k), "welch_fast_peaks_rustfft"@));
            lemma_found_fits(rows, named(Some(b), Some(k), "welch_fast_peaks_streaming"@));
            lemma_found_fits(rows, starting(Some(b), Some(k), "welch_fast_peaks_rlx_"@));
            lemma_found_fits(rows, starting(Some(b), Some(k), "welch_peaks_picker_"@));
        }
        lemma_joined_fit(head, more, rows.len());
    }
}

/// Every line of the table speaks of rows of the table.
pub proof fn lines_name_rows(rows: Seq<PeaksRowView>, batches: Seq<usize>, ks: Seq<usize>)
    requires
        rows.len() <= usize::MAX,
    ensures
        lines_fit(table_lines(rows, batches, ks), rows.len()),
{
    let several = batches.len() > 1 || ks.len() > 1;
    let a = row_lines(rows.len(), several);
    lemma_found_fits(rows, named(None, None, "welch_full_psd"@));
    lemma_found_fits(rows, named(None, None, "welch_fast_peaks_rustfft"@));
    match first_wanted(rows, named(None, None, "welch_fast_peaks_rustfft"@)) {
        None => {},
        Some(fast) => {
            lemma_gains_fit(rows, rows.len(), fast);
            let head = match first_wanted(rows, named(None, None, "welch_full_psd"@)) {
                Some(f) => seq![PeaksLine::FastGain { full: f, fast }],
                None => Seq::empty(),
            };
            lemma_joined_fit(head, gain_lines(rows, rows.len(), fast), rows.len());
        },
    }
    lemma_joined_fit(a, single_lines(rows), rows.len());
    let b = if several {
        a
    } else {
        a + single_lines(rows)
    };
    lemma_crossover_fits(rows, batches);
    lemma_joined_fit(b, crossover_lines(rows, batches), rows.len());
    let c = if batches.len() > 1 && ks.len() == 1 {
        b + crossover_lines(rows, batches)
    } else {
        b
    };
    lemma_counts_fit(rows, batches, ks);
    lemma_joined_fit(c, k_lines(rows, batches, ks), rows.len());
}

/// The batches of some rows.
pub open spec fn row_batches(rows: Seq<PeaksRowView>) -> Seq<usize> {
    rows.map_values(|r: PeaksRowView| r.batch)
}

/// The peak counts of some rows.
pub open spec fn row_ks(rows: Seq<PeaksRowView>) -> Seq<usize> {
    rows.map_values(|r: PeaksRowView| r.k)
}

fn is_compared(path: &str) -> (r: bool)
    ensures
        r == compared(path@),
{
    let chars = chars_of(path);
    find_text(&chars, "compiled").is_some() || find_text(&chars, "streaming").is_some()
        || find_text(&chars, "ultra").is_some()
}

fn push_single(out: &mut Vec<PeaksLine>, rows: &Vec<WelchPeaksBenchRow>)
    ensures
        final(out)@ == old(out)@ + single_lines(peaks_views(rows@)),
{
    let ghost v = peaks_views(rows@);
    let ghost start = out@;
    let full = find_row(rows, None, None, "welch_full_psd", false);
    match find_row(rows, None, None, "welch_fast_peaks_rustfft", false) {
        None => {
            assert(start + Seq::<PeaksLine>::empty() =~= start);
        },
        Some(fast) => {
            let ghost mut head = Seq::<PeaksLine>::empty();
            if let Some(f) = full {
                out.push(PeaksLine::FastGain { full: f, fast });
                proof {
                    head = seq![PeaksLine::FastGain { full: f, fast }];
                }
            }
            assert(out@ =~= start + head);
            let ghost begun = out@;
            let mut i: usize = 0;
            assert(begun + gain_lines(v, 0, fast) =~= begun);
            while i < rows.len()
                invariant
                    i <= rows.len(),
                    v == peaks_views(rows@),
                    out@ == begun + gain_lines(v, i as nat, fast),
                decreases rows.len() - i,
            {
                assert(v[i as int] == rows@[i as int]@);
                if is_compared(rows[i].path.as_str()) {
                    out.push(PeaksLine::PathGain { row: i, fast });
                }
                assert(out@ =~= begun + gain_lines(v, (i + 1) as nat, fast));
                i += 1;
            }
            assert(out@ =~= start + (head + gain_lines(v, v.len(), fast)));
        },
    }
}

fn push_crossover(out: &mut Vec<PeaksLine>, rows: &Vec<WelchPeaksBenchRow>, batches: &Vec<usize>)
    ensures
        final(out)@ == old(out)@ + crossover_lines(peaks_views(rows@), batches@),
{
    let ghost v = peaks_views(rows@);
    let ghost start = out@;
    let mut i: usize = 0;
    assert(start + crossover_lines(v, batches@.take(0)) =~= start);
    while i < batches.len()
        invariant
            i <= batches.len(),
            v == peaks_views(rows@),
            out@ == start + crossover_lines(v, batches@.take(i as int)),
        decreases batches.len() - i,
    {
        let b: usize = batches[i];
        assert(batches@.take(i + 1).drop_last() =~= batches@.take(i as int));
        let ghost was = out@;
        match find_row(rows, Some(b), None, "welch_fast_peaks_rustfft", false) {
            None => {
                assert(was + Seq::<PeaksLine>::empty() =~= was);
            },
            Some(fast) => {
                if let Some(picker) = find_row(rows, Some(b), None, "welch_peaks_picker_", true) {
                    out.push(PeaksLine::PickerAt { batch: b, fast, picker });
                }
                if let Some(native) = find_row(rows, Some(b), None, "welch_fast_peaks_rlx_", true) {
                    out.push(PeaksLine::NativeAt { batch: b, fast, native });
                }
                assert(out@ =~= was + batch_lines(v, b));
            },
        }
        assert(out@ =~= start + crossover_lines(v, batches@.take(i + 1)));
        i += 1;
    }
    assert(batches@.take(batches@.len() as int) =~= batches@);
}

fn push_ks(
    out: &mut Vec<PeaksLine>,
    rows: &Vec<WelchPeaksBenchRow>,
    batches: &Vec<usize>,
    ks: &Vec<usize>,
)
    ensures
        final(out)@ == old(out)@ + k_lines(peaks_views(rows@), batches@, ks@),
{
    let ghost v = peaks_views(rows@);
    let ghost start = out@;
    let mut i: usize = 0;
    assert(start + k_lines(v, batches@.take(0), ks@) =~= start);
    while i < batches.len()
        invariant
            i <= batches.len(),
            v == peaks_views(rows@),
            out@ == start + k_lines(v, batches@.take(i as int), ks@),
        decreases batches.len() - i,
    {
        let b: usize = batches[i];
        assert(batches@.take(i + 1).drop_last() =~= batches@.take(i as int));
        out.push(PeaksLine::BatchHead { batch: b });
        let ghost begun = out@;
        let ghost added = ks@.map_values(|k: usize| k_line(v, b, k));
        let mut j: usize = 0;
        assert(begun + added.take(0) =~= begun);
        while j < ks.len()
            invariant
                j <= ks.len(),
                v == peaks_views(rows@),
                added == ks@.map_values(|k: usize| k_line(v, b, k)),
                out@ == begun + added.take(j as int),
            decreases ks.len() - j,
        {
            let k: usize = ks[j];
            let line = PeaksLine::KAt {
                k,
                fast_row: find_row(rows, Some(b), Some(k), "welch_fast_peaks_rustfft", false),
                streaming_row: find_row(rows, Some(b), Some(k), "welch_fast_peaks_streaming", false),
                native_row: find_row(rows, Some(b), Some(k), "welch_fast_peaks_rlx_", true),
                picker_row: find_row(rows, Some(b), Some(k), "welch_peaks_picker_", true),
            };
            assert(line == k_line(v, b, k));
            out.push(line);
            assert(out@ =~= begun + added.take(j + 1));
            j += 1;
        }
        assert(added.take(ks@.len() as int) =~= added);
        assert(out@ =~= start + k_lines(v, batches@.take(i + 1), ks@));
        i += 1;
    }
    assert(batches@.take(batches@.len() as int) =~= batches@);
}

/// The batches and the peak counts of some rows, ascending and without repeats.
pub fn peaks_axes(rows: &Vec<WelchPeaksBenchRow>) -> (r: (Vec<usize>, Vec<usize>))
    ensures
        ascending::<usize>(r.0@),
        r.0@.to_set() == row_batches(peaks_views(rows@)).to_set(),
        ascending::<usize>(r.1@),
        r.1@.to_set() == row_ks(peaks_views(rows@)).to_set(),
{
    let mut batches: Vec<usize> = Vec::new();
    let mut ks: Vec<usize> = Vec::new();
    let mut i: usize = 0;
    while i < rows.len()
        invariant
            i <= rows.len(),
            batches.len() == i,
            ks.len() == i,
            forall|k: int| 0 <= k < i ==> #[trigger] batches@[k] == rows@[k].batch,
            forall|k: int| 0 <= k < i ==> #[trigger] ks@[k] == rows@[k].k,
        decreases rows.len() - i,
    {
        batches.push(rows[i].batch);
        ks.push(rows[i].k);
        i += 1;
    }
    assert(batches@ =~= row_batches(peaks_views(rows@)));
    assert(ks@ =~= row_ks(peaks_views(rows@)));
    (distinct_numbers(batches), distinct_numbers(ks))
}

/// The lines of the table over the batches and peak counts of the rows.
pub fn peaks_table(rows: &Vec<WelchPeaksBenchRow>) -> (r: Vec<PeaksLine>)
    ensures
        r@ == peaks_lines(peaks_views(rows@)),
        forall|i: int| 0 <= i < r@.len() ==> line_fits(#[trigger] r@[i], rows@.len()),
{
    let ghost v = peaks_views(rows@);
    let (batches, ks) = peaks_axes(rows);
    let several = batches.len() > 1 || ks.len() > 1;
    let mut out: Vec<PeaksLine> = Vec::new();
    let mut i: usize = 0;
    let ghost lines = row_lines(v.len(), several);
    while i < rows.len()
        invariant
            i <= rows.len(),
            v == peaks_views(rows@),
            lines == row_lines(v.len(), several),
            out@ == lines.take(i as int),
        decreases rows.len() - i,
    {
        out.push(PeaksLine::Row { row: i, labelled: several });
        assert(out@ =~= lines.take(i + 1));
        i += 1;
    }
    assert(out@ =~= lines);
    if !several {
        push_single(&mut out, rows);
    }
    if batches.len() > 1 && ks.len() == 1 {
        push_crossover(&mut out, rows, &batches);
    }
    if ks.len() > 1 {
        push_ks(&mut out, rows, &batches, &ks);
    }
    assert(out@ == table_lines(v, batches@, ks@));
    proof {
        arranged_is::<usize>(row_batches(v), batches@);
        arranged_is::<usize>(row_ks(v), ks@);
        lines_name_rows(v, batches@, ks@);
    }
    out
}

} // verus!

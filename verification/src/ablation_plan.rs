//! What an ablation study runs, in which order, and the row that each run leaves.

use crate::ablation::{AblationReport, AblationRow, RowView};
use crate::config::{adapted_batches, batch_cap, compiled_ok_for_limit_sweep, config_fault, gpu_label,
    is_supported_n_fft, limit_sweep_batches, supported, swept_train_steps, train_steps_for_n_fft,
    welch_fits, welch_ok_for_config, welch_ok_for_limit_sweep, ConfigError, FftLearnConfig,
    LIMIT_SWEEP_REQUESTED_BATCHES, SUPPORTED_N_FFT};
use crate::device::{
    reports, resolve_train_device_in, resolved, view_of, wanted_device, Available, Device,
    DeviceError, DeviceFault,
};
use crate::figure::{is_nan, nan, Figure, FigureView};
use crate::text::{copy_text, lower_text, texts};
use vstd::prelude::*;
use vstd::string::StringSliceAdditionalSpecFns;

verus! {

/// Which path of a variant is measured.
#[derive(Debug, Clone, Copy, PartialEq, Eq, Structural)]
pub enum AblationDir {
    Forward,
    Inverse,
    Welch,
}

impl AblationDir {
    /// The name that rows give a path.
    pub open spec fn label_text(self) -> Seq<char> {
        match self {
            AblationDir::Forward => "Forward"@,
            AblationDir::Inverse => "Inverse"@,
            AblationDir::Welch => "Welch"@,
        }
    }

    pub fn label(self) -> (r: &'static str)
        ensures
            r@ == self.label_text(),
    {
        match self {
            AblationDir::Forward => "Forward",
            AblationDir::Inverse => "Inverse",
            AblationDir::Welch => "Welch",
        }
    }
}

/// How many variants are measured on each path.
#[derive(Debug, Clone, Copy, PartialEq, Eq, Structural)]
pub struct VariantCounts {
    pub forward: usize,
    pub inverse: usize,
    pub welch: usize,
}

impl VariantCounts {
    pub open spec fn on(self, dir: AblationDir) -> usize {
        match dir {
            AblationDir::Forward => self.forward,
            AblationDir::Inverse => self.inverse,
            AblationDir::Welch => self.welch,
        }
    }

    pub fn count(self, dir: AblationDir) -> (r: usize)
        ensures
            r == self.on(dir),
    {
        match dir {
            AblationDir::Forward => self.forward,
            AblationDir::Inverse => self.inverse,
            AblationDir::Welch => self.welch,
        }
    }
}

/// The settings of a study.
#[derive(Debug, Clone, Copy, PartialEq, Eq, Structural)]
pub struct StudyOptions {
    pub iters: usize,
    pub train_steps: usize,
    pub seed: u64,
    pub both_dirs: bool,
    pub with_welch: bool,
    /// Whether a variant that cannot be prepared leaves a row.
    pub record_failures: bool,
}

impl StudyOptions {
    /// The seed of the signal, the spectrum and the Welch signal of a study, in this order.
    pub fn input_seeds(&self) -> (r: (u64, u64, u64))
        ensures
            r.0 == self.seed,
            r.1 == (self.seed + 1) % 0x1_0000_0000_0000_0000,
            r.2 == (self.seed + 2) % 0x1_0000_0000_0000_0000,
    {
        (self.seed, self.seed.wrapping_add(1), self.seed.wrapping_add(2))
    }
}

/// One measurement to make. Devices and variants are given by their places in the lists of the
/// study.
#[derive(Debug, Clone, Copy, PartialEq, Eq, Structural)]
pub struct AblationJob {
    pub n_fft: usize,
    pub batch: usize,
    pub device: usize,
    pub direction: AblationDir,
    pub variant: usize,
}

/// The paths of a study, in order.
pub open spec fn study_dirs(o: StudyOptions) -> Seq<AblationDir> {
    let a = seq![AblationDir::Forward];
    let b = if o.both_dirs {
        a.push(AblationDir::Inverse)
    } else {
        a
    };
    if o.with_welch {
        b.push(AblationDir::Welch)
    } else {
        b
    }
}

/// The paths of a study, in order.
pub fn directions(o: &StudyOptions) -> (r: Vec<AblationDir>)
    ensures
        r@ == study_dirs(*o),
{
    let mut out: Vec<AblationDir> = Vec::new();
    out.push(AblationDir::Forward);
    if o.both_dirs {
        out.push(AblationDir::Inverse);
    }
    if o.with_welch {
        out.push(AblationDir::Welch);
    }
    assert(out@ =~= study_dirs(*o));
    out
}

/// The jobs of one path of one cell: every variant, in order.
pub open spec fn path_jobs(
    n_fft: usize,
    batch: usize,
    device: usize,
    dir: AblationDir,
    count: usize,
) -> Seq<AblationJob> {
    Seq::new(
        count as nat,
        |v: int| AblationJob { n_fft, batch, device, direction: dir, variant: v as usize },
    )
}

/// The jobs of one cell, path by path; the Welch path is left out where its buffer is too large.
pub open spec fn cell_jobs(
    n_fft: usize,
    batch: usize,
    device: usize,
    dirs: Seq<AblationDir>,
    counts: VariantCounts,
) -> Seq<AblationJob>
    decreases dirs.len(),
{
    if dirs.len() == 0 {
        Seq::empty()
    } else {
        let before = cell_jobs(n_fft, batch, device, dirs.drop_last(), counts);
        let dir = dirs.last();
        if dir is Welch && !welch_fits(n_fft as nat, batch as nat) {
            before
        } else {
            before + path_jobs(n_fft, batch, device, dir, counts.on(dir))
        }
    }
}

/// Why a study cannot be run.
pub enum PlanFault {
    NoIterations,
    Unsupported(usize),
    Device(DeviceFault),
    Config(ConfigError),
}

/// Why a study cannot be run.
#[derive(Clone, Debug)]
pub enum PlanError {
    /// A study needs at least one iteration.
    NoIterations,
    /// A transform size is not supported.
    Unsupported { n_fft: usize },
    /// A device cannot be used.
    Device(DeviceError),
    /// A size and a batch make no configuration.
    Config(ConfigError),
}

/// Whether an error reports a fault.
pub open spec fn plan_error_is(e: PlanError, f: PlanFault) -> bool {
    match f {
        PlanFault::NoIterations => e is NoIterations,
        PlanFault::Unsupported(n) => e matches PlanError::Unsupported { n_fft } && n_fft == n,
        PlanFault::Device(d) => e matches PlanError::Device(error) && reports(error, d),
        PlanFault::Config(c) => e matches PlanError::Config(error) && error == c,
    }
}

/// The lists and settings that a study runs over.
pub struct StudyView {
    pub devices: Seq<Seq<char>>,
    pub dirs: Seq<AblationDir>,
    pub counts: VariantCounts,
    pub environment: Option<Seq<char>>,
    pub available: Available,
}

/// The jobs of the first `k` devices for one size and batch, up to the first fault.
pub open spec fn device_jobs(s: StudyView, n_fft: usize, batch: usize, k: nat) -> Result<
    Seq<AblationJob>,
    PlanFault,
>
    decreases k,
{
    if k == 0 {
        Ok(Seq::empty())
    } else {
        let d = (k - 1) as nat;
        match device_jobs(s, n_fft, batch, d) {
            Err(f) => Err(f),
            Ok(before) => match resolved(
                wanted_device(Some(s.devices[d as int]), s.environment),
                s.available,
            ) {
                Err(f) => Err(PlanFault::Device(f)),
                Ok(_) => match config_fault(n_fft, batch) {
                    Some(e) => Err(PlanFault::Config(e)),
                    None => Ok(before + cell_jobs(n_fft, batch, d as usize, s.dirs, s.counts)),
                },
            },
        }
    }
}

/// The jobs of some batches for one size, up to the first fault.
pub open spec fn batch_jobs(s: StudyView, n_fft: usize, batches: Seq<usize>) -> Result<
    Seq<AblationJob>,
    PlanFault,
>
    decreases batches.len(),
{
    if batches.len() == 0 {
        Ok(Seq::empty())
    } else {
        match batch_jobs(s, n_fft, batches.drop_last()) {
            Err(f) => Err(f),
            Ok(before) => match device_jobs(s, n_fft, batches.last(), s.devices.len()) {
                Err(f) => Err(f),
                Ok(jobs) => Ok(before + jobs),
            },
        }
    }
}

/// The jobs of some sizes, up to the first fault; an unsupported size is a fault.
pub open spec fn size_jobs(s: StudyView, n_ffts: Seq<usize>, batches: Seq<usize>) -> Result<
    Seq<AblationJob>,
    PlanFault,
>
    decreases n_ffts.len(),
{
    if n_ffts.len() == 0 {
        Ok(Seq::empty())
    } else {
        match size_jobs(s, n_ffts.drop_last(), batches) {
            Err(f) => Err(f),
            Ok(before) => if !supported(n_ffts.last()) {
                Err(PlanFault::Unsupported(n_ffts.last()))
            } else {
                match batch_jobs(s, n_ffts.last(), batches) {
                    Err(f) => Err(f),
                    Ok(jobs) => Ok(before + jobs),
                }
            },
        }
    }
}

proof fn lemma_device_fault_stays(s: StudyView, n: usize, b: usize, i: nat, k: nat)
    requires
        i <= k,
        device_jobs(s, n, b, i) is Err,
    ensures
        device_jobs(s, n, b, k) == device_jobs(s, n, b, i),
    decreases k - i,
{
    if i < k {
        lemma_device_fault_stays(s, n, b, i, (k - 1) as nat);
    }
}

proof fn lemma_batch_fault_stays(s: StudyView, n: usize, bs: Seq<usize>, i: int)
    requires
        0 <= i <= bs.len(),
        batch_jobs(s, n, bs.take(i)) is Err,
    ensures
        batch_jobs(s, n, bs) == batch_jobs(s, n, bs.take(i)),
    decreases bs.len() - i,
{
    if i == bs.len() {
        assert(bs.take(i) =~= bs);
    } else {
        assert(bs.take(i + 1).drop_last() =~= bs.take(i));
        lemma_batch_fault_stays(s, n, bs, i + 1);
    }
}

proof fn lemma_size_fault_stays(s: StudyView, ns: Seq<usize>, bs: Seq<usize>, i: int)
    requires
        0 <= i <= ns.len(),
        size_jobs(s, ns.take(i), bs) is Err,
    ensures
        size_jobs(s, ns, bs) == size_jobs(s, ns.take(i), bs),
    decreases ns.len() - i,
{
    if i == ns.len() {
        assert(ns.take(i) =~= ns);
    } else {
        assert(ns.take(i + 1).drop_last() =~= ns.take(i));
        lemma_size_fault_stays(s, ns, bs, i + 1);
    }
}

fn push_cell(
    out: &mut Vec<AblationJob>,
    n_fft: usize,
    batch: usize,
    device: usize,
    dirs: &Vec<AblationDir>,
    counts: VariantCounts,
)
    ensures
        final(out)@ == old(out)@ + cell_jobs(n_fft, batch, device, dirs@, counts),
{
    let ghost start = out@;
    let mut i: usize = 0;
    assert(start + cell_jobs(n_fft, batch, device, dirs@.take(0), counts) =~= start);
    while i < dirs.len()
        invariant
            i <= dirs.len(),
            out@ == start + cell_jobs(n_fft, batch, device, dirs@.take(i as int), counts),
        decreases dirs.len() - i,
    {
        let dir = dirs[i];
        assert(dirs@.take(i + 1).drop_last() =~= dirs@.take(i as int));
        if !(matches!(dir, AblationDir::Welch) && !welch_ok_for_config(n_fft, batch)) {
            let n: usize = counts.count(dir);
            let ghost before = out@;
            let ghost path = path_jobs(n_fft, batch, device, dir, n);
            let mut v: usize = 0;
            assert(before + path.take(0) =~= before);
            while v < n
                invariant
                    v <= n,
                    path == path_jobs(n_fft, batch, device, dir, n),
                    out@ == before + path.take(v as int),
                decreases n - v,
            {
                out.push(AblationJob { n_fft, batch, device, direction: dir, variant: v });
                assert(out@ =~= before + path.take(v + 1));
                v += 1;
            }
            assert(path.take(n as int) =~= path);
            assert(out@ =~= start + cell_jobs(n_fft, batch, device, dirs@.take(i + 1), counts));
        }
        i += 1;
    }
    assert(dirs@.take(dirs@.len() as int) =~= dirs@);
}

/// The jobs of a study in the order in which they run, or the first fault that stops it.
pub fn plan_ablation(
    n_ffts: &Vec<usize>,
    batches: &Vec<usize>,
    devices: &Vec<String>,
    options: &StudyOptions,
    counts: VariantCounts,
    environment: Option<&str>,
    available: Available,
) -> (r: Result<Vec<AblationJob>, PlanError>)
    ensures
        ({
            let s = StudyView {
                devices: texts(devices@),
                dirs: study_dirs(*options),
                counts,
                environment: view_of(environment),
                available,
            };
            if options.iters < 1 {
                r matches Err(e) && plan_error_is(e, PlanFault::NoIterations)
            } else {
                match size_jobs(s, n_ffts@, batches@) {
                    Ok(jobs) => r matches Ok(v) && v@ == jobs,
                    Err(f) => r matches Err(e) && plan_error_is(e, f),
                }
            }
        }),
{
    if options.iters < 1 {
        return Err(PlanError::NoIterations);
    }
    let dirs = directions(options);
    let ghost s = StudyView {
        devices: texts(devices@),
        dirs: study_dirs(*options),
        counts,
        environment: view_of(environment),
        available,
    };
    let mut out: Vec<AblationJob> = Vec::new();
    let mut i: usize = 0;
    assert(n_ffts@.take(0) =~= Seq::empty());
    while i < n_ffts.len()
        invariant
            i <= n_ffts.len(),
            options.iters >= 1,
            dirs@ == s.dirs,
            s == (StudyView {
                devices: texts(devices@),
                dirs: study_dirs(*options),
                counts,
                environment: view_of(environment),
                available,
            }),
            size_jobs(s, n_ffts@.take(i as int), batches@) == Ok::<Seq<AblationJob>, PlanFault>(
                out@,
            ),
        decreases n_ffts.len() - i,
    {
        let n: usize = n_ffts[i];
        assert(n_ffts@.take(i + 1).drop_last() =~= n_ffts@.take(i as int));
        if !is_supported_n_fft(n) {
            proof {
                lemma_size_fault_stays(s, n_ffts@, batches@, i + 1);
            }
            return Err(PlanError::Unsupported { n_fft: n });
        }
        let ghost size_start = out@;
        let mut j: usize = 0;
        assert(batches@.take(0) =~= Seq::empty());
        assert(size_start + Seq::<AblationJob>::empty() =~= size_start);
        while j < batches.len()
            invariant
                j <= batches.len(),
                i < n_ffts.len(),
                n == n_ffts@[i as int],
                supported(n),
                options.iters >= 1,
                dirs@ == s.dirs,
                s == (StudyView {
                    devices: texts(devices@),
                    dirs: study_dirs(*options),
                    counts,
                    environment: view_of(environment),
                    available,
                }),
                size_jobs(s, n_ffts@.take(i as int), batches@) == Ok::<
                    Seq<AblationJob>,
                    PlanFault,
                >(size_start),
                n_ffts@.take(i + 1).drop_last() == n_ffts@.take(i as int),
                batch_jobs(s, n, batches@.take(j as int)) is Ok,
                out@ == size_start + batch_jobs(s, n, batches@.take(j as int))->Ok_0,
            decreases batches.len() - j,
        {
            let b: usize = batches[j];
            assert(batches@.take(j + 1).drop_last() =~= batches@.take(j as int));
            let ghost batch_start = out@;
            let mut k: usize = 0;
            assert(batch_start + Seq::<AblationJob>::empty() =~= batch_start);
            while k < devices.len()
                invariant
                    k <= devices.len(),
                    j < batches.len(),
                    b == batches@[j as int],
                    i < n_ffts.len(),
                    n == n_ffts@[i as int],
                    supported(n),
                    options.iters >= 1,
                    dirs@ == s.dirs,
                    s == (StudyView {
                        devices: texts(devices@),
                        dirs: study_dirs(*options),
                        counts,
                        environment: view_of(environment),
                        available,
                    }),
                    size_jobs(s, n_ffts@.take(i as int), batches@) == Ok::<
                        Seq<AblationJob>,
                        PlanFault,
                    >(size_start),
                    n_ffts@.take(i + 1).drop_last() == n_ffts@.take(i as int),
                    batches@.take(j + 1).drop_last() == batches@.take(j as int),
                    batch_jobs(s, n, batches@.take(j as int)) is Ok,
                    device_jobs(s, n, b, k as nat) is Ok,
                    out@ == batch_start + device_jobs(s, n, b, k as nat)->Ok_0,
                decreases devices.len() - k,
            {
                let found = resolve_train_device_in(
                    Some(devices[k].as_str()),
                    environment,
                    available,
                );
                assert(s.devices[k as int] == devices@[k as int]@);
                match found {
                    Err(error) => {
                        proof {
                            lemma_device_fault_stays(s, n, b, (k + 1) as nat, s.devices.len());
                            lemma_batch_fault_stays(s, n, batches@, j + 1);
                            lemma_size_fault_stays(s, n_ffts@, batches@, i + 1);
                        }
                        return Err(PlanError::Device(error));
                    },
                    Ok(_) => {},
                }
                match FftLearnConfig::new(n, b) {
                    Err(error) => {
                        proof {
                            lemma_device_fault_stays(s, n, b, (k + 1) as nat, s.devices.len());
                            lemma_batch_fault_stays(s, n, batches@, j + 1);
                            lemma_size_fault_stays(s, n_ffts@, batches@, i + 1);
                        }
                        return Err(PlanError::Config(error));
                    },
                    Ok(_) => {},
                }
                push_cell(&mut out, n, b, k, &dirs, counts);
                assert(out@ =~= batch_start + device_jobs(s, n, b, (k + 1) as nat)->Ok_0);
                k += 1;
            }
            assert(out@ =~= size_start + batch_jobs(s, n, batches@.take(j + 1))->Ok_0);
            j += 1;
        }
        assert(batches@.take(batches@.len() as int) =~= batches@);
        i += 1;
    }
    assert(n_ffts@.take(n_ffts@.len() as int) =~= n_ffts@);
    Ok(out)
}

/// Which paths a study runs: always the forward one, the inverse one only with both directions, and
/// the Welch path only where it is asked for.
pub proof fn paths_follow_the_options(o: StudyOptions)
    ensures
        study_dirs(o).contains(AblationDir::Forward),
        study_dirs(o).contains(AblationDir::Inverse) <==> o.both_dirs,
        study_dirs(o).contains(AblationDir::Welch) <==> o.with_welch,
        study_dirs(o).no_duplicates(),
{
    let d = study_dirs(o);
    assert(d[0] == AblationDir::Forward);
    if o.both_dirs {
        assert(d[1] == AblationDir::Inverse);
    }
    if o.with_welch {
        assert(d[d.len() - 1] == AblationDir::Welch);
    }
}

/// Every planned job has a size, a batch, a device, a path and a variant of the study, and none runs
/// the Welch path where its buffer is too large.
pub proof fn planned_jobs_are_sound(s: StudyView, n_ffts: Seq<usize>, batches: Seq<usize>)
    requires
        s.devices.len() <= usize::MAX,
    ensures
        size_jobs(s, n_ffts, batches) matches Ok(jobs) ==> forall|k: int|
            0 <= k < jobs.len() ==> {
                let j = #[trigger] jobs[k];
                &&& n_ffts.contains(j.n_fft)
                &&& supported(j.n_fft)
                &&& batches.contains(j.batch)
                &&& j.device < s.devices.len()
                &&& s.dirs.contains(j.direction)
                &&& j.variant < s.counts.on(j.direction)
                &&& j.direction is Welch ==> welch_fits(j.n_fft as nat, j.batch as nat)
            },
    decreases n_ffts.len(),
{
    if n_ffts.len() > 0 && size_jobs(s, n_ffts, batches) is Ok {
        let d = n_ffts.drop_last();
        let n = n_ffts.last();
        planned_jobs_are_sound(s, d, batches);
        lemma_batch_jobs(s, n, batches);
        let before = size_jobs(s, d, batches)->Ok_0;
        let jobs = size_jobs(s, n_ffts, batches)->Ok_0;
        assert forall|k: int| 0 <= k < jobs.len() implies ({
            let j = #[trigger] jobs[k];
            &&& n_ffts.contains(j.n_fft)
            &&& supported(j.n_fft)
            &&& batches.contains(j.batch)
            &&& j.device < s.devices.len()
            &&& s.dirs.contains(j.direction)
            &&& j.variant < s.counts.on(j.direction)
            &&& j.direction is Welch ==> welch_fits(j.n_fft as nat, j.batch as nat)
        }) by {
            if k < before.len() {
                assert(jobs[k] == before[k]);
                let q = choose|q: int| 0 <= q < d.len() && d[q] == jobs[k].n_fft;
                assert(n_ffts[q] == jobs[k].n_fft);
            } else {
                assert(jobs[k] == batch_jobs(s, n, batches)->Ok_0[k - before.len()]);
                assert(n_ffts[n_ffts.len() - 1] == n);
            }
        }
    }
}

proof fn lemma_batch_jobs(s: StudyView, n: usize, batches: Seq<usize>)
    requires
        s.devices.len() <= usize::MAX,
    ensures
        batch_jobs(s, n, batches) matches Ok(jobs) ==> forall|k: int|
            0 <= k < jobs.len() ==> {
                let j = #[trigger] jobs[k];
                &&& j.n_fft == n
                &&& batches.contains(j.batch)
                &&& j.device < s.devices.len()
                &&& s.dirs.contains(j.direction)
                &&& j.variant < s.counts.on(j.direction)
                &&& j.direction is Welch ==> welch_fits(n as nat, j.batch as nat)
            },
    decreases batches.len(),
{
    if batches.len() > 0 && batch_jobs(s, n, batches) is Ok {
        let d = batches.drop_last();
        let b = batches.last();
        lemma_batch_jobs(s, n, d);
        lemma_device_jobs(s, n, b, s.devices.len());
        let before = batch_jobs(s, n, d)->Ok_0;
        let jobs = batch_jobs(s, n, batches)->Ok_0;
        assert forall|k: int| 0 <= k < jobs.len() implies ({
            let j = #[trigger] jobs[k];
            &&& j.n_fft == n
            &&& batches.contains(j.batch)
            &&& j.device < s.devices.len()
            &&& s.dirs.contains(j.direction)
            &&& j.variant < s.counts.on(j.direction)
            &&& j.direction is Welch ==> welch_fits(n as nat, j.batch as nat)
        }) by {
            if k < before.len() {
                assert(jobs[k] == before[k]);
                let q = choose|q: int| 0 <= q < d.len() && d[q] == jobs[k].batch;
                assert(batches[q] == jobs[k].batch);
            } else {
                assert(jobs[k] == device_jobs(s, n, b, s.devices.len())->Ok_0[k - before.len()]);
                assert(batches[batches.len() - 1] == b);
            }
        }
    }
}

proof fn lemma_device_jobs(s: StudyView, n: usize, b: usize, k: nat)
    requires
        k <= s.devices.len(),
        s.devices.len() <= usize::MAX,
    ensures
        device_jobs(s, n, b, k) matches Ok(jobs) ==> forall|q: int|
            0 <= q < jobs.len() ==> {
                let j = #[trigger] jobs[q];
                &&& j.n_fft == n
                &&& j.batch == b
                &&& j.device < k
                &&& s.dirs.contains(j.direction)
                &&& j.variant < s.counts.on(j.direction)
                &&& j.direction is Welch ==> welch_fits(n as nat, b as nat)
            },
    decreases k,
{
    if k > 0 && device_jobs(s, n, b, k) is Ok {
        let d = (k - 1) as nat;
        lemma_device_jobs(s, n, b, d);
        lemma_cell_jobs(n, b, d as usize, s.dirs, s.counts);
        let before = device_jobs(s, n, b, d)->Ok_0;
        let jobs = device_jobs(s, n, b, k)->Ok_0;
        assert forall|q: int| 0 <= q < jobs.len() implies ({
            let j = #[trigger] jobs[q];
            &&& j.n_fft == n
            &&& j.batch == b
            &&& j.device < k
            &&& s.dirs.contains(j.direction)
            &&& j.variant < s.counts.on(j.direction)
            &&& j.direction is Welch ==> welch_fits(n as nat, b as nat)
        }) by {
            if q < before.len() {
                assert(jobs[q] == before[q]);
            } else {
                assert(jobs[q] == cell_jobs(n, b, d as usize, s.dirs, s.counts)[q - before.len()]);
            }
        }
    }
}

proof fn lemma_cell_jobs(
    n: usize,
    b: usize,
    d: usize,
    dirs: Seq<AblationDir>,
    counts: VariantCounts,
)
    ensures
        forall|q: int|
            0 <= q < cell_jobs(n, b, d, dirs, counts).len() ==> {
                let j = #[trigger] cell_jobs(n, b, d, dirs, counts)[q];
                &&& j.n_fft == n
                &&& j.batch == b
                &&& j.device == d
                &&& dirs.contains(j.direction)
                &&& j.variant < counts.on(j.direction)
                &&& j.direction is Welch ==> welch_fits(n as nat, b as nat)
            },
    decreases dirs.len(),
{
    if dirs.len() > 0 {
        let rest = dirs.drop_last();
        lemma_cell_jobs(n, b, d, rest, counts);
        let before = cell_jobs(n, b, d, rest, counts);
        let jobs = cell_jobs(n, b, d, dirs, counts);
        assert forall|q: int| 0 <= q < jobs.len() implies ({
            let j = #[trigger] jobs[q];
            &&& j.n_fft == n
            &&& j.batch == b
            &&& j.device == d
            &&& dirs.contains(j.direction)
            &&& j.variant < counts.on(j.direction)
            &&& j.direction is Welch ==> welch_fits(n as nat, b as nat)
        }) by {
            if q < before.len() {
                assert(jobs[q] == before[q]);
                let p = choose|p: int| 0 <= p < rest.len() && rest[p] == jobs[q].direction;
                assert(dirs[p] == jobs[q].direction);
            } else {
                assert(jobs[q].direction == dirs.last());
                assert(dirs[dirs.len() - 1] == dirs.last());
            }
        }
    }
}

// ---------------------------------------------------------------------------
// Rows
// ---------------------------------------------------------------------------

/// What a study knows of a variant.
#[derive(Clone, Debug)]
pub struct VariantInfo {
    pub tier: String,
    pub label: String,
    pub needs_training: bool,
    pub param_count: usize,
    pub memory_bytes: usize,
}

/// How a run ended.
#[derive(Clone, Debug)]
pub enum RunOutcome {
    /// The variant could not be prepared.
    Unprepared { message: String },
    /// The variant ran; a time or an error that could not be measured is missing.
    Ran { ms: Option<Figure>, max_err: Option<Figure> },
}

/// A figure, or one that is not a number where there is none.
pub open spec fn measured_or_nan(f: Option<Figure>) -> FigureView {
    match f {
        Some(v) => v@,
        None => Figure::unmeasured(),
    }
}

fn figure_or_nan(f: &Option<Figure>) -> (r: Figure)
    ensures
        r@ == measured_or_nan(*f),
{
    match f {
        Some(v) => v.copy(),
        None => Figure::not_a_number(),
    }
}

/// The row that a run leaves: none for a variant that could not be prepared, unless failures are
/// recorded. A run without a time is a failed bench.
pub open spec fn row_left(
    job: AblationJob,
    device: Seq<char>,
    v: VariantInfo,
    o: StudyOptions,
    outcome: RunOutcome,
) -> Option<RowView> {
    let (ms, max_err, status, note) = match outcome {
        RunOutcome::Unprepared { message } => (
            Figure::unmeasured(),
            Figure::unmeasured(),
            "prepare_fail"@,
            Some(message@),
        ),
        RunOutcome::Ran { ms, max_err } => (
            measured_or_nan(ms),
            measured_or_nan(max_err),
            if nan(measured_or_nan(ms).bits) {
                "bench_fail"@
            } else {
                "ok"@
            },
            None,
        ),
    };
    if outcome is Unprepared && !o.record_failures {
        None
    } else {
        Some(
            RowView {
                tier: v.tier@,
                variant: v.label@,
                direction: job.direction.label_text(),
                n_fft: job.n_fft,
                batch: job.batch,
                device,
                iters: o.iters,
                ms,
                max_err,
                train_steps: if v.needs_training {
                    o.train_steps
                } else {
                    0
                },
                param_count: v.param_count,
                memory_bytes: v.memory_bytes,
                status,
                note,
            },
        )
    }
}

/// The row that a run leaves.
pub fn ablation_row_for(
    job: &AblationJob,
    device: &str,
    variant: &VariantInfo,
    options: &StudyOptions,
    outcome: &RunOutcome,
) -> (r: Option<AblationRow>)
    ensures
        match row_left(*job, device@, *variant, *options, *outcome) {
            Some(v) => r matches Some(row) && row@ == v,
            None => r is None,
        },
{
    let (ms, max_err, status, note) = match outcome {
        RunOutcome::Unprepared { message } => {
            if !options.record_failures {
                return None;
            }
            (
                Figure::not_a_number(),
                Figure::not_a_number(),
                "prepare_fail".to_owned(),
                Some(copy_text(message)),
            )
        },
        RunOutcome::Ran { ms, max_err } => {
            let time = figure_or_nan(ms);
            let status = if is_nan(time.bits) {
                "bench_fail".to_owned()
            } else {
                "ok".to_owned()
            };
            (time, figure_or_nan(max_err), status, None)
        },
    };
    Some(
        AblationRow {
            tier: copy_text(&variant.tier),
            variant: copy_text(&variant.label),
            direction: job.direction.label().to_owned(),
            n_fft: job.n_fft,
            batch: job.batch,
            device: device.to_owned(),
            iters: options.iters,
            ms,
            max_err,
            train_steps: if variant.needs_training {
                options.train_steps
            } else {
                0
            },
            param_count: variant.param_count,
            memory_bytes: variant.memory_bytes,
            status,
            note,
        },
    )
}

/// The report of a study over its rows.
pub fn study_report(
    n_ffts: Vec<usize>,
    options: &StudyOptions,
    elapsed_ms: Figure,
    rows: Vec<AblationRow>,
) -> (r: AblationReport)
    ensures
        r == (AblationReport {
            iters: options.iters,
            train_steps: options.train_steps,
            both_dirs: options.both_dirs,
            with_welch: options.with_welch,
            limit_sweep: false,
            n_ffts,
            elapsed_ms,
            rows,
        }),
{
    AblationReport {
        iters: options.iters,
        train_steps: options.train_steps,
        both_dirs: options.both_dirs,
        with_welch: options.with_welch,
        limit_sweep: false,
        n_ffts,
        elapsed_ms,
        rows,
    }
}

// ---------------------------------------------------------------------------
// Limit sweeps
// ---------------------------------------------------------------------------

/// One study of a limit sweep: one size on one device.
#[derive(Clone, Debug)]
pub struct LimitCell {
    pub n_fft: usize,
    /// The place of the device in the list of the sweep.
    pub device: usize,
    pub batches: Vec<usize>,
    pub with_compiled: bool,
    pub options: StudyOptions,
}

/// Whether a cell is the study of a size on a device in a limit sweep.
pub open spec fn limit_cell(
    c: LimitCell,
    n_fft: usize,
    device: int,
    name: Seq<char>,
    iters: usize,
    train_steps: usize,
    seed: u64,
) -> bool {
    &&& c.n_fft == n_fft
    &&& c.device == device
    &&& adapted_batches(
        LIMIT_SWEEP_REQUESTED_BATCHES@,
        batch_cap(n_fft as nat) as usize,
        c.batches@,
    )
    &&& c.with_compiled == (n_fft <= if gpu_label(lower_text(name)) {
        2048int
    } else {
        1024
    })
    &&& c.options.iters == iters
    &&& c.options.train_steps == swept_train_steps(train_steps as nat, n_fft as nat)
    &&& c.options.seed == (seed + n_fft + vstd::utf8::encode_utf8(name).len() as usize)
        % 0x1_0000_0000_0000_0000
    &&& c.options.both_dirs
    &&& c.options.with_welch == (n_fft <= 32768)
    &&& c.options.record_failures
}

/// Whether `out` lists the studies of a limit sweep: every supported size, and for each every
/// device.
pub open spec fn limit_cells(
    out: Seq<LimitCell>,
    devices: Seq<Seq<char>>,
    iters: usize,
    train_steps: usize,
    seed: u64,
) -> bool {
    &&& out.len() == 12 * devices.len()
    &&& forall|k: int|
        0 <= k < out.len() ==> limit_cell(
            #[trigger] out[k],
            SUPPORTED_N_FFT@[k / (devices.len() as int)],
            k % (devices.len() as int),
            devices[k % (devices.len() as int)],
            iters,
            train_steps,
            seed,
        )
}

/// The studies of a limit sweep, in order.
pub fn plan_limit_sweep(devices: &Vec<String>, iters: usize, train_steps: usize, seed: u64) -> (r:
    Vec<LimitCell>)
    ensures
        limit_cells(r@, texts(devices@), iters, train_steps, seed),
{
    let ghost names = texts(devices@);
    let ghost d = devices@.len() as int;
    let mut out: Vec<LimitCell> = Vec::new();
    let mut i: usize = 0;
    assert(0 * d == 0);
    while i < 12
        invariant
            i <= 12,
            names == texts(devices@),
            d == devices@.len(),
            out.len() == i * d,
            forall|k: int|
                0 <= k < out.len() ==> limit_cell(
                    #[trigger] out@[k],
                    SUPPORTED_N_FFT@[k / d],
                    k % d,
                    names[k % d],
                    iters,
                    train_steps,
                    seed,
                ),
        decreases 12 - i,
    {
        let n: usize = SUPPORTED_N_FFT[i];
        let mut j: usize = 0;
        while j < devices.len()
            invariant
                j <= devices.len(),
                i < 12,
                n == SUPPORTED_N_FFT@[i as int],
                names == texts(devices@),
                d == devices@.len(),
                out.len() == i * d + j,
                forall|k: int|
                    0 <= k < out.len() ==> limit_cell(
                        #[trigger] out@[k],
                        SUPPORTED_N_FFT@[k / d],
                        k % d,
                        names[k % d],
                        iters,
                        train_steps,
                        seed,
                    ),
            decreases devices.len() - j,
        {
            let name = devices[j].as_str();
            let options = StudyOptions {
                iters,
                train_steps: train_steps_for_n_fft(train_steps, n),
                seed: seed.wrapping_add(n as u64).wrapping_add(name.len() as u64),
                both_dirs: true,
                with_welch: welch_ok_for_limit_sweep(n),
                record_failures: true,
            };
            let c = LimitCell {
                n_fft: n,
                device: j,
                batches: limit_sweep_batches(n),
                with_compiled: compiled_ok_for_limit_sweep(n, name),
                options,
            };
            proof {
                let at = i * d + j;
                vstd::arithmetic::div_mod::lemma_fundamental_div_mod_converse(
                    at,
                    d,
                    i as int,
                    j as int,
                );
                assert(names[j as int] == devices@[j as int]@);
                assert(limit_cell(
                    c,
                    SUPPORTED_N_FFT@[at / d],
                    at % d,
                    names[at % d],
                    iters,
                    train_steps,
                    seed,
                ));
            }
            out.push(c);
            j += 1;
        }
        assert((i + 1) * d == i * d + d) by (nonlinear_arith);
        i += 1;
    }
    out
}

/// The report of a limit sweep over its rows.
pub fn limit_report(iters: usize, train_steps: usize, elapsed_ms: Figure, rows: Vec<AblationRow>) -> (r:
    AblationReport)
    ensures
        r.iters == iters,
        r.train_steps == train_steps,
        r.both_dirs && r.with_welch && r.limit_sweep,
        r.n_ffts@ == SUPPORTED_N_FFT@,
        r.elapsed_ms == elapsed_ms,
        r.rows == rows,
{
    let mut n_ffts: Vec<usize> = Vec::new();
    let mut i: usize = 0;
    while i < 12
        invariant
            i <= 12,
            n_ffts@ == SUPPORTED_N_FFT@.take(i as int),
        decreases 12 - i,
    {
        n_ffts.push(SUPPORTED_N_FFT[i]);
        assert(n_ffts@ =~= SUPPORTED_N_FFT@.take(i + 1));
        i += 1;
    }
    assert(n_ffts@ =~= SUPPORTED_N_FFT@);
    AblationReport {
        iters,
        train_steps,
        both_dirs: true,
        with_welch: true,
        limit_sweep: true,
        n_ffts,
        elapsed_ms,
        rows,
    }
}

/// The devices of a limit sweep: every one that is live.
pub fn limit_sweep_devices() -> (r: Vec<String>)
    ensures
        exists|a: Available|
            texts(r@) == #[trigger] crate::device::labels(crate::device::swept_devices(a)),
{
    crate::device::available_devices()
}

} // verus!

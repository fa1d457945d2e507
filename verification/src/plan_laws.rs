//! What plans and reports keep: every job that a study is asked for, rows that say how runs ended,
//! devices that are named once and ready, and the best and the range of timings.

use crate::ablation::usable;
use crate::ablation_plan::{
    batch_jobs, cell_jobs, device_jobs, limit_cell, path_jobs, row_left, size_jobs, AblationDir,
    AblationJob, LimitCell, RunOutcome, StudyOptions, StudyView, VariantCounts, VariantInfo,
};
use crate::bench_sweep::budget_of;
use crate::config::{batch_cap, config_fault, limit_sweep_stays_within_cap, supported, welch_fits};
use crate::device::{
    auto_device, device_read, normalized, report_label, resolved, selected, swept_devices,
    wanted_device, Available, Device,
};
use crate::figure::{less, nan};
use crate::grid::{best_of, found, row_range, CellView, HIGHEST};
use crate::max_batch::{capacity, dispatch_limit, override_bytes, FftProblem};
use crate::study_laws::lemma_joined_contains;
use crate::text::{lower_text, trimmed};
use vstd::prelude::*;

verus! {

// ---------------------------------------------------------------------------
// Jobs
// ---------------------------------------------------------------------------

proof fn lemma_cell_is_covered(
    n_fft: usize,
    batch: usize,
    device: usize,
    dirs: Seq<AblationDir>,
    counts: VariantCounts,
    j: AblationJob,
)
    requires
        j.n_fft == n_fft,
        j.batch == batch,
        j.device == device,
        dirs.contains(j.direction),
        j.variant < counts.on(j.direction),
        j.direction is Welch ==> welch_fits(n_fft as nat, batch as nat),
    ensures
        cell_jobs(n_fft, batch, device, dirs, counts).contains(j),
    decreases dirs.len(),
{
    let d = dirs.drop_last();
    let before = cell_jobs(n_fft, batch, device, d, counts);
    let dir = dirs.last();
    let more = path_jobs(n_fft, batch, device, dir, counts.on(dir));
    lemma_joined_contains(before, more, j);
    if j.direction == dir {
        assert(more[j.variant as int] == j);
    } else {
        let k = choose|k: int| 0 <= k < dirs.len() && dirs[k] == j.direction;
        assert(d[k] == j.direction);
        lemma_cell_is_covered(n_fft, batch, device, d, counts, j);
    }
}

proof fn lemma_devices_are_covered(s: StudyView, n_fft: usize, batch: usize, k: nat, j: AblationJob)
    requires
        k <= s.devices.len(),
        k <= usize::MAX,
        device_jobs(s, n_fft, batch, k) is Ok,
        j.n_fft == n_fft,
        j.batch == batch,
        j.device < k,
        s.dirs.contains(j.direction),
        j.variant < s.counts.on(j.direction),
        j.direction is Welch ==> welch_fits(n_fft as nat, batch as nat),
    ensures
        device_jobs(s, n_fft, batch, k)->Ok_0.contains(j),
    decreases k,
{
    let d = (k - 1) as nat;
    let before = device_jobs(s, n_fft, batch, d)->Ok_0;
    let more = cell_jobs(n_fft, batch, d as usize, s.dirs, s.counts);
    lemma_joined_contains(before, more, j);
    if j.device == d {
        lemma_cell_is_covered(n_fft, batch, d as usize, s.dirs, s.counts, j);
    } else {
        lemma_devices_are_covered(s, n_fft, batch, d, j);
    }
}

proof fn lemma_batches_are_covered(s: StudyView, n_fft: usize, batches: Seq<usize>, j: AblationJob)
    requires
        s.devices.len() <= usize::MAX,
        batch_jobs(s, n_fft, batches) is Ok,
        j.n_fft == n_fft,
        batches.contains(j.batch),
        j.device < s.devices.len(),
        s.dirs.contains(j.direction),
        j.variant < s.counts.on(j.direction),
        j.direction is Welch ==> welch_fits(n_fft as nat, j.batch as nat),
    ensures
        batch_jobs(s, n_fft, batches)->Ok_0.contains(j),
    decreases batches.len(),
{
    let d = batches.drop_last();
    let b = batches.last();
    let before = batch_jobs(s, n_fft, d)->Ok_0;
    let more = device_jobs(s, n_fft, b, s.devices.len())->Ok_0;
    lemma_joined_contains(before, more, j);
    if j.batch == b {
        lemma_devices_are_covered(s, n_fft, b, s.devices.len(), j);
    } else {
        let k = choose|k: int| 0 <= k < batches.len() && batches[k] == j.batch;
        assert(d[k] == j.batch);
        lemma_batches_are_covered(s, n_fft, d, j);
    }
}

/// A study that can be run makes every measurement that it is asked for: every size with every batch
/// on every device, along every path of the study and with every variant of the path, but the Welch
/// path where its buffer is too large.
pub proof fn studies_make_every_measurement(
    s: StudyView,
    n_ffts: Seq<usize>,
    batches: Seq<usize>,
    j: AblationJob,
)
    requires
        s.devices.len() <= usize::MAX,
        size_jobs(s, n_ffts, batches) is Ok,
        n_ffts.contains(j.n_fft),
        batches.contains(j.batch),
        j.device < s.devices.len(),
        s.dirs.contains(j.direction),
        j.variant < s.counts.on(j.direction),
        j.direction is Welch ==> welch_fits(j.n_fft as nat, j.batch as nat),
    ensures
        size_jobs(s, n_ffts, batches)->Ok_0.contains(j),
    decreases n_ffts.len(),
{
    let d = n_ffts.drop_last();
    let n = n_ffts.last();
    let before = size_jobs(s, d, batches)->Ok_0;
    let more = batch_jobs(s, n, batches)->Ok_0;
    lemma_joined_contains(before, more, j);
    if j.n_fft == n {
        lemma_batches_are_covered(s, n, batches, j);
    } else {
        let k = choose|k: int| 0 <= k < n_ffts.len() && n_ffts[k] == j.n_fft;
        assert(d[k] == j.n_fft);
        studies_make_every_measurement(s, d, batches, j);
    }
}

proof fn lemma_devices_are_sound(s: StudyView, n_fft: usize, batch: usize, k: nat)
    requires
        k <= s.devices.len(),
    ensures
        device_jobs(s, n_fft, batch, k) is Ok <==> (k == 0 || config_fault(n_fft, batch) is None)
            && forall|i: int|
            0 <= i < k ==> resolved(
                wanted_device(Some(#[trigger] s.devices[i]), s.environment),
                s.available,
            ) is Ok,
    decreases k,
{
    if k > 0 {
        let d = (k - 1) as nat;
        lemma_devices_are_sound(s, n_fft, batch, d);
        assert(s.devices[d as int] == s.devices[k - 1]);
    }
}

/// A study of supported sizes can be run exactly where each of its devices can be used and each size
/// with each batch makes a configuration.
pub proof fn studies_run_on_ready_devices(
    s: StudyView,
    n_ffts: Seq<usize>,
    batches: Seq<usize>,
)
    requires
        forall|i: int| 0 <= i < n_ffts.len() ==> supported(#[trigger] n_ffts[i]),
        forall|i: int, j: int|
            0 <= i < n_ffts.len() && 0 <= j < batches.len() ==> config_fault(
                #[trigger] n_ffts[i],
                #[trigger] batches[j],
            ) is None,
        forall|i: int|
            0 <= i < s.devices.len() ==> resolved(
                wanted_device(Some(#[trigger] s.devices[i]), s.environment),
                s.available,
            ) is Ok,
    ensures
        size_jobs(s, n_ffts, batches) is Ok,
    decreases n_ffts.len(),
{
    if n_ffts.len() > 0 {
        let d = n_ffts.drop_last();
        assert forall|i: int| 0 <= i < d.len() implies supported(#[trigger] d[i]) by {
            assert(d[i] == n_ffts[i]);
        }
        assert forall|i: int, j: int|
            0 <= i < d.len() && 0 <= j < batches.len() implies config_fault(
            #[trigger] d[i],
            #[trigger] batches[j],
        ) is None by {
            assert(d[i] == n_ffts[i]);
        }
        studies_run_on_ready_devices(s, d, batches);
        let n = n_ffts[n_ffts.len() - 1];
        assert(supported(n));
        assert forall|j: int| 0 <= j < batches.len() implies config_fault(
            n,
            #[trigger] batches[j],
        ) is None by {}
        lemma_ready_batches(s, n, batches);
    }
}

proof fn lemma_ready_batches(s: StudyView, n_fft: usize, batches: Seq<usize>)
    requires
        forall|j: int|
            0 <= j < batches.len() ==> config_fault(n_fft, #[trigger] batches[j]) is None,
        forall|i: int|
            0 <= i < s.devices.len() ==> resolved(
                wanted_device(Some(#[trigger] s.devices[i]), s.environment),
                s.available,
            ) is Ok,
    ensures
        batch_jobs(s, n_fft, batches) is Ok,
    decreases batches.len(),
{
    if batches.len() > 0 {
        let d = batches.drop_last();
        assert forall|j: int| 0 <= j < d.len() implies config_fault(
            n_fft,
            #[trigger] d[j],
        ) is None by {
            assert(d[j] == batches[j]);
        }
        lemma_ready_batches(s, n_fft, d);
        assert(config_fault(n_fft, batches[batches.len() - 1]) is None);
        lemma_devices_are_sound(s, n_fft, batches.last(), s.devices.len());
    }
}

/// A run leaves a row unless its variant could not be prepared and failures are not recorded. A row
/// is usable only where a time was measured; what was measured stands in it, and a variant that needs
/// no training was not trained.
pub proof fn rows_say_how_studies_went(
    job: AblationJob,
    device: Seq<char>,
    v: VariantInfo,
    o: StudyOptions,
    outcome: RunOutcome,
)
    ensures
        row_left(job, device, v, o, outcome) is None <==> outcome is Unprepared
            && !o.record_failures,
        row_left(job, device, v, o, outcome) matches Some(r) ==> {
            &&& r.variant == v.label@ && r.tier == v.tier@
            &&& r.direction == job.direction.label_text()
            &&& r.n_fft == job.n_fft && r.batch == job.batch && r.device == device && r.iters
                == o.iters
            &&& r.train_steps == if v.needs_training {
                o.train_steps
            } else {
                0
            }
            &&& r.param_count == v.param_count && r.memory_bytes == v.memory_bytes
            &&& outcome matches RunOutcome::Unprepared { message } ==> !usable(r) && nan(r.ms.bits)
                && r.note == Some(message@)
            &&& outcome matches RunOutcome::Ran { ms, max_err } ==> {
                &&& r.note is None
                &&& ms matches Some(t) ==> r.ms == t@
                &&& max_err matches Some(e) ==> r.max_err == e@
                &&& ms is None ==> nan(r.ms.bits) && !usable(r)
                &&& max_err is None ==> nan(r.max_err.bits)
                &&& ms matches Some(t) ==> usable(r) == less(0, t.bits)
            }
        },
{
    reveal_strlit("ok");
    reveal_strlit("prepare_fail");
    reveal_strlit("bench_fail");
    assert("ok"@.len() != "prepare_fail"@.len());
    assert("ok"@.len() != "bench_fail"@.len());
}

/// A study of a limit sweep stays within the limits of its size: its batches within the cap, its
/// training within what was asked for, and the Welch path and compiled graphs only up to their sizes.
pub proof fn limit_studies_stay_within_limits(
    c: LimitCell,
    n_fft: usize,
    device: int,
    name: Seq<char>,
    iters: usize,
    train_steps: usize,
    seed: u64,
)
    requires
        limit_cell(c, n_fft, device, name, iters, train_steps, seed),
    ensures
        c.batches@.len() > 0,
        forall|i: int|
            0 <= i < c.batches@.len() ==> 1 <= #[trigger] c.batches@[i] <= batch_cap(n_fft as nat),
        c.options.train_steps <= train_steps,
        n_fft <= 1024 ==> c.with_compiled && c.options.train_steps == train_steps,
        n_fft > 2048 ==> !c.with_compiled,
        n_fft > 32768 ==> !c.options.with_welch,
        c.options.record_failures && c.options.both_dirs,
        c.options.iters == iters,
{
    limit_sweep_stays_within_cap(n_fft as nat, c.batches@);
}

// ---------------------------------------------------------------------------
// Devices
// ---------------------------------------------------------------------------

/// Whether a text names a device that is ready, with a label.
pub open spec fn names_ready(part: Seq<char>, a: Available, label: Seq<char>) -> bool {
    device_read(normalized(part)) matches Some(d) && a.ready(d) && report_label(d) == label
}

/// A list of devices that can be read holds no label twice, and each is that of a device that is
/// named in it and ready; a name that is not blank and cannot be used is never passed over.
pub proof fn selected_devices_are_ready(parts: Seq<Seq<char>>, a: Available)
    ensures
        selected(parts, a) matches Ok(v) ==> {
            &&& forall|i: int, j: int|
                0 <= i < j < v.len() ==> (#[trigger] v[i]) != (#[trigger] v[j])
            &&& forall|label: Seq<char>| #[trigger]
                v.contains(label) ==> exists|k: int|
                    0 <= k < parts.len() && names_ready(#[trigger] parts[k], a, label)
            &&& forall|k: int|
                0 <= k < parts.len() && normalized(#[trigger] parts[k]).len() > 0 ==> (device_read(
                    normalized(parts[k]),
                ) matches Some(d) && a.ready(d) && v.contains(report_label(d)))
        },
    decreases parts.len(),
{
    if parts.len() > 0 {
        let rest = parts.drop_last();
        selected_devices_are_ready(rest, a);
        if selected(parts, a) is Ok {
            let was = selected(rest, a)->Ok_0;
            let v = selected(parts, a)->Ok_0;
            let name = normalized(parts.last());
            assert(parts[parts.len() - 1] == parts.last());
            assert forall|label: Seq<char>| #[trigger] v.contains(label) implies exists|k: int|
                0 <= k < parts.len() && names_ready(#[trigger] parts[k], a, label) by {
                let i = choose|i: int| 0 <= i < v.len() && v[i] == label;
                if i < was.len() {
                    assert(was[i] == label);
                    assert(was.contains(label));
                    let k = choose|k: int|
                        0 <= k < rest.len() && names_ready(#[trigger] rest[k], a, label);
                    assert(parts[k] == rest[k]);
                } else {
                    assert(names_ready(parts[parts.len() - 1], a, label));
                }
            }
            assert forall|i: int, j: int| 0 <= i < j < v.len() implies (#[trigger] v[i])
                != (#[trigger] v[j]) by {
                assert(v[i] == was[i]);
                if j < was.len() {
                    assert(v[j] == was[j]);
                } else {
                    assert(was.contains(was[i]));
                }
            }
            assert forall|k: int|
                0 <= k < parts.len() && normalized(#[trigger] parts[k]).len() > 0 implies (
            device_read(normalized(parts[k])) matches Some(d) && a.ready(d) && v.contains(
                report_label(d),
            )) by {
                if k < rest.len() {
                    assert(rest[k] == parts[k]);
                    let label = report_label(device_read(normalized(rest[k]))->Some_0);
                    let i = choose|i: int| 0 <= i < was.len() && was[i] == label;
                    assert(v[i] == label);
                } else {
                    let d = device_read(name)->Some_0;
                    if !was.contains(report_label(d)) {
                        assert(v[was.len() as int] == report_label(d));
                    }
                }
            }
        }
    }
}

/// The device that is picked is the processor only where no accelerator of the picked kinds is live,
/// and one that is live else.
pub proof fn live_accelerators_are_picked(a: Available)
    ensures
        auto_device(a) is Cpu <==> !a.cuda && !a.metal && !a.mlx && !a.rocm && !a.gpu && !a.vulkan,
        !(auto_device(a) is Cpu) ==> a.live(auto_device(a)),
        a.cuda ==> auto_device(a) is Cuda,
        a.metal && !a.cuda ==> auto_device(a) is Metal,
{
}

/// A sweep covers the processor first, and of the accelerators only those that are live.
pub proof fn swept_devices_are_ready(a: Available)
    ensures
        swept_devices(a).len() > 0,
        swept_devices(a)[0] is Cpu,
        forall|i: int| 0 <= i < swept_devices(a).len() ==> a.ready(#[trigger] swept_devices(a)[i]),
        a.metal ==> swept_devices(a).contains(Device::Metal),
        a.mlx ==> swept_devices(a).contains(Device::Mlx),
        a.ane ==> swept_devices(a).contains(Device::Ane),
        a.cuda ==> swept_devices(a).contains(Device::Cuda),
        a.rocm ==> swept_devices(a).contains(Device::Rocm),
        a.gpu ==> swept_devices(a).contains(Device::Gpu),
        a.vulkan ==> swept_devices(a).contains(Device::Vulkan),
{
    let all = seq![
        Device::Metal,
        Device::Mlx,
        Device::Ane,
        Device::Cuda,
        Device::Rocm,
        Device::Gpu,
        Device::Vulkan,
    ];
    let keep = |d: Device| a.live(d);
    let kept = all.filter(keep);
    let swept = swept_devices(a);
    assert(swept == kept.insert(0, Device::Cpu));
    assert forall|i: int| 0 <= i < swept.len() implies a.ready(#[trigger] swept[i]) by {
        if i > 0 {
            assert(swept[i] == kept[i - 1]);
            all.lemma_filter_pred(keep, i - 1);
        }
    }
    assert forall|k: int| 0 <= k < 7 && a.live(#[trigger] all[k]) implies swept.contains(
        all[k],
    ) by {
        assert(keep(all[k]));
        all.lemma_filter_contains(keep, k);
        let i = choose|i: int| 0 <= i < kept.len() && kept[i] == all[k];
        assert(swept[i + 1] == all[k]);
    }
    assert(all[0] is Metal && all[1] is Mlx && all[2] is Ane && all[3] is Cuda);
    assert(all[4] is Rocm && all[5] is Gpu && all[6] is Vulkan);
}

/// The device that is asked for decides, unless the request is blank; then the environment's choice
/// does, and without one a device is picked.
pub proof fn requests_come_before_the_environment(
    request: Seq<char>,
    environment: Option<Seq<char>>,
    other: Option<Seq<char>>,
)
    ensures
        trimmed(request).len() > 0 ==> wanted_device(Some(request), environment) == wanted_device(
            Some(request),
            other,
        ),
        trimmed(request).len() == 0 ==> wanted_device(Some(request), environment) == wanted_device(
            None,
            environment,
        ),
        environment matches Some(e) ==> wanted_device(None, environment) == normalized(e),
        wanted_device(None, None) == "auto"@,
{
}

/// A name that is resolved stands for a device that is ready, and a name that is read as a ready
/// device is never refused.
pub proof fn resolved_devices_are_ready(name: Seq<char>, a: Available)
    ensures
        resolved(name, a) matches Ok(d) ==> a.ready(d),
        device_read(name) matches Some(d) ==> (a.ready(d) ==> resolved(name, a) is Ok),
        lower_text(name) != "auto"@ ==> (resolved(name, a) matches Ok(d) ==> device_read(name)
            == Some(d)),
        lower_text(name) == "auto"@ ==> resolved(name, a) is Ok,
{
}

/// The memory budget of a machine is the one that was asked for, whatever the machine tells; else
/// what it tells, else a default.
pub proof fn budgets_follow_the_request(
    override_mb: Option<Seq<char>>,
    soft: Option<usize>,
    other: Option<usize>,
)
    ensures
        override_bytes(override_mb) is Some ==> budget_of(override_mb, soft) == budget_of(
            override_mb,
            other,
        ),
        override_bytes(override_mb) matches Some(b) ==> (b <= u64::MAX ==> budget_of(
            override_mb,
            soft,
        ) == b),
        override_bytes(override_mb) is None ==> (soft matches Some(b) ==> budget_of(
            override_mb,
            soft,
        ) == b),
        override_mb is None ==> override_bytes(override_mb) is None,
        budget_of(None, None) > 0,
{
}

/// Only the portable GPU backends limit how many rows are sent at once, all by the same number, and a
/// limit never lets more through than there is memory for.
pub proof fn dispatch_limits_only_lower(p: FftProblem, budget: u64, d: Device)
    ensures
        dispatch_limit(d) is Some <==> d is Gpu || d is Vulkan,
        dispatch_limit(d) matches Some(n) ==> n > 0,
        capacity(p, budget, dispatch_limit(d)).max_batch <= capacity(p, budget, None).max_batch,
        capacity(p, budget, None).limited_by is Memory,
{
}

// ---------------------------------------------------------------------------
// Timings
// ---------------------------------------------------------------------------

/// The best timing of a place is no worse than that of any name, and is that of one of them where one
/// has a timing below the highest.
pub proof fn no_timing_beats_the_best(
    cells: Seq<CellView>,
    dir: Seq<char>,
    device: Seq<char>,
    batch: usize,
    n: usize,
    names: Seq<Seq<char>>,
    k: int,
)
    ensures
        0 <= k < names.len() ==> (found(cells, dir, device, batch, n, names[k]) matches Some(i)
            ==> !less(cells[i].ms.bits, best_of(cells, dir, device, batch, n, names))),
        best_of(cells, dir, device, batch, n, names) == HIGHEST || exists|q: int|
            0 <= q < names.len() && (found(
                cells,
                dir,
                device,
                batch,
                n,
                #[trigger] names[q],
            ) matches Some(i) && cells[i].ms.bits == best_of(
                cells,
                dir,
                device,
                batch,
                n,
                names,
            )),
        !nan(best_of(cells, dir, device, batch, n, names)),
    decreases names.len(),
{
    if names.len() > 0 {
        let d = names.drop_last();
        no_timing_beats_the_best(cells, dir, device, batch, n, d, k);
        let was = best_of(cells, dir, device, batch, n, d);
        let now = best_of(cells, dir, device, batch, n, names);
        if 0 <= k < d.len() {
            assert(d[k] == names[k]);
        }
        if now != HIGHEST {
            if now == was {
                let q = choose|q: int|
                    0 <= q < d.len() && (found(
                        cells,
                        dir,
                        device,
                        batch,
                        n,
                        #[trigger] d[q],
                    ) matches Some(i) && cells[i].ms.bits == was);
                assert(names[q] == d[q]);
            } else {
                assert(names[names.len() - 1] == names.last());
            }
        }
    }
}

/// The timings of a name over some sizes are within their range.
pub proof fn timings_are_within_their_range(
    cells: Seq<CellView>,
    dir: Seq<char>,
    device: Seq<char>,
    batch: usize,
    ns: Seq<usize>,
    name: Seq<char>,
    k: int,
)
    requires
        0 <= k < ns.len(),
    ensures
        found(cells, dir, device, batch, ns[k], name) matches Some(i) ==> {
            let range = row_range(cells, dir, device, batch, ns, name);
            &&& !less(cells[i].ms.bits, range.0)
            &&& !less(range.1, cells[i].ms.bits)
        },
    decreases ns.len(),
{
    lemma_range_is_numbers(cells, dir, device, batch, ns.drop_last(), name);
    if k < ns.len() - 1 {
        let d = ns.drop_last();
        assert(d[k] == ns[k]);
        timings_are_within_their_range(cells, dir, device, batch, d, name, k);
    }
}

proof fn lemma_range_is_numbers(
    cells: Seq<CellView>,
    dir: Seq<char>,
    device: Seq<char>,
    batch: usize,
    ns: Seq<usize>,
    name: Seq<char>,
)
    ensures
        !nan(row_range(cells, dir, device, batch, ns, name).0),
        !nan(row_range(cells, dir, device, batch, ns, name).1),
    decreases ns.len(),
{
    if ns.len() > 0 {
        lemma_range_is_numbers(cells, dir, device, batch, ns.drop_last(), name);
    }
}

} // verus!

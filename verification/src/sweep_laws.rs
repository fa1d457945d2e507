//! What sweeps keep: which runs they plan, what their rows tell, which rows their tables name, and
//! how limits follow sizes.

use crate::ablation_csv::starts_with;
use crate::bench_sweep::{
    action_on, places_in_batch, places_of_dir, places_of_size, places_of_sweep, rows_at,
    BenchReport, SweepAction, SweepPlace,
};
use crate::config::{adapted_batches, supported, welch_fits, TransformDir};
use crate::device::Device;
use crate::figure::equal;
use crate::fusion_phases::{phase_place, sweep_iters, FusionPhaseRow};
use crate::training::{curve_points, logged};
use crate::welch_peaks::{
    compared, first_wanted, gain_lines, k_line, model_steps, path_left, paths_of, swept_run,
    wanted, FastPeaks, PathOutcome, PeaksLine, PeaksPath, PeaksRowView, PeaksSettings, Wanted,
};
use vstd::prelude::*;

verus! {

// ---------------------------------------------------------------------------
// Peaks
// ---------------------------------------------------------------------------

/// A run of the peaks takes the plain paths always, and each other path exactly where it was asked
/// for: the ultra-fast one by its switch, the compiled ones by theirs, and the learned ones where a
/// model is trained.
pub proof fn peaks_paths_are_asked_for(s: PeaksSettings)
    ensures
        paths_of(s).contains(PeaksPath::FullPsd),
        paths_of(s).contains(PeaksPath::FastReference),
        paths_of(s).contains(PeaksPath::Streaming),
        paths_of(s).contains(PeaksPath::Picker),
        paths_of(s).contains(PeaksPath::Ultra) <==> s.with_ultra_fast,
        paths_of(s).contains(PeaksPath::NativeFused) <==> s.with_compiled,
        paths_of(s).contains(PeaksPath::Learned) <==> s.train_steps > 0 || s.force_learned,
        paths_of(s).contains(PeaksPath::LearnedHard) <==> s.train_steps > 0 || s.force_learned,
        paths_of(s).contains(PeaksPath::LearnedCompiled) <==> s.with_compiled && (s.train_steps > 0
            || s.force_learned),
        forall|i: int, j: int|
            0 <= i < j < paths_of(s).len() ==> paths_of(s)[i] != paths_of(s)[j],
{
    let p = paths_of(s);
    assert(p[0] is FullPsd && p[1] is FastReference && p[2] is Streaming);
    let u: int = if s.with_ultra_fast {
        1
    } else {
        0
    };
    if s.with_ultra_fast {
        assert(p[3] is Ultra);
    }
    assert(p[3 + u] is Picker);
    let c: int = if s.with_compiled {
        1
    } else {
        0
    };
    if s.with_compiled {
        assert(p[4 + u] is NativeFused);
    }
    if model_steps(s) is Some {
        assert(p[4 + u + c] is Learned);
        assert(p[5 + u + c] is LearnedHard);
        if s.with_compiled {
            assert(p[6 + u + c] is LearnedCompiled);
        }
    }
}

/// The fast peaks are measured before the path with reused buffers, which is held against them.
pub proof fn fast_peaks_come_first(s: PeaksSettings, i: int, j: int)
    requires
        0 <= i < paths_of(s).len(),
        0 <= j < paths_of(s).len(),
        paths_of(s)[i] is FastReference,
        paths_of(s)[j] is Streaming,
    ensures
        i < j,
{
    peaks_paths_are_asked_for(s);
    let p = paths_of(s);
    assert(p[1] is FastReference && p[2] is Streaming);
    if i < 1 {
        assert(p[i] != p[1]);
    } else if i > 1 {
        assert(p[1] != p[i]);
    }
    if j < 2 {
        assert(p[j] != p[2]);
    } else if j > 2 {
        assert(p[2] != p[j]);
    }
}

/// A model is trained for the steps that were asked for, and for some where it is forced.
pub proof fn models_are_trained_where_needed(s: PeaksSettings)
    ensures
        s.train_steps > 0 ==> model_steps(s) == Some(s.train_steps),
        model_steps(s) is None <==> s.train_steps == 0 && !s.force_learned,
        model_steps(s) matches Some(n) ==> n > 0,
{
}

/// A run of a sweep has its own batch and peak count, never more steps or iterations than were asked
/// for, and no training for large batches; all else is as it was.
pub proof fn swept_runs_are_no_larger(base: PeaksSettings, batch: usize, k: usize)
    ensures
        ({
            let s = swept_run(base, batch, k);
            &&& s.batch == batch && s.k == k
            &&& s.iters <= base.iters
            &&& base.iters > 0 ==> s.iters > 0
            &&& s.train_steps <= base.train_steps
            &&& batch < 4096 ==> s.iters == base.iters && s.train_steps == base.train_steps
            &&& batch >= 4096 ==> s.iters <= 10 && s.train_steps == 0
            &&& batch >= 4096 && base.iters <= 10 ==> s.iters == base.iters
            &&& s.n_fft == base.n_fft && s.seed == base.seed
            &&& s.with_compiled == base.with_compiled && s.with_ultra_fast == base.with_ultra_fast
            &&& s.force_learned == base.force_learned
        }),
{
}

/// A path leaves a row only where it ran, and ends the run only where it failed, did not compile and
/// was bound to, or was to give the fast peaks and did not. The row shows what was measured, but the
/// error of the path with reused buffers is that of the fast peaks.
pub proof fn paths_leave_what_they_measured(
    s: PeaksSettings,
    device: Seq<char>,
    path: PeaksPath,
    outcome: PathOutcome,
    fast: Option<FastPeaks>,
)
    ensures
        ({
            let left = path_left(s, device, path, outcome, fast);
            &&& left matches Ok(Some(row)) ==> {
                &&& outcome is Ran
                &&& row.ms == outcome->Ran_measured.ms@
                &&& row.output_len == outcome->Ran_measured.output_len
                &&& row.n_fft == s.n_fft && row.batch == s.batch && row.k == s.k && row.iters
                    == s.iters && row.device == device
                &&& path is FullPsd ==> row.peak_err is None && row.algo_bw_gbps is None
                &&& !(path is FullPsd) ==> row.algo_bw_gbps == Some(
                    outcome->Ran_measured.algo_bw_gbps@,
                )
                &&& !(path is FullPsd) && !(path is Streaming) ==> row.peak_err == Some(
                    outcome->Ran_measured.peak_err@,
                )
                &&& path is Streaming ==> fast is Some && row.peak_err == Some(
                    fast->Some_0.peak_err@,
                ) && fast->Some_0.peaks@.len() == outcome->Ran_peaks@.len() && forall|i: int|
                    0 <= i < fast->Some_0.peaks@.len() ==> equal(
                        #[trigger] fast->Some_0.peaks@[i],
                        outcome->Ran_peaks@[i],
                    )
            }
            &&& outcome is Failed ==> left is Err
            &&& outcome is NotCompiled ==> (left is Ok <==> path is NativeFused
                || path is LearnedCompiled)
            &&& outcome is NotCompiled ==> !(left matches Ok(Some(row)))
            &&& outcome is Ran && !(path is Streaming) ==> (left matches Ok(Some(row)))
        }),
{
}

/// The row that a lookup finds is the first that is wanted.
pub proof fn wanted_rows_are_the_first(rows: Seq<PeaksRowView>, w: Wanted)
    requires
        rows.len() <= usize::MAX,
    ensures
        match first_wanted(rows, w) {
            Some(i) => {
                &&& i < rows.len()
                &&& wanted(w, rows[i as int])
                &&& w.batch matches Some(b) ==> rows[i as int].batch == b
                &&& w.k matches Some(k) ==> rows[i as int].k == k
                &&& !w.prefix ==> rows[i as int].path == w.path
                &&& forall|j: int| 0 <= j < i ==> !wanted(w, #[trigger] rows[j])
            },
            None => forall|j: int| 0 <= j < rows.len() ==> !wanted(w, #[trigger] rows[j]),
        },
    decreases rows.len(),
{
    if rows.len() > 0 {
        let d = rows.drop_last();
        wanted_rows_are_the_first(d, w);
        assert forall|j: int| 0 <= j < d.len() implies (#[trigger] rows[j]) == d[j] by {}
    }
}

/// The line of a batch and a peak count names rows of that batch and that peak count, each of its own
/// path.
pub proof fn lines_name_their_own_rows(rows: Seq<PeaksRowView>, batch: usize, k: usize)
    requires
        rows.len() <= usize::MAX,
    ensures
        k_line(rows, batch, k) matches PeaksLine::KAt {
            k: shown,
            fast_row,
            streaming_row,
            native_row,
            picker_row,
        } && {
            &&& shown == k
            &&& fast_row matches Some(i) ==> rows[i as int].batch == batch && rows[i as int].k == k
                && rows[i as int].path == "welch_fast_peaks_rustfft"@
            &&& streaming_row matches Some(i) ==> rows[i as int].batch == batch && rows[i as int].k
                == k && rows[i as int].path == "welch_fast_peaks_streaming"@
            &&& native_row matches Some(i) ==> rows[i as int].batch == batch && rows[i as int].k
                == k && starts_with(rows[i as int].path, "welch_fast_peaks_rlx_"@)
            &&& picker_row matches Some(i) ==> rows[i as int].batch == batch && rows[i as int].k
                == k && starts_with(rows[i as int].path, "welch_peaks_picker_"@)
        },
{
    let b = Some(batch);
    let c = Some(k);
    wanted_rows_are_the_first(
        rows,
        crate::welch_peaks::named(b, c, "welch_fast_peaks_rustfft"@),
    );
    wanted_rows_are_the_first(
        rows,
        crate::welch_peaks::named(b, c, "welch_fast_peaks_streaming"@),
    );
    wanted_rows_are_the_first(
        rows,
        crate::welch_peaks::starting(b, c, "welch_fast_peaks_rlx_"@),
    );
    wanted_rows_are_the_first(
        rows,
        crate::welch_peaks::starting(b, c, "welch_peaks_picker_"@),
    );
}

/// The table compares exactly the rows of the paths that are compared with the fast peaks.
pub proof fn compared_rows_are_shown(rows: Seq<PeaksRowView>, n: nat, fast: usize, i: usize)
    requires
        n <= rows.len(),
        n <= usize::MAX,
    ensures
        gain_lines(rows, n, fast).contains(PeaksLine::PathGain { row: i, fast }) <==> i < n
            && compared(rows[i as int].path),
    decreases n,
{
    if n > 0 {
        let m = (n - 1) as nat;
        compared_rows_are_shown(rows, m, fast, i);
        let before = gain_lines(rows, m, fast);
        let now = gain_lines(rows, n, fast);
        let line = PeaksLine::PathGain { row: i, fast };
        if before.contains(line) {
            let k = choose|k: int| 0 <= k < before.len() && before[k] == line;
            assert(now[k] == line);
        }
        if compared(rows[n - 1].path) {
            assert(now[before.len() as int] == (PeaksLine::PathGain { row: m as usize, fast }));
            if now.contains(line) {
                let k = choose|k: int| 0 <= k < now.len() && now[k] == line;
                if k < before.len() {
                    assert(before[k] == line);
                }
            }
        }
    }
}

// ---------------------------------------------------------------------------
// Transforms
// ---------------------------------------------------------------------------

proof fn lemma_size_is_covered(
    dir: TransformDir,
    n: usize,
    batches: Seq<usize>,
    devices: Seq<Seq<char>>,
    p: SweepPlace,
)
    requires
        p.dir == dir,
        p.n_fft == n,
        batches.contains(p.batch),
        devices.contains(p.device),
    ensures
        places_of_size(dir, n, batches, devices).contains(p),
    decreases batches.len(),
{
    let d = batches.drop_last();
    let before = places_of_size(dir, n, d, devices);
    let more = places_in_batch(dir, n, batches.last(), devices);
    let now = places_of_size(dir, n, batches, devices);
    if batches.last() == p.batch {
        let k = choose|k: int| 0 <= k < devices.len() && devices[k] == p.device;
        assert(more[k] == p);
        assert(now[before.len() + k] == p);
    } else {
        let k = choose|k: int| 0 <= k < batches.len() && batches[k] == p.batch;
        assert(d[k] == p.batch);
        lemma_size_is_covered(dir, n, d, devices, p);
        let i = choose|i: int| 0 <= i < before.len() && before[i] == p;
        assert(now[i] == p);
    }
}

proof fn lemma_dir_is_covered(
    dir: TransformDir,
    ns: Seq<usize>,
    batches: Seq<usize>,
    devices: Seq<Seq<char>>,
    p: SweepPlace,
)
    requires
        forall|i: int| 0 <= i < ns.len() ==> supported(#[trigger] ns[i]),
    ensures
        places_of_dir(dir, ns, batches, devices).1 is None,
        p.dir == dir && ns.contains(p.n_fft) && batches.contains(p.batch) && devices.contains(
            p.device,
        ) ==> places_of_dir(dir, ns, batches, devices).0.contains(p),
    decreases ns.len(),
{
    if ns.len() > 0 {
        let d = ns.drop_last();
        assert forall|i: int| 0 <= i < d.len() implies supported(#[trigger] d[i]) by {
            assert(d[i] == ns[i]);
        }
        lemma_dir_is_covered(dir, d, batches, devices, p);
        assert(supported(ns[ns.len() - 1]));
        let before = places_of_dir(dir, d, batches, devices).0;
        let more = places_of_size(dir, ns.last(), batches, devices);
        let now = places_of_dir(dir, ns, batches, devices).0;
        if p.dir == dir && ns.contains(p.n_fft) && batches.contains(p.batch) && devices.contains(
            p.device,
        ) {
            if ns.last() == p.n_fft {
                lemma_size_is_covered(dir, p.n_fft, batches, devices, p);
                let i = choose|i: int| 0 <= i < more.len() && more[i] == p;
                assert(now[before.len() + i] == p);
            } else {
                let k = choose|k: int| 0 <= k < ns.len() && ns[k] == p.n_fft;
                assert(d[k] == p.n_fft);
                let i = choose|i: int| 0 <= i < before.len() && before[i] == p;
                assert(now[i] == p);
            }
        }
    }
}

/// A sweep of supported sizes visits every direction, size, batch and device with every other.
pub proof fn sweeps_cover_the_product(
    dirs: Seq<TransformDir>,
    ns: Seq<usize>,
    batches: Seq<usize>,
    devices: Seq<Seq<char>>,
    p: SweepPlace,
)
    requires
        forall|i: int| 0 <= i < ns.len() ==> supported(#[trigger] ns[i]),
    ensures
        places_of_sweep(dirs, ns, batches, devices).1 is None,
        dirs.contains(p.dir) && ns.contains(p.n_fft) && batches.contains(p.batch)
            && devices.contains(p.device) ==> places_of_sweep(dirs, ns, batches, devices).0.contains(
            p,
        ),
    decreases dirs.len(),
{
    if dirs.len() > 0 {
        let d = dirs.drop_last();
        sweeps_cover_the_product(d, ns, batches, devices, p);
        lemma_dir_is_covered(dirs.last(), ns, batches, devices, p);
        let before = places_of_sweep(d, ns, batches, devices).0;
        let more = places_of_dir(dirs.last(), ns, batches, devices).0;
        let now = places_of_sweep(dirs, ns, batches, devices).0;
        if dirs.contains(p.dir) && ns.contains(p.n_fft) && batches.contains(p.batch)
            && devices.contains(p.device) {
            if dirs.last() == p.dir {
                let i = choose|i: int| 0 <= i < more.len() && more[i] == p;
                assert(now[before.len() + i] == p);
            } else {
                let k = choose|k: int| 0 <= k < dirs.len() && dirs[k] == p.dir;
                assert(d[k] == p.dir);
                let i = choose|i: int| 0 <= i < before.len() && before[i] == p;
                assert(now[i] == p);
            }
        }
    }
}

/// A sweep stops at a size only where that size is asked for and not supported.
pub proof fn sweeps_stop_at_unsupported_sizes(
    dirs: Seq<TransformDir>,
    ns: Seq<usize>,
    batches: Seq<usize>,
    devices: Seq<Seq<char>>,
)
    ensures
        places_of_sweep(dirs, ns, batches, devices).1 matches Some(n) ==> !supported(n)
            && ns.contains(n),
        dirs.len() > 0 && places_of_sweep(dirs, ns, batches, devices).1 is None ==> forall|i: int|
            0 <= i < ns.len() ==> supported(#[trigger] ns[i]),
    decreases dirs.len(),
{
    if dirs.len() > 0 {
        sweeps_stop_at_unsupported_sizes(dirs.drop_last(), ns, batches, devices);
        lemma_dir_stops(dirs.last(), ns, batches, devices);
    }
}

proof fn lemma_dir_stops(
    dir: TransformDir,
    ns: Seq<usize>,
    batches: Seq<usize>,
    devices: Seq<Seq<char>>,
)
    ensures
        places_of_dir(dir, ns, batches, devices).1 matches Some(n) ==> !supported(n) && ns.contains(
            n,
        ),
        places_of_dir(dir, ns, batches, devices).1 is None ==> forall|i: int|
            0 <= i < ns.len() ==> supported(#[trigger] ns[i]),
    decreases ns.len(),
{
    if ns.len() > 0 {
        let d = ns.drop_last();
        lemma_dir_stops(dir, d, batches, devices);
        assert(ns[ns.len() - 1] == ns.last());
        match places_of_dir(dir, d, batches, devices).1 {
            Some(n) => {
                let k = choose|k: int| 0 <= k < d.len() && d[k] == n;
                assert(ns[k] == n);
            },
            None => {
                if supported(ns.last()) {
                    assert forall|i: int| 0 <= i < ns.len() implies supported(#[trigger] ns[i]) by {
                        if i < d.len() {
                            assert(d[i] == ns[i]);
                        }
                    }
                }
            },
        }
    }
}

/// A place that is passed over is one whose batch is above the largest that it names; one with a
/// smaller batch than a place that is measured is measured too, on the same device.
pub proof fn smaller_batches_are_measured(
    p: SweepPlace,
    smaller: SweepPlace,
    device: Device,
    budget: u64,
)
    requires
        smaller.n_fft == p.n_fft,
        smaller.batch <= p.batch,
    ensures
        action_on(p, device, budget) matches SweepAction::Skip { max_batch, limited_by } ==> p.batch
            > max_batch,
        action_on(p, device, budget) matches SweepAction::Bench { device: d } ==> d == device,
        action_on(p, device, budget) is Bench ==> action_on(smaller, device, budget) is Bench,
        action_on(smaller, device, budget) matches SweepAction::Skip { max_batch: a, limited_by } ==> (
        action_on(p, device, budget) matches SweepAction::Skip { max_batch: b, limited_by: l } && a
            == b),
{
}

/// The rows of a place tell each implementation's own time and error: the reference has no error, the
/// graph operator is named for the direction, and the compiled butterfly has a row where it was asked
/// for.
pub proof fn rows_tell_their_own_times(
    p: SweepPlace,
    iters: usize,
    compiled: bool,
    b: BenchReport,
)
    ensures
        ({
            let r = rows_at(p, iters, compiled, b);
            &&& r.len() == if compiled {
                4int
            } else {
                3
            }
            &&& r[0].implementation == "rustfft"@ && r[0].ms == b.rustfft_ms@ && r[0].max_err
                is None
            &&& r[1].implementation == (if p.dir is Forward {
                "rlx_op_fft"@
            } else {
                "rlx_op_ifft"@
            }) && r[1].ms == b.rlx_fft_ms@ && r[1].max_err == Some(b.rlx_fft_err@)
            &&& r[2].implementation == "butterfly_eager"@ && r[2].ms == b.butterfly_eager_ms@
                && r[2].max_err == Some(b.butterfly_eager_err@)
            &&& compiled ==> r[3].implementation == "butterfly_compiled"@ && r[3].ms
                == b.butterfly_compiled_ms@ && r[3].max_err == Some(b.butterfly_compiled_err@)
            &&& forall|i: int|
                0 <= i < r.len() ==> (#[trigger] r[i]).n_fft == p.n_fft && r[i].batch == p.batch
                    && r[i].device == p.device && r[i].iters == iters && r[i].direction
                    == p.dir.name_text() && r[i].butterfly_weights == b.butterfly_weights@
        }),
{
}

// ---------------------------------------------------------------------------
// Fusion
// ---------------------------------------------------------------------------

/// A sweep of the phases never runs a batch more often than was asked for, and a small one just as
/// often.
pub proof fn swept_phases_run_no_more(batch: usize, iters: usize)
    ensures
        sweep_iters(batch, iters) <= iters,
        batch < 4096 ==> sweep_iters(batch, iters) == iters,
        batch >= 4096 ==> sweep_iters(batch, iters) <= 15,
        iters <= 15 ==> sweep_iters(batch, iters) == iters,
        iters > 0 ==> sweep_iters(batch, iters) > 0,
{
}

/// The phase that is found is the first of its name.
pub proof fn found_phases_are_the_first(rows: Seq<FusionPhaseRow>, phase: Seq<char>)
    ensures
        match phase_place(rows, phase) {
            Some(i) => 0 <= i < rows.len() && rows[i].phase@ == phase && forall|j: int|
                0 <= j < i ==> (#[trigger] rows[j]).phase@ != phase,
            None => forall|j: int| 0 <= j < rows.len() ==> (#[trigger] rows[j]).phase@ != phase,
        },
    decreases rows.len(),
{
    if rows.len() > 0 && rows[0].phase@ != phase {
        let rest = rows.drop_first();
        found_phases_are_the_first(rest, phase);
        let upto = match phase_place(rest, phase) {
            Some(i) => i + 1,
            None => rows.len() as int,
        };
        assert forall|j: int| 0 <= j < upto implies (#[trigger] rows[j]).phase@ != phase by {
            if j > 0 {
                assert(rest[j - 1] == rows[j]);
            }
        }
    }
}

// ---------------------------------------------------------------------------
// Limits
// ---------------------------------------------------------------------------

/// Where a batch fits the density of a size, every smaller batch does, and every smaller size with
/// it.
pub proof fn smaller_work_fits(n_fft: nat, batch: nat, smaller_n_fft: nat, smaller_batch: nat)
    requires
        welch_fits(n_fft, batch),
        smaller_n_fft <= n_fft,
        smaller_batch <= batch,
    ensures
        welch_fits(smaller_n_fft, smaller_batch),
        batch > 0 ==> n_fft * batch * 4 <= 512 * 1024 * 1024,
{
    let a = crate::config::welch_frame(smaller_n_fft);
    let b = crate::config::welch_frame(n_fft);
    vstd::arithmetic::div_mod::lemma_div_is_ordered(smaller_n_fft as int, n_fft as int, 2);
    assert(a <= b);
    assert(smaller_batch * a <= batch * b) by (nonlinear_arith)
        requires
            smaller_batch <= batch,
            a <= b,
            0 <= a,
            0 <= smaller_batch,
    ;
    assert(n_fft * batch <= batch * b) by (nonlinear_arith)
        requires
            n_fft <= b,
            batch >= 0,
    ;
}

/// The batches that a size is adapted to are those asked for that its cap allows; the cap alone where
/// it allows none of them.
pub proof fn adapted_batches_were_asked_for(
    requested: Seq<usize>,
    cap: usize,
    r: Seq<usize>,
    b: usize,
)
    requires
        adapted_batches(requested, cap, r),
    ensures
        1 <= b <= cap && requested.contains(b) ==> r.contains(b),
        r.contains(b) && b != cap && b != 1 ==> requested.contains(b) && 1 <= b <= cap,
        r.contains(b) && cap >= 1 ==> 1 <= b <= cap,
{
    let all = requested.to_set();
    let keep = |x: usize| 1 <= x <= cap;
    let fits = all.filter(keep);
    vstd::seq_lib::seq_to_set_is_finite(requested);
    all.lemma_len_filter(keep);
    assert(r.to_set().contains(b) == r.contains(b));
    assert(all.contains(b) == requested.contains(b));
    if 1 <= b <= cap && requested.contains(b) {
        assert(fits.contains(b));
        assert(fits.len() != 0);
    }
}

/// The points of a curve are at its first step, at every so many steps and at the last, each with the
/// rows seen by then, in order.
pub proof fn curves_hold_the_logged_steps(k: nat, steps: nat, every: nat, batch: nat, s: nat)
    ensures
        curve_points(k, steps, every, batch).contains((s, s * batch)) <== s <= k && logged(
            s,
            steps,
            every,
        ),
        forall|i: int|
            0 <= i < curve_points(k, steps, every, batch).len() ==> {
                let p = #[trigger] curve_points(k, steps, every, batch)[i];
                &&& p.0 <= k
                &&& p.1 == p.0 * batch
                &&& p.0 == 0 || p.0 == steps || p.0 % every == 0
            },
        forall|i: int, j: int|
            0 <= i < j < curve_points(k, steps, every, batch).len() ==> (#[trigger] curve_points(
                k,
                steps,
                every,
                batch,
            )[i]).0 < (#[trigger] curve_points(k, steps, every, batch)[j]).0,
    decreases k,
{
    let now = curve_points(k, steps, every, batch);
    if k > 0 {
        let q = (k - 1) as nat;
        curves_hold_the_logged_steps(q, steps, every, batch, s);
        let before = curve_points(q, steps, every, batch);
        if logged(k, steps, every) {
            assert(now == before.push((k, k * batch)));
            assert(now[before.len() as int] == (k, k * batch));
        }
        assert forall|i: int| 0 <= i < before.len() implies (#[trigger] now[i]) == before[i] by {}
        if s <= q && logged(s, steps, every) {
            let i = choose|i: int| 0 <= i < before.len() && before[i] == (s, s * batch);
            assert(now[i] == before[i]);
        }
    } else {
        assert(now =~= seq![(0nat, 0 * batch)]);
        assert(now[0] == (0nat, 0 * batch));
    }
}

} // verus!

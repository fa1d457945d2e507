//! What the decisions of an end-to-end bench have in common: routes, devices, inputs, the models that
//! are trained first, and what merging and looking up keep.

use crate::compile::{fallback_of, fused_device};
use crate::device::Device;
use crate::e2e_bench::{
    batch_plan, distill_view, error_found, first_distill, first_teacher, gates_shown, has_batch,
    input_of, joined_meta, merged_batches, merged_devices, merged_meta, merged_rows, pairs_of,
    peaks_step, preset_of, route, row_for, row_is, run_device, runs, steps_named, teacher_view,
    BatchMetaView, E2eBackend, E2eBenchInputs, E2eBenchReport, E2ePipeline, E2eRowView, GateStatus,
    PeakCaches, PeakShapes, Source, StudentPlan, TernaryPlan, TrainFlags,
};
use vstd::prelude::*;

verus! {

// ---------------------------------------------------------------------------
// Routes
// ---------------------------------------------------------------------------

/// A route gives what its pipeline is compared by: mel energies for mel, a density for Welch, peaks
/// for either peaks pipeline and spectra for the rest. Only the automatic picker lacks routes: all
/// but those of the peaks.
pub proof fn routes_give_what_is_compared(p: E2ePipeline, b: E2eBackend)
    ensures
        route(p, b) is None <==> b is WelchPeaksAuto && !(p is WelchPeaks) && !(
        p is WelchPeaksUltra),
        route(p, b) matches Some(r) ==> {
            &&& r.output is LogMel <==> p is Mel
            &&& r.output is WelchPsd <==> p is Welch
            &&& r.output is WelchPeaks <==> p is WelchPeaks || p is WelchPeaksUltra
            &&& r.output is CorrectedSpectrum <==> p is Denoise && (b is LearnedModel
                || b is LearnedQ8 || b is LearnedHard)
            &&& p is Q8Spectrum ==> r.output is RawSpectrum
        },
{
}

/// A route goes by the model of its backend: the two plain transforms by themselves, each learned
/// backend by the learned model, with hard gates where it is the hard one, and each distilled backend
/// by its own distilled model.
pub proof fn routes_use_their_own_model(p: E2ePipeline, b: E2eBackend)
    requires
        route(p, b) is Some,
    ensures
        ({
            let s = route(p, b)->Some_0.source;
            &&& s is Reference <==> b is RustfftRef
            &&& s is NativeOp <==> b is RlxOpFft
            &&& s is Butterfly <==> b is ButterflyEager
            &&& s is HardModel <==> b is LearnedHard
            &&& s is AutoPeaks <==> b is WelchPeaksAuto
            &&& (s is Distilled || s is CompiledDistilled) <==> b is LearnedDistilled
            &&& (s is Ternary || s is CompiledTernary) <==> b is LearnedDistilledTernary
            &&& (s is CompiledModel || s is CompiledHardModel) <==> b is LearnedCompiled && !(
            p is Welch)
            &&& s is Model <==> b is LearnedModel || b is LearnedQ8 || (b is LearnedCompiled
                && p is Welch)
            &&& s is CompiledHardModel ==> p is WelchPeaks || p is WelchPeaksUltra
            &&& s is CompiledModel ==> !(p is WelchPeaks) && !(p is WelchPeaksUltra)
            &&& s is CompiledDistilled || s is CompiledTernary ==> p is Mel
            &&& s is Distilled || s is Ternary ==> !(p is Mel)
        }),
{
}

/// What is not compiled runs on the processor whatever device is asked for, and what is compiled runs
/// on that device, but for fused graphs of little work, which stay on the processor.
pub proof fn only_compiled_work_leaves_the_processor(i: E2eBenchInputs, s: Source)
    ensures
        s is Reference || s is Butterfly || s is Model || s is HardModel || s is Distilled
            || s is Ternary ==> run_device(i, s) is Cpu,
        s is NativeOp || s is CompiledModel || s is CompiledHardModel || s is AutoPeaks
            ==> run_device(i, s) == i.device,
        s is CompiledDistilled || s is CompiledTernary ==> run_device(i, s) == i.device
            || run_device(i, s) is Cpu,
        s is CompiledDistilled || s is CompiledTernary ==> (i.batch > 64 || i.n_fft > 512
            ==> run_device(i, s) == i.device),
{
}

/// A fused model is moved to the processor exactly where the work is little and an accelerator was
/// asked for; more work never moves it there.
pub proof fn fused_models_move_for_little_work(
    batch: usize,
    n_fft: usize,
    more_batch: usize,
    more_n_fft: usize,
    requested: Device,
)
    requires
        batch <= more_batch,
        n_fft <= more_n_fft,
    ensures
        fused_device(batch, n_fft, requested) == requested || fused_device(
            batch,
            n_fft,
            requested,
        ) is Cpu,
        fused_device(batch, n_fft, requested) == requested ==> fused_device(
            more_batch,
            more_n_fft,
            requested,
        ) == requested,
        batch > 64 || n_fft > 512 ==> fused_device(batch, n_fft, requested) == requested,
        batch <= 64 && n_fft <= 512 && (requested is Metal || requested is Cuda || requested is Mlx
            || requested is Gpu || requested is Rocm || requested is Vulkan) ==> fused_device(
            batch,
            n_fft,
            requested,
        ) is Cpu,
        !(requested is Metal) && !(requested is Cuda) && !(requested is Mlx) && !(
        requested is Gpu) && !(requested is Rocm) && !(requested is Vulkan) ==> fused_device(
            batch,
            n_fft,
            requested,
        ) == requested,
{
}

/// The Welch pipelines are given the longer signal, and a windowed signal goes only to what does not
/// window it: for mel energies, the plain transforms and the compiled model.
pub proof fn signals_are_windowed_once(p: E2ePipeline, b: E2eBackend)
    ensures
        input_of(p, b) is WelchSignal <==> p is Welch || p is WelchPeaks || p is WelchPeaksUltra,
        input_of(p, b) is Windowed ==> p is Mel,
        p is Mel ==> (route(p, b) matches Some(r) ==> (input_of(p, b) is Windowed <==> r.source
            is Reference || r.source is NativeOp || r.source is Butterfly || r.source
            is CompiledModel)),
{
}

/// The settings of a peaks run: the reference's are its own, and all others share those of the
/// pipeline.
pub proof fn peaks_settings_follow_the_pipeline(p: E2ePipeline, b: E2eBackend, other: E2eBackend)
    ensures
        preset_of(p, b) is Reference <==> b is RustfftRef,
        !(b is RustfftRef) && !(other is RustfftRef) ==> preset_of(p, b) == preset_of(p, other),
        !(b is RustfftRef) ==> (preset_of(p, b) is UltraFast <==> p is WelchPeaksUltra),
{
}

/// Preparing a peaks run for one backend takes nothing from another that fits the pipeline, and only
/// what is held compiled is ever built.
pub proof fn peaks_runs_leave_each_other(
    c: PeakCaches,
    p: E2ePipeline,
    b: E2eBackend,
    shapes: PeakShapes,
)
    ensures
        ({
            let here = shapes.of_pipeline(p);
            let (after, work) = peaks_step(c, p, b, shapes);
            &&& c.native == Some(here) ==> after.native == c.native
            &&& c.learned == Some(here) ==> after.learned == c.learned
            &&& !(b is WelchPeaksAuto) ==> after.auto_picker == c.auto_picker
            &&& b is RlxOpFft ==> work.build == (c.native != Some(here)) && after.native == Some(
                here,
            )
            &&& b is LearnedCompiled ==> work.build == (c.learned != Some(here)) && after.learned
                == Some(here)
            &&& b is WelchPeaksAuto ==> work.build == (c.auto_picker != Some(here))
            &&& !(b is RlxOpFft) && !(b is LearnedCompiled) && !(b is WelchPeaksAuto)
                ==> !work.build
            &&& !(b is RlxOpFft) && c.native != Some(here) ==> after.native is None
            &&& !(b is LearnedCompiled) && c.learned != Some(here) ==> after.learned is None
        }),
{
}

/// A row is compared with what its route gives: the reference alone has no error, and only mel
/// energies that the fused ternary student gives are held against the reference under the model's own
/// filters.
pub proof fn errors_follow_the_routes(p: E2ePipeline, b: E2eBackend)
    requires
        route(p, b) is Some,
    ensures
        ({
            let r = route(p, b)->Some_0;
            &&& error_found(p, b) is Zero <==> r.source is Reference
            &&& error_found(p, b) is AgainstModelFilters <==> r.source is CompiledTernary
                && r.output is LogMel
            &&& error_found(p, b) is AgainstReference <==> !(r.source is Reference) && !(
            r.source is CompiledTernary)
        }),
{
}

/// A row shows gates exactly where its backend has a model with gates: the mean one where it runs
/// only with a learned model, and the share that is computed where it runs the ternary student.
pub proof fn rows_show_the_gates_of_their_model(i: E2eBenchInputs, p: E2ePipeline, b: E2eBackend)
    requires
        runs(i, p, b),
    ensures
        gates_shown(b) is MeanGate ==> i.has_model,
        gates_shown(b) is ComputeFraction ==> i.has_distilled_ternary,
        gates_shown(b) is MeanGate <==> b is LearnedModel || b is LearnedQ8 || b is LearnedHard
            || b is LearnedCompiled,
        route(p, b) matches Some(r) ==> (gates_shown(b) is ComputeFraction <==> r.source is Ternary
            || r.source is CompiledTernary),
        b is RustfftRef || b is RlxOpFft || b is LearnedDistilled ==> gates_shown(b) is Nothing,
{
}

/// A candidate passes exactly where both its speed and its accuracy are within their limits, and
/// fails where neither is; a better candidate never has a worse status.
pub proof fn statuses_need_both(speed_ok: bool, acc_ok: bool)
    ensures
        GateStatus::judged(speed_ok, acc_ok) is Pass <==> speed_ok && acc_ok,
        GateStatus::judged(speed_ok, acc_ok) is Fail <==> !speed_ok && !acc_ok,
        GateStatus::judged(speed_ok, acc_ok) is PassSpeed ==> speed_ok,
        GateStatus::judged(speed_ok, acc_ok) is PassAcc ==> acc_ok,
{
}

/// What fails to compile is tried once more, on the processor, and never on the device that failed.
pub proof fn failures_fall_back_once(failed: Device)
    ensures
        fallback_of(failed) matches Some(d) ==> d is Cpu && d != failed && fallback_of(d) is None,
        fallback_of(failed) is None <==> failed is Cpu,
{
}

// ---------------------------------------------------------------------------
// Models
// ---------------------------------------------------------------------------

/// What is distilled is distilled from a teacher that was trained, and a model that is not trained is
/// taken over from the best one there is.
pub proof fn students_have_teachers(f: TrainFlags, seed: u64, batch: usize)
    ensures
        ({
            let p = batch_plan(f, seed, batch);
            &&& p.teacher_seed is Some <==> f.train_first || f.distill_first
            &&& p.student is Distilled <==> f.distill_first
            &&& p.student is Distilled ==> p.teacher_seed is Some
            &&& p.student is FromFresh <==> p.teacher_seed is None
            &&& p.ternary is DistilledFromStudent <==> f.ternary_distill_first
                && p.teacher_seed is Some
            &&& p.ternary is FromStudent <==> f.distill_first && !f.ternary_distill_first
            &&& p.ternary is FromTeacher <==> f.train_first && !f.distill_first
                && !f.ternary_distill_first
            &&& p.ternary is FromFresh <==> p.teacher_seed is None
        }),
{
}

/// The models of one batch are trained with seeds of their own, the teacher with that of the bench
/// signals, and the next batch with the next seed.
pub proof fn models_have_their_own_seeds(f: TrainFlags, seed: u64, batch: usize)
    ensures
        ({
            let p = batch_plan(f, seed, batch);
            &&& p.teacher_seed matches Some(t) ==> t == p.bench_seed
            &&& p.student matches StudentPlan::Distilled { seed: s } ==> s != p.bench_seed
            &&& p.ternary matches TernaryPlan::DistilledFromStudent { seed: s } ==> s
                != p.bench_seed
            &&& p.student matches StudentPlan::Distilled { seed: s } ==> (
            p.ternary matches TernaryPlan::DistilledFromStudent { seed: t } ==> s != t)
            &&& seed + batch <= u64::MAX ==> p.bench_seed == seed + batch
            &&& p.student matches StudentPlan::Distilled { seed: s } ==> (seed + batch < u64::MAX
                ==> s == seed + batch + 1)
            &&& p.ternary matches TernaryPlan::DistilledFromStudent { seed: s } ==> (seed + batch + 3
                <= u64::MAX ==> s == seed + batch + 3)
        }),
        batch < usize::MAX ==> batch_plan(f, seed, (batch + 1) as usize).bench_seed
            != batch_plan(f, seed, batch).bench_seed,
{
}

/// A report names the steps of what was trained: those of the teacher where one was, and those of the
/// distillation where a student was distilled.
pub proof fn reports_name_the_steps_taken(
    f: TrainFlags,
    seed: u64,
    batch: usize,
    train_steps: usize,
    distill_steps: usize,
)
    ensures
        ({
            let p = batch_plan(f, seed, batch);
            let (train, distill) = steps_named(f, train_steps, distill_steps);
            &&& train is Some <==> p.teacher_seed is Some
            &&& train matches Some(n) ==> n == train_steps
            &&& p.student is Distilled || p.ternary is DistilledFromStudent ==> distill == Some(
                distill_steps,
            )
            &&& distill matches Some(n) ==> n == distill_steps
            &&& distill is None <==> !f.distill_first && !f.ternary_distill_first
        }),
{
}

// ---------------------------------------------------------------------------
// Merging
// ---------------------------------------------------------------------------

/// Merging keeps every row, in the order of the reports and of their rows, whichever reports are
/// merged first; so with the devices and the batches.
pub proof fn merging_is_joining(a: Seq<E2eBenchReport>, b: Seq<E2eBenchReport>)
    ensures
        merged_rows(a + b) == merged_rows(a) + merged_rows(b),
        merged_devices(a + b) == merged_devices(a) + merged_devices(b),
        merged_batches(a + b) == merged_batches(a) + merged_batches(b),
    decreases b.len(),
{
    if b.len() == 0 {
        assert(a + b =~= a);
        assert(merged_rows(a) + merged_rows(b) =~= merged_rows(a));
        assert(merged_devices(a) + merged_devices(b) =~= merged_devices(a));
        assert(merged_batches(a) + merged_batches(b) =~= merged_batches(a));
    } else {
        merging_is_joining(a, b.drop_last());
        assert((a + b).drop_last() =~= a + b.drop_last());
        assert((a + b).last() == b.last());
        assert(merged_rows(a + b) =~= merged_rows(a) + merged_rows(b));
        assert(merged_devices(a + b) =~= merged_devices(a) + merged_devices(b));
        assert(merged_batches(a + b) =~= merged_batches(a) + merged_batches(b));
    }
}

/// The teacher of merged reports is that of the first report that has one, and so with the
/// distillation.
pub proof fn merged_models_come_from_the_first(reports: Seq<E2eBenchReport>)
    ensures
        first_teacher(reports) matches Some(t) ==> exists|i: int|
            0 <= i < reports.len() && teacher_view((#[trigger] reports[i]).meta.teacher) == Some(t)
                && forall|j: int|
                0 <= j < i ==> (#[trigger] reports[j]).meta.teacher is None,
        first_teacher(reports) is None ==> forall|j: int|
            0 <= j < reports.len() ==> (#[trigger] reports[j]).meta.teacher is None,
        first_distill(reports) matches Some(t) ==> exists|i: int|
            0 <= i < reports.len() && distill_view((#[trigger] reports[i]).meta.distill) == Some(t)
                && forall|j: int|
                0 <= j < i ==> (#[trigger] reports[j]).meta.distill is None,
        first_distill(reports) is None ==> forall|j: int|
            0 <= j < reports.len() ==> (#[trigger] reports[j]).meta.distill is None,
    decreases reports.len(),
{
    if reports.len() > 0 {
        let d = reports.drop_last();
        merged_models_come_from_the_first(d);
        let last = reports.len() - 1;
        assert forall|j: int| 0 <= j < last implies (#[trigger] reports[j]) == d[j] by {}
        match first_teacher(d) {
            Some(t) => {
                let i = choose|i: int|
                    0 <= i < d.len() && teacher_view((#[trigger] d[i]).meta.teacher) == Some(t)
                        && forall|j: int| 0 <= j < i ==> (#[trigger] d[j]).meta.teacher is None;
                assert(reports[i] == d[i]);
            },
            None => {
                assert(forall|j: int| 0 <= j < last ==> (#[trigger] reports[j]).meta.teacher is None);
                assert(reports[last].meta.teacher == reports.last().meta.teacher);
            },
        }
        match first_distill(d) {
            Some(t) => {
                let i = choose|i: int|
                    0 <= i < d.len() && distill_view((#[trigger] d[i]).meta.distill) == Some(t)
                        && forall|j: int| 0 <= j < i ==> (#[trigger] d[j]).meta.distill is None;
                assert(reports[i] == d[i]);
            },
            None => {
                assert(forall|j: int| 0 <= j < last ==> (#[trigger] reports[j]).meta.distill is None);
                assert(reports[last].meta.distill == reports.last().meta.distill);
            },
        }
    }
}

/// Joined training outcomes hold those of the first list as they are, an outcome for every batch of
/// the second, and no two for a batch where the first list held none.
pub proof fn joined_outcomes_are_one_for_a_batch(a: Seq<BatchMetaView>, b: Seq<BatchMetaView>)
    ensures
        joined_meta(a, b).len() >= a.len(),
        forall|i: int| 0 <= i < a.len() ==> (#[trigger] joined_meta(a, b)[i]) == a[i],
        forall|i: int| 0 <= i < b.len() ==> has_batch(joined_meta(a, b), (#[trigger] b[i]).batch),
        forall|i: int|
            a.len() <= i < joined_meta(a, b).len() ==> b.contains(#[trigger] joined_meta(a, b)[i]),
        forall|i: int, j: int|
            0 <= i < j && a.len() <= j < joined_meta(a, b).len() ==> (#[trigger] joined_meta(
                a,
                b,
            )[i]).batch != (#[trigger] joined_meta(a, b)[j]).batch,
    decreases b.len(),
{
    if b.len() > 0 {
        let d = b.drop_last();
        joined_outcomes_are_one_for_a_batch(a, d);
        let before = joined_meta(a, d);
        let now = joined_meta(a, b);
        assert forall|i: int| 0 <= i < b.len() implies has_batch(now, (#[trigger] b[i]).batch) by {
            if i < d.len() {
                assert(b[i] == d[i]);
                let k = choose|k: int|
                    0 <= k < before.len() && (#[trigger] before[k]).batch == b[i].batch;
                assert(now[k] == before[k]);
            } else if !has_batch(before, b.last().batch) {
                assert(now[before.len() as int] == b.last());
            }
        }
        assert forall|i: int| a.len() <= i < now.len() implies b.contains(#[trigger] now[i]) by {
            if i < before.len() {
                assert(now[i] == before[i]);
                let k = choose|k: int| 0 <= k < d.len() && d[k] == before[i];
                assert(b[k] == now[i]);
            } else {
                assert(b[b.len() - 1] == now[i]);
            }
        }
        assert forall|i: int, j: int|
            0 <= i < j && a.len() <= j < now.len() implies (#[trigger] now[i]).batch
            != (#[trigger] now[j]).batch by {
            assert(now[i] == before[i]);
            if j < before.len() {
                assert(now[j] == before[j]);
            }
        }
    }
}

/// The training outcomes of merged reports hold an outcome for every batch that some report trained
/// for.
pub proof fn merged_outcomes_cover_the_batches(reports: Seq<E2eBenchReport>, k: int, i: int)
    requires
        0 <= k < reports.len(),
        0 <= i < reports[k].meta.per_batch@.len(),
    ensures
        has_batch(merged_meta(reports), reports[k].meta.per_batch@[i].batch),
    decreases reports.len(),
{
    let batch = reports[k].meta.per_batch@[i].batch;
    let own = crate::e2e_bench::meta_views(reports[k].meta.per_batch@);
    assert(own[i].batch == batch);
    if reports.len() == 1 {
        joined_outcomes_are_one_for_a_batch(own, own);
    } else {
        let d = reports.drop_last();
        let last = crate::e2e_bench::meta_views(reports.last().meta.per_batch@);
        joined_outcomes_are_one_for_a_batch(merged_meta(d), last);
        if k < d.len() {
            assert(reports[k] == d[k]);
            merged_outcomes_cover_the_batches(d, k, i);
            let m = merged_meta(d);
            let j = choose|j: int| 0 <= j < m.len() && (#[trigger] m[j]).batch == batch;
            assert(merged_meta(reports)[j] == m[j]);
        }
    }
}

// ---------------------------------------------------------------------------
// Looking up
// ---------------------------------------------------------------------------

/// The row that is looked up is of the pipeline, the device, the batch and the backend that were
/// asked for, no row before it is, and where none is found there is none.
pub proof fn looked_up_rows_are_the_first(
    rows: Seq<E2eRowView>,
    pipeline: Seq<char>,
    device: Seq<char>,
    batch: usize,
    backend: Seq<char>,
)
    ensures
        match row_for(rows, pipeline, device, batch, backend) {
            Some(i) => {
                &&& 0 <= i < rows.len()
                &&& rows[i].pipeline == pipeline
                &&& rows[i].device == device
                &&& rows[i].batch == batch
                &&& rows[i].backend == backend
                &&& forall|j: int|
                    0 <= j < i ==> !row_is(#[trigger] rows[j], pipeline, device, batch, backend)
            },
            None => forall|j: int|
                0 <= j < rows.len() ==> (#[trigger] rows[j]).pipeline != pipeline || rows[j].device
                    != device || rows[j].batch != batch || rows[j].backend != backend,
        },
    decreases rows.len(),
{
    if rows.len() > 0 {
        let d = rows.drop_last();
        looked_up_rows_are_the_first(d, pipeline, device, batch, backend);
        assert forall|j: int| 0 <= j < d.len() implies (#[trigger] rows[j]) == d[j] by {}
    }
}

/// A speed comparison sets a row of the candidate against one of the baseline, both of the mel
/// pipeline and of the same device and batch.
pub proof fn compared_rows_belong_together(
    rows: Seq<E2eRowView>,
    cells: Seq<(Seq<char>, usize)>,
    baseline: Seq<char>,
    candidate: Seq<char>,
    k: int,
)
    requires
        0 <= k < pairs_of(rows, cells, baseline, candidate).len(),
    ensures
        ({
            let p = pairs_of(rows, cells, baseline, candidate)[k];
            &&& 0 <= p.baseline < rows.len()
            &&& 0 <= p.candidate < rows.len()
            &&& rows[p.baseline].backend == baseline
            &&& rows[p.candidate].backend == candidate
            &&& rows[p.baseline].pipeline == "mel"@
            &&& rows[p.candidate].pipeline == "mel"@
            &&& rows[p.baseline].device == p.device && rows[p.candidate].device == p.device
            &&& rows[p.baseline].batch == p.batch && rows[p.candidate].batch == p.batch
            &&& cells.contains((p.device, p.batch))
        }),
    decreases cells.len(),
{
    let d = cells.drop_last();
    let before = pairs_of(rows, d, baseline, candidate);
    let now = pairs_of(rows, cells, baseline, candidate);
    let (device, batch) = cells.last();
    looked_up_rows_are_the_first(rows, "mel"@, device, batch, baseline);
    looked_up_rows_are_the_first(rows, "mel"@, device, batch, candidate);
    if k < before.len() {
        compared_rows_belong_together(rows, d, baseline, candidate, k);
        assert(now[k] == before[k]);
        let j = choose|j: int| 0 <= j < d.len() && d[j] == (now[k].device, now[k].batch);
        assert(cells[j] == d[j]);
    } else {
        assert(cells[cells.len() - 1] == (device, batch));
    }
}

} // verus!

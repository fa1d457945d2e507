//! What studies of ternary architectures keep: which architectures a variant stands for, which jobs
//! are planned, what rows say of runs, and what groups and points are made of.

use crate::ablation_ternary::{
    default_targets, device_jobs, dominates, group_err, group_key, group_place, groups_of,
    largest_err, matrix, mode_jobs, sparse_variants, studied_pipelines, ternary_row, ternary_route,
    ternary_usable, variant_jobs, RatioView, StudentFacts, TernaryArchVariantId, TernaryExecMode,
    TernaryJob, TernaryOutcome, TernaryParetoPoint, TernaryRowView, FULL,
};
use crate::device::{resolved, wanted_device, Available};
use crate::e2e_bench::E2ePipeline;
use crate::figure::{at_most, less, nan};
use vstd::prelude::*;

verus! {

// ---------------------------------------------------------------------------
// Architectures
// ---------------------------------------------------------------------------

/// What a variant stands for: the references have no architecture; the fused baseline runs every gate
/// forward and corrects nothing; the dual path prunes the mel path alone; and the sparse variants
/// prune both paths to the target, each with its own corrector, the banded one with reverse gates.
pub proof fn variants_are_what_they_say(v: TernaryArchVariantId, target: u64)
    ensures
        v.arch(target) is Some <==> v.trained(),
        v is RefRustfft || v is RefRlxOpFft || v is RefButterflyCompiled ==> !v.trained(),
        v.arch(target) matches Some(a) ==> {
            &&& a.gate_layout is AllForward <==> v is FusionOnly
            &&& a.gate_layout is DualMelSpec <==> v is DualPath
            &&& a.gate_layout is SingleSparse <==> v is SingleSparseBand || v is SingleSparseAffine
                || v is SingleSparseDense
            &&& a.corrector is Identity <==> v is FusionOnly
            &&& a.corrector is Affine <==> v is SingleSparseAffine
            &&& a.corrector is Dense <==> v is SingleSparseDense
            &&& a.corrector is BandWide <==> v is SingleSparseBand || v is DualPath
            &&& a.allow_reverse <==> v is SingleSparseBand
            &&& a.gate_layout is SingleSparse ==> a.target_compute_fraction == target
                && a.target_spec_compute_fraction == target
            &&& !(a.gate_layout is SingleSparse) ==> a.target_spec_compute_fraction == FULL
                && v.arch(FULL) == v.arch(target)
            &&& v is FusionOnly ==> a.target_compute_fraction == FULL
            &&& v is DualPath ==> less(a.target_compute_fraction, FULL)
        },
{
}

/// Every variant runs, in no mode twice; the references run uncompiled, the compiled modes come as a
/// pair, and only the sparse variants that need it run uncompiled besides.
pub proof fn variants_run_in_their_modes(v: TernaryArchVariantId)
    ensures
        v.modes().len() > 0,
        forall|i: int, j: int|
            0 <= i < j < v.modes().len() ==> v.modes()[i] != v.modes()[j],
        !v.trained() ==> v.modes() == seq![TernaryExecMode::Eager],
        v.modes().contains(TernaryExecMode::CompiledMel) == v.modes().contains(
            TernaryExecMode::CompiledSpectrum,
        ),
        v.modes().contains(TernaryExecMode::CompiledMel) <==> v is FusionOnly || v is DualPath
            || v is SingleSparseBand || v is SingleSparseDense,
        v.modes().contains(TernaryExecMode::Eager) <==> !v.trained() || v is SingleSparseBand
            || v is SingleSparseAffine,
{
    let m = v.modes();
    if m.len() == 3 {
        assert(m[0] is Eager && m[1] is CompiledMel && m[2] is CompiledSpectrum);
    } else if m.len() == 2 {
        assert(m[0] is CompiledMel && m[1] is CompiledSpectrum);
    } else {
        assert(m[0] is Eager);
    }
}

/// A route of a variant gives what its pipeline is compared by. Only a compiled mode of a trained
/// variant lacks routes, for pipelines that the other compiled mode covers, and only there is the
/// fused model used.
pub proof fn variants_cover_their_pipelines(
    v: TernaryArchVariantId,
    p: E2ePipeline,
    e: TernaryExecMode,
)
    ensures
        ternary_route(v, p, e) matches Some(r) ==> {
            &&& r.output is LogMel <==> p is Mel
            &&& r.output is WelchPsd <==> p is Welch
            &&& r.output is WelchPeaks <==> p is WelchPeaks || p is WelchPeaksUltra
            &&& r.output is RawSpectrum <==> p is Q8Spectrum || p is Denoise
            &&& r.source is CompiledTernary ==> v.trained() && !(e is Eager)
            &&& r.source is Ternary || r.source is CompiledTernary <==> v.trained()
            &&& r.source is Butterfly <==> v is RefButterflyCompiled
            &&& r.source is NativeOp <==> v is RefRlxOpFft && (p is Mel || p is Q8Spectrum
                || p is Denoise)
            &&& r.source is Reference ==> v is RefRustfft || v is RefRlxOpFft
        },
        ternary_route(v, p, e) is None <==> v.trained() && ((e is CompiledMel && (p is Q8Spectrum
            || p is Denoise)) || (e is CompiledSpectrum && p is Mel)),
        v.trained() && p is Mel ==> (ternary_route(v, p, TernaryExecMode::CompiledMel) matches Some(
            r,
        ) && r.source is CompiledTernary),
        v.trained() && (p is Q8Spectrum || p is Denoise) ==> (ternary_route(
            v,
            p,
            TernaryExecMode::CompiledSpectrum,
        ) matches Some(r) && r.source is CompiledTernary),
{
}

// ---------------------------------------------------------------------------
// The matrix
// ---------------------------------------------------------------------------

/// A study has the references, the fused baseline and the dual path, the banded variant for every
/// target, and, unless it is quick, the affine one too; the dense one never where it is quick.
pub proof fn studies_hold_every_target(quick: bool, targets: Seq<u64>, k: int)
    requires
        0 <= k < targets.len(),
    ensures
        ({
            let m = matrix(quick, targets);
            &&& m[0].0 is RefRustfft && m[1].0 is RefRlxOpFft && m[2].0 is RefButterflyCompiled
                && m[3].0 is FusionOnly
            &&& m.last().0 is DualPath
            &&& m.contains((TernaryArchVariantId::SingleSparseBand, targets[k]))
            &&& !quick ==> m.contains((TernaryArchVariantId::SingleSparseAffine, targets[k]))
            &&& quick ==> forall|i: int|
                0 <= i < m.len() ==> !((#[trigger] m[i]).0 is SingleSparseAffine) && !(
                m[i].0 is SingleSparseDense)
        }),
{
    lemma_sparse_variants(quick, targets, k);
    let s = sparse_variants(quick, targets);
    let m = matrix(quick, targets);
    let i = choose|i: int|
        0 <= i < s.len() && s[i] == (TernaryArchVariantId::SingleSparseBand, targets[k]);
    assert(m[4 + i] == s[i]);
    if !quick {
        let j = choose|j: int|
            0 <= j < s.len() && s[j] == (TernaryArchVariantId::SingleSparseAffine, targets[k]);
        assert(m[4 + j] == s[j]);
    }
    assert forall|i: int| quick && 0 <= i < m.len() implies !((#[trigger] m[i]).0
        is SingleSparseAffine) && !(m[i].0 is SingleSparseDense) by {
        if 4 <= i < 4 + s.len() {
            assert(m[i] == s[i - 4]);
        }
    }
}

proof fn lemma_sparse_variants(quick: bool, targets: Seq<u64>, k: int)
    ensures
        0 <= k < targets.len() ==> {
            let s = sparse_variants(quick, targets);
            &&& s.contains((TernaryArchVariantId::SingleSparseBand, targets[k]))
            &&& !quick ==> s.contains((TernaryArchVariantId::SingleSparseAffine, targets[k]))
        },
        quick ==> forall|i: int|
            0 <= i < sparse_variants(quick, targets).len() ==> (#[trigger] sparse_variants(
                quick,
                targets,
            )[i]).0 is SingleSparseBand,
    decreases targets.len(),
{
    if targets.len() > 0 {
        let d = targets.drop_last();
        lemma_sparse_variants(quick, d, k);
        let b = sparse_variants(quick, d);
        let s = sparse_variants(quick, targets);
        let t = targets.last();
        assert(s[b.len() as int] == (TernaryArchVariantId::SingleSparseBand, t));
        if !quick {
            assert(s[b.len() as int + 1] == (TernaryArchVariantId::SingleSparseAffine, t));
        }
        if 0 <= k < d.len() {
            assert(d[k] == targets[k]);
            let i = choose|i: int|
                0 <= i < b.len() && b[i] == (TernaryArchVariantId::SingleSparseBand, targets[k]);
            assert(s[i] == b[i]);
            if !quick {
                let j = choose|j: int|
                    0 <= j < b.len() && b[j] == (
                        TernaryArchVariantId::SingleSparseAffine,
                        targets[k],
                    );
                assert(s[j] == b[j]);
            }
        }
        if quick {
            assert forall|i: int| 0 <= i < s.len() implies (#[trigger] s[i]).0 is SingleSparseBand by {
                if i < b.len() {
                    assert(s[i] == b[i]);
                }
            }
        }
    }
}

// ---------------------------------------------------------------------------
// Jobs
// ---------------------------------------------------------------------------

proof fn lemma_mode_jobs(
    n_fft: usize,
    batch: usize,
    device: usize,
    variant: usize,
    modes: Seq<TernaryExecMode>,
    j: TernaryJob,
)
    ensures
        mode_jobs(n_fft, batch, device, variant, modes).contains(j) <==> (j.n_fft == n_fft
            && j.batch == batch && j.device == device && j.variant == variant && modes.contains(
            j.mode,
        ) && !(j.pipeline is WelchPeaks) && !(j.pipeline is WelchPeaksUltra)),
    decreases modes.len(),
{
    if modes.len() > 0 {
        let d = modes.drop_last();
        let before = mode_jobs(n_fft, batch, device, variant, d);
        let all = mode_jobs(n_fft, batch, device, variant, modes);
        lemma_mode_jobs(n_fft, batch, device, variant, d, j);
        let mode = modes.last();
        let p = studied_pipelines();
        assert(p[0] is Mel && p[1] is Welch && p[2] is Q8Spectrum && p[3] is Denoise);
        assert(all.len() == before.len() + 4);
        if all.contains(j) {
            let i = choose|i: int| 0 <= i < all.len() && all[i] == j;
            if i < before.len() {
                assert(before[i] == j);
                let k = choose|k: int| 0 <= k < d.len() && d[k] == j.mode;
                assert(modes[k] == j.mode);
            } else {
                assert(modes[modes.len() - 1] == j.mode);
            }
        }
        if j.n_fft == n_fft && j.batch == batch && j.device == device && j.variant == variant
            && modes.contains(j.mode) && !(j.pipeline is WelchPeaks) && !(
        j.pipeline is WelchPeaksUltra) {
            let k = choose|k: int| 0 <= k < modes.len() && modes[k] == j.mode;
            if k < d.len() {
                assert(d[k] == j.mode);
                let i = choose|i: int| 0 <= i < before.len() && before[i] == j;
                assert(all[i] == j);
            } else {
                let q: int = match j.pipeline {
                    E2ePipeline::Mel => 0,
                    E2ePipeline::Welch => 1,
                    E2ePipeline::Q8Spectrum => 2,
                    _ => 3,
                };
                assert(all[before.len() + q] == j);
            }
        }
    }
}

proof fn lemma_variant_jobs(
    n_fft: usize,
    batch: usize,
    device: usize,
    m: Seq<(TernaryArchVariantId, u64)>,
    k: nat,
    j: TernaryJob,
)
    requires
        k <= m.len(),
        k <= usize::MAX,
    ensures
        variant_jobs(n_fft, batch, device, m, k).contains(j) <==> (j.n_fft == n_fft && j.batch
            == batch && j.device == device && j.variant < k && m[j.variant as int].0.modes().contains(
            j.mode,
        ) && !(j.pipeline is WelchPeaks) && !(j.pipeline is WelchPeaksUltra)),
    decreases k,
{
    if k > 0 {
        let before = variant_jobs(n_fft, batch, device, m, (k - 1) as nat);
        let more = mode_jobs(n_fft, batch, device, (k - 1) as usize, m[k - 1].0.modes());
        let all = variant_jobs(n_fft, batch, device, m, k);
        lemma_variant_jobs(n_fft, batch, device, m, (k - 1) as nat, j);
        lemma_mode_jobs(n_fft, batch, device, (k - 1) as usize, m[k - 1].0.modes(), j);
        lemma_joined_contains(before, more, j);
    }
}

pub(crate) proof fn lemma_joined_contains<A>(a: Seq<A>, b: Seq<A>, x: A)
    ensures
        (a + b).contains(x) <==> a.contains(x) || b.contains(x),
{
    if a.contains(x) {
        let i = choose|i: int| 0 <= i < a.len() && a[i] == x;
        assert((a + b)[i] == x);
    }
    if b.contains(x) {
        let i = choose|i: int| 0 <= i < b.len() && b[i] == x;
        assert((a + b)[a.len() + i] == x);
    }
    if (a + b).contains(x) {
        let i = choose|i: int| 0 <= i < (a + b).len() && (a + b)[i] == x;
        if i < a.len() {
            assert(a[i] == x);
        } else {
            assert(b[i - a.len()] == x);
        }
    }
}

/// A study runs every variant in each of its modes, on every device that can be used, for every
/// pipeline but the peaks, and nothing else.
pub proof fn studies_run_everything_once_asked(
    n_fft: usize,
    batch: usize,
    devices: Seq<Seq<char>>,
    m: Seq<(TernaryArchVariantId, u64)>,
    environment: Option<Seq<char>>,
    a: Available,
    k: nat,
    j: TernaryJob,
)
    requires
        k <= devices.len(),
        k <= usize::MAX,
        m.len() <= usize::MAX,
    ensures
        device_jobs(n_fft, batch, devices, m, environment, a, k).contains(j) <==> {
            &&& j.n_fft == n_fft
            &&& j.batch == batch
            &&& j.device < k
            &&& resolved(wanted_device(Some(devices[j.device as int]), environment), a) is Ok
            &&& j.variant < m.len()
            &&& m[j.variant as int].0.modes().contains(j.mode)
            &&& !(j.pipeline is WelchPeaks)
            &&& !(j.pipeline is WelchPeaksUltra)
        },
    decreases k,
{
    if k > 0 {
        let q = (k - 1) as nat;
        studies_run_everything_once_asked(n_fft, batch, devices, m, environment, a, q, j);
        let before = device_jobs(n_fft, batch, devices, m, environment, a, q);
        lemma_variant_jobs(n_fft, batch, q as usize, m, m.len(), j);
        lemma_joined_contains(before, variant_jobs(n_fft, batch, q as usize, m, m.len()), j);
    }
}

/// A quick study prunes to some of the targets of a full one, the full transform among them.
pub proof fn quick_targets_are_targets(k: int)
    requires
        0 <= k < default_targets(true).len(),
    ensures
        default_targets(false).contains(default_targets(true)[k]),
        default_targets(true).contains(FULL),
        default_targets(true).len() < default_targets(false).len(),
{
    let full = default_targets(false);
    let quick = default_targets(true);
    assert(full[0] == quick[0]);
    assert(full[2] == quick[1]);
    assert(quick[0] == FULL);
}

// ---------------------------------------------------------------------------
// Rows
// ---------------------------------------------------------------------------

/// A row of a run that failed is never usable, says why and names its target; a row of a run that
/// succeeded shows the time and the errors that were measured, and is usable where the time is a
/// finite one above nought.
pub proof fn rows_say_how_runs_ended(
    job: TernaryJob,
    variant: TernaryArchVariantId,
    target: RatioView,
    device: Seq<char>,
    iters: usize,
    facts: StudentFacts,
    outcome: TernaryOutcome,
)
    ensures
        ({
            let r = ternary_row(job, variant, target, device, iters, facts, outcome);
            &&& match outcome {
                TernaryOutcome::Ran { ms, max_err, norm_err } => {
                    &&& r.ms == ms@ && r.max_err == max_err@ && r.norm_err == norm_err@
                    &&& r.note is None
                    &&& ternary_usable(r) == (crate::figure::finite(ms@.bits) && less(0, ms@.bits))
                    &&& r.prune_target is Some <==> variant.trained()
                },
                TernaryOutcome::Failed { message } => {
                    &&& !ternary_usable(r)
                    &&& nan(r.ms.bits) && nan(r.max_err.bits) && nan(r.norm_err.bits)
                    &&& r.note == Some(message@)
                    &&& r.prune_target == Some(target)
                },
            }
            &&& r.prune_target matches Some(t) ==> t == target
            &&& r.variant == variant.label_text()
            &&& r.pipeline == job.pipeline.label_text()
            &&& r.mode == job.mode.label_text()
            &&& r.n_fft == job.n_fft && r.batch == job.batch && r.device == device && r.iters
                == iters
            &&& r.skip_gates == facts.skip_gates
        }),
{
    reveal_strlit("ok");
    reveal_strlit("bench_fail");
    assert("ok"@.len() != "bench_fail"@.len());
}

// ---------------------------------------------------------------------------
// Groups
// ---------------------------------------------------------------------------

proof fn lemma_group_place(rows: Seq<TernaryRowView>, groups: Seq<Seq<usize>>, r: TernaryRowView)
    ensures
        match group_place(rows, groups, r) {
            Some(k) => 0 <= k < groups.len() && group_key(rows[groups[k][0] as int]) == group_key(r),
            None => forall|k: int|
                0 <= k < groups.len() ==> group_key(rows[(#[trigger] groups[k])[0] as int])
                    != group_key(r),
        },
    decreases groups.len(),
{
    if groups.len() > 0 {
        let rest = groups.drop_first();
        lemma_group_place(rows, rest, r);
        if group_key(rows[groups[0][0] as int]) != group_key(r) && group_place(rows, rest, r)
            is None {
            assert forall|k: int| 0 <= k < groups.len() implies group_key(
                rows[(#[trigger] groups[k])[0] as int],
            ) != group_key(r) by {
                if k > 0 {
                    assert(rest[k - 1] == groups[k]);
                }
            }
        }
    }
}

/// Whether groups hold rows of one cell, each with rows of one variant, mode and target in their own
/// order, and no two groups of the same.
pub open spec fn grouped(
    rows: Seq<TernaryRowView>,
    groups: Seq<Seq<usize>>,
    n: nat,
    device: Seq<char>,
    n_fft: usize,
    batch: usize,
) -> bool {
    &&& forall|g: int| 0 <= g < groups.len() ==> (#[trigger] groups[g]).len() > 0
    &&& forall|g: int, k: int|
        0 <= g < groups.len() && 0 <= k < groups[g].len() ==> {
            let at = #[trigger] groups[g][k];
            let r = rows[at as int];
            &&& at < n
            &&& r.device == device && r.n_fft == n_fft && r.batch == batch
            &&& ternary_usable(r)
            &&& group_key(r) == group_key(rows[groups[g][0] as int])
        }
    &&& forall|g: int, j: int, k: int|
        0 <= g < groups.len() && 0 <= j < k < groups[g].len() ==> (#[trigger] groups[g][j]) < (
        #[trigger] groups[g][k])
    &&& forall|g: int, h: int|
        0 <= g < h < groups.len() ==> group_key(rows[(#[trigger] groups[g])[0] as int])
            != group_key(rows[(#[trigger] groups[h])[0] as int])
}

/// Groups hold usable rows of one device, size and batch; the rows of a group share their variant,
/// mode and target, and no two groups do.
pub proof fn groups_share_what_they_are_named_for(
    rows: Seq<TernaryRowView>,
    n: nat,
    device: Seq<char>,
    n_fft: usize,
    batch: usize,
)
    requires
        n <= rows.len(),
        n <= usize::MAX,
    ensures
        grouped(rows, groups_of(rows, n, device, n_fft, batch), n, device, n_fft, batch),
    decreases n,
{
    if n > 0 {
        let i = (n - 1) as nat;
        groups_share_what_they_are_named_for(rows, i, device, n_fft, batch);
        let before = groups_of(rows, i, device, n_fft, batch);
        let now = groups_of(rows, n, device, n_fft, batch);
        let r = rows[i as int];
        lemma_group_place(rows, before, r);
        if r.device == device && r.n_fft == n_fft && r.batch == batch && ternary_usable(r) {
            match group_place(rows, before, r) {
                Some(k) => {
                    let grown = before[k].push(i as usize);
                    assert(now == before.update(k, grown));
                    assert(grown[0] == before[k][0]);
                    assert forall|g: int| 0 <= g < now.len() implies (#[trigger] now[g])[0]
                        == before[g][0] && now[g].len() > 0 by {
                        assert(before[g].len() > 0);
                    }
                    assert forall|g: int, q: int|
                        0 <= g < now.len() && 0 <= q < now[g].len() implies ({
                        let at = #[trigger] now[g][q];
                        let x = rows[at as int];
                        &&& at < n
                        &&& x.device == device && x.n_fft == n_fft && x.batch == batch
                        &&& ternary_usable(x)
                        &&& group_key(x) == group_key(rows[now[g][0] as int])
                    }) by {
                        if q < before[g].len() {
                            assert(now[g][q] == before[g][q]);
                        }
                    }
                    assert forall|g: int, a: int, b: int|
                        0 <= g < now.len() && 0 <= a < b < now[g].len() implies (
                    #[trigger] now[g][a]) < (#[trigger] now[g][b]) by {
                        assert(now[g][a] == before[g][a]);
                        if b < before[g].len() {
                            assert(now[g][b] == before[g][b]);
                        }
                    }
                    assert forall|g: int, h: int| 0 <= g < h < now.len() implies group_key(
                        rows[(#[trigger] now[g])[0] as int],
                    ) != group_key(rows[(#[trigger] now[h])[0] as int]) by {
                        assert(group_key(rows[before[g][0] as int]) != group_key(
                            rows[before[h][0] as int],
                        ));
                    }
                },
                None => {
                    let alone = seq![i as usize];
                    assert(now == before.push(alone));
                    assert forall|g: int, q: int|
                        0 <= g < now.len() && 0 <= q < now[g].len() implies ({
                        let at = #[trigger] now[g][q];
                        let x = rows[at as int];
                        &&& at < n
                        &&& x.device == device && x.n_fft == n_fft && x.batch == batch
                        &&& ternary_usable(x)
                        &&& group_key(x) == group_key(rows[now[g][0] as int])
                    }) by {
                        if g < before.len() {
                            assert(now[g] == before[g]);
                            assert(before[g][q] < i);
                        }
                    }
                    assert forall|g: int, a: int, b: int|
                        0 <= g < now.len() && 0 <= a < b < now[g].len() implies (
                    #[trigger] now[g][a]) < (#[trigger] now[g][b]) by {
                        assert(now[g] == before[g]);
                        assert(before[g][a] < before[g][b]);
                    }
                    assert forall|g: int, h: int| 0 <= g < h < now.len() implies group_key(
                        rows[(#[trigger] now[g])[0] as int],
                    ) != group_key(rows[(#[trigger] now[h])[0] as int]) by {
                        assert(now[g] == before[g]);
                        if h < before.len() {
                            assert(now[h] == before[h]);
                        }
                    }
                },
            }
        } else {
            assert(now == before);
            assert forall|g: int, q: int|
                0 <= g < now.len() && 0 <= q < now[g].len() implies ({
                let at = #[trigger] now[g][q];
                at < n
            }) by {
                assert(before[g][q] < i);
            }
        }
    }
}

/// Every usable row of a device, size and batch is in one of the groups.
pub proof fn usable_rows_are_grouped(
    rows: Seq<TernaryRowView>,
    n: nat,
    device: Seq<char>,
    n_fft: usize,
    batch: usize,
    i: int,
)
    requires
        n <= rows.len(),
        n <= usize::MAX,
        0 <= i < n,
        rows[i].device == device,
        rows[i].n_fft == n_fft,
        rows[i].batch == batch,
        ternary_usable(rows[i]),
    ensures
        exists|g: int|
            0 <= g < groups_of(rows, n, device, n_fft, batch).len() && (#[trigger] groups_of(
                rows,
                n,
                device,
                n_fft,
                batch,
            )[g]).contains(i as usize),
    decreases n,
{
    let last = (n - 1) as nat;
    let before = groups_of(rows, last, device, n_fft, batch);
    let now = groups_of(rows, n, device, n_fft, batch);
    let r = rows[last as int];
    lemma_group_place(rows, before, r);
    if i == last {
        match group_place(rows, before, r) {
            Some(k) => {
                let grown = before[k].push(i as usize);
                assert(grown[before[k].len() as int] == i as usize);
                assert(now[k] == grown);
            },
            None => {
                let alone = seq![i as usize];
                assert(alone[0] == i as usize);
                assert(now[before.len() as int] == alone);
            },
        }
    } else {
        usable_rows_are_grouped(rows, last, device, n_fft, batch, i);
        let g = choose|g: int|
            0 <= g < before.len() && (#[trigger] before[g]).contains(i as usize);
        let q = choose|q: int| 0 <= q < before[g].len() && before[g][q] == i as usize;
        if r.device == device && r.n_fft == n_fft && r.batch == batch && ternary_usable(r) {
            match group_place(rows, before, r) {
                Some(k) => {
                    if k == g {
                        assert(now[g][q] == before[g][q]);
                    } else {
                        assert(now[g] == before[g]);
                    }
                },
                None => {
                    assert(now[g] == before[g]);
                },
            }
            assert(now[g][q] == i as usize);
        }
        assert(now[g].contains(i as usize));
    }
}

// ---------------------------------------------------------------------------
// Points
// ---------------------------------------------------------------------------

/// The error of a pipeline in a group is that of the last row of the pipeline.
pub proof fn the_last_row_of_a_pipeline_counts(
    rows: Seq<TernaryRowView>,
    group: Seq<usize>,
    pipeline: Seq<char>,
    k: int,
)
    requires
        0 <= k < group.len(),
        rows[group[k] as int].pipeline == pipeline,
        forall|j: int|
            k < j < group.len() ==> rows[#[trigger] group[j] as int].pipeline != pipeline,
    ensures
        group_err(rows, group, pipeline) == rows[group[k] as int].norm_err,
    decreases group.len(),
{
    if k < group.len() - 1 {
        let d = group.drop_last();
        assert(rows[group[group.len() - 1] as int].pipeline != pipeline);
        assert forall|j: int| k < j < d.len() implies rows[#[trigger] d[j] as int].pipeline
            != pipeline by {
            assert(d[j] == group[j]);
        }
        assert(d[k] == group[k]);
        the_last_row_of_a_pipeline_counts(rows, d, pipeline, k);
    }
}

/// The largest error of a group is one of its four, and none of them is larger; it is a number where
/// one of them is.
pub proof fn no_error_exceeds_the_largest(rows: Seq<TernaryRowView>, group: Seq<usize>)
    ensures
        ({
            let mel = group_err(rows, group, "mel"@);
            let denoise = group_err(rows, group, "denoise"@);
            let q8 = group_err(rows, group, "q8"@);
            let welch = group_err(rows, group, "welch"@);
            let most = largest_err(rows, group);
            &&& most == mel || most == denoise || most == q8 || most == welch
            &&& !less(most.bits, mel.bits)
            &&& !less(most.bits, denoise.bits)
            &&& !less(most.bits, q8.bits)
            &&& !less(most.bits, welch.bits)
            &&& nan(most.bits) ==> nan(mel.bits) && nan(denoise.bits) && nan(q8.bits) && nan(
                welch.bits,
            )
        }),
{
}

/// One point dominates another only where it is no worse in any of the five respects, and does so
/// where it is better in all of them.
pub proof fn dominance_needs_every_respect(b: TernaryParetoPoint, a: TernaryParetoPoint)
    ensures
        less(a.mean_ms.bits, b.mean_ms.bits) ==> !dominates(b, a),
        less(a.mel_norm.bits, b.mel_norm.bits) ==> !dominates(b, a),
        less(a.denoise_norm.bits, b.denoise_norm.bits) ==> !dominates(b, a),
        less(a.q8_norm.bits, b.q8_norm.bits) ==> !dominates(b, a),
        less(a.welch_norm.bits, b.welch_norm.bits) ==> !dominates(b, a),
        at_most(b.mean_ms.bits, a.mean_ms.bits) && at_most(b.mel_norm.bits, a.mel_norm.bits)
            && at_most(b.denoise_norm.bits, a.denoise_norm.bits) && at_most(
            b.q8_norm.bits,
            a.q8_norm.bits,
        ) && less(b.welch_norm.bits, a.welch_norm.bits) ==> dominates(b, a),
        less(b.mean_ms.bits, a.mean_ms.bits) && at_most(b.mel_norm.bits, a.mel_norm.bits)
            && at_most(b.denoise_norm.bits, a.denoise_norm.bits) && at_most(
            b.q8_norm.bits,
            a.q8_norm.bits,
        ) && at_most(b.welch_norm.bits, a.welch_norm.bits) ==> dominates(b, a),
{
}

} // verus!

//! What models keep: corrections that change nothing at first, refits that go through every signal
//! alike, layouts that touch no more gates than they say, and powers and filters of spectra.

use crate::deploy_graph::{affine, denoised};
use crate::fourier::{
    all_valid, lemma_exchange, lemma_opposite_twice, lemma_product_nought, lemma_product_opposite,
    Ring,
};
use crate::graph::{multiplied, Env};
use crate::models::{
    fitted_run, fitting, mel_lessons, mel_rate, open_mask, refit_count, spectrum_lessons,
    RefitSignal,
};
use crate::scalar::{Divisible, Scalar};
use crate::spectral::{
    filtered, fitted_step, fresh, identity_band_passes_through, powers,
    ring_numbers_are_undisturbed, SpectrumCorrection,
};
use crate::ternary_gates::{count_code, laid_out, CorrectorKind, GateLayout, GateMode};
use crate::training_laws::divides;
use vstd::prelude::*;

verus! {

// ---------------------------------------------------------------------------
// Corrections
// ---------------------------------------------------------------------------

/// A mask of ones, a gain of one and no bias change nothing.
pub proof fn open_masks_change_nothing<T: Ring>(v: Seq<T>, n_fft: int)
    requires
        n_fft > 0,
        all_valid(v),
    ensures
        multiplied(v, open_mask::<T>(n_fft)) == v,
        affine(
            v,
            open_mask::<T>(n_fft),
            Seq::new((2 * n_fft) as nat, |i: int| T::nought()),
        ) == v,
{
    let ones = open_mask::<T>(n_fft);
    let noughts = Seq::new((2 * n_fft) as nat, |i: int| T::nought());
    assert forall|p: int| 0 <= p < v.len() implies multiplied(v, ones)[p] == v[p] by {
        vstd::arithmetic::div_mod::lemma_mod_bound(p, 2 * n_fft);
        assert(T::valid(v[p]));
        T::product_with_unit(v[p]);
    }
    assert(multiplied(v, ones) =~= v);
    assert forall|p: int| 0 <= p < v.len() implies affine(v, ones, noughts)[p] == v[p] by {
        vstd::arithmetic::div_mod::lemma_mod_bound(p, 2 * n_fft);
        assert(multiplied(v, ones)[p] == v[p]);
        assert(T::valid(v[p]));
        T::sum_with_nought(v[p]);
    }
    assert(affine(v, ones, noughts) =~= v);
}

/// A correction of any kind changes nothing at first.
pub proof fn fresh_corrections_change_nothing<T: Ring>(
    c: SpectrumCorrection<T>,
    kind: CorrectorKind,
    n_fft: int,
    mel_path: bool,
    v: Seq<T>,
    rows: nat,
)
    requires
        n_fft > 0,
        fresh(c, kind, n_fft, mel_path),
        c.fits(n_fft),
        all_valid(v),
        v.len() == rows * (2 * n_fft),
    ensures
        c.of(v) == v,
{
    match c {
        SpectrumCorrection::Identity => {},
        SpectrumCorrection::Affine(d) => {
            open_masks_change_nothing(v, n_fft);
            assert(d.scale@ =~= open_mask::<T>(n_fft));
            assert(d.bias@ =~= Seq::new((2 * n_fft) as nat, |i: int| T::nought()));
        },
        SpectrumCorrection::Band(b) => {
            ring_numbers_are_undisturbed(v);
            identity_band_passes_through(b, v, rows);
        },
    }
}

/// What kind of correction a kind starts with, and that the band of the mel path is never wider than
/// that of the spectrum path.
pub proof fn kinds_start_as_they_say<T: Scalar>(
    c: SpectrumCorrection<T>,
    mel: SpectrumCorrection<T>,
    kind: CorrectorKind,
    n_fft: int,
)
    requires
        n_fft > 0,
        fresh(c, kind, n_fft, false),
        fresh(mel, kind, n_fft, true),
    ensures
        kind is Identity <==> c is Identity,
        kind is Affine <==> c is Affine,
        c is Band ==> {
            &&& mel is Band
            &&& c->Band_0.n_bins == 2 * n_fft
            &&& mel->Band_0.radius <= c->Band_0.radius
            &&& kind is Dense ==> c->Band_0.radius == 2 * n_fft - 1 && mel->Band_0.radius == 2
                * n_fft - 1
            &&& !(kind is Dense) ==> 2 * c->Band_0.radius + 1 <= 2 * n_fft
            &&& kind is BandNarrow ==> mel->Band_0.radius == c->Band_0.radius
        },
{
}

/// A deployed mask and denoiser make of a spectrum what the model makes of it, where the graph is
/// given the model's parameters.
pub proof fn deployed_denoisers_match_the_model<T: Scalar>(
    env: Env<T>,
    v: Seq<T>,
    mask: Seq<T>,
    scale: Seq<T>,
    bias: Seq<T>,
)
    requires
        (env.leaf)("freq_mask"@) == mask,
        (env.leaf)("denoise.scale"@) == scale,
        (env.leaf)("denoise.bias"@) == bias,
    ensures
        denoised(env, v) == affine(multiplied(v, mask), scale, bias),
{
}

// ---------------------------------------------------------------------------
// Refits
// ---------------------------------------------------------------------------

/// The signals before the first that does not fit all fit, and that one does not.
pub proof fn fitting_signals_come_first<T>(
    signals: Seq<RefitSignal<T>>,
    batch: usize,
    n_fft: usize,
    k: int,
)
    ensures
        fitting(signals, batch, n_fft) <= signals.len(),
        0 <= k < fitting(signals, batch, n_fft) ==> signals[k].fits(batch, n_fft),
        fitting(signals, batch, n_fft) < signals.len() ==> !signals[fitting(
            signals,
            batch,
            n_fft,
        ) as int].fits(batch, n_fft),
    decreases signals.len(),
{
    if signals.len() > 0 && signals[0].fits(batch, n_fft) {
        let rest = signals.drop_first();
        fitting_signals_come_first(rest, batch, n_fft, k - 1);
        if k > 0 && k < fitting(signals, batch, n_fft) {
            assert(rest[k - 1] == signals[k]);
        }
        if fitting(signals, batch, n_fft) < signals.len() {
            assert(rest[fitting(rest, batch, n_fft) as int] == signals[fitting(
                signals,
                batch,
                n_fft,
            ) as int]);
        }
    }
}

/// A refit of signals that all fit goes through all of them as often as it has steps: one more step
/// goes through all of them once more.
pub proof fn refits_go_through_every_signal<T>(
    signals: Seq<RefitSignal<T>>,
    batch: usize,
    n_fft: usize,
    steps: usize,
)
    requires
        steps < usize::MAX,
        forall|k: int| 0 <= k < signals.len() ==> (#[trigger] signals[k]).fits(batch, n_fft),
    ensures
        refit_count(signals, batch, n_fft, 0) == 0,
        refit_count(signals, batch, n_fft, (steps + 1) as usize) == refit_count(
            signals,
            batch,
            n_fft,
            steps,
        ) + signals.len(),
{
    fitting_signals_come_first(signals, batch, n_fft, 0);
    let f = fitting(signals, batch, n_fft);
    if f < signals.len() {
        assert(signals[f as int].fits(batch, n_fft));
    }
    assert((steps + 1) * signals.len() == steps * signals.len() + signals.len())
        by (nonlinear_arith);
    assert(0 * signals.len() == 0) by (nonlinear_arith);
}

/// Training over lessons in turn goes on where it stopped: after whole rounds, what follows is
/// training from there.
pub proof fn whole_rounds_can_be_told_apart<T: Divisible>(
    before: SpectrumCorrection<T>,
    lessons: Seq<(Seq<T>, Seq<T>)>,
    rounds: nat,
    more: nat,
    batch: usize,
    n_fft: usize,
    lr: T,
    mid: SpectrumCorrection<T>,
    after: SpectrumCorrection<T>,
)
    requires
        lessons.len() > 0,
        fitted_run(before, lessons, rounds * lessons.len(), batch, n_fft, lr, mid),
        fitted_run(mid, lessons, more, batch, n_fft, lr, after),
    ensures
        fitted_run(before, lessons, rounds * lessons.len() + more, batch, n_fft, lr, after),
    decreases more,
{
    let n = lessons.len() as int;
    let done = rounds * lessons.len();
    if more > 0 {
        let j = (more - 1) as nat;
        let lesson = lessons[(more - 1) % n];
        let last = choose|last: SpectrumCorrection<T>|
            fitted_run(mid, lessons, j, batch, n_fft, lr, last) && #[trigger] fitted_step(
                last,
                lesson.0,
                lesson.1,
                batch,
                n_fft,
                lr,
                after,
            );
        whole_rounds_can_be_told_apart(
            before,
            lessons,
            rounds,
            j,
            batch,
            n_fft,
            lr,
            mid,
            last,
        );
        vstd::arithmetic::div_mod::lemma_mod_multiples_vanish(rounds as int, j as int, n);
        assert(n * rounds == rounds * n) by (nonlinear_arith);
        assert((done + j) as int % n == (j as int) % n);
        assert((done + more - 1) as nat == done + j);
        assert(fitted_step(last, lesson.0, lesson.1, batch, n_fft, lr, after));
    }
}

/// Lessons are taken in order: what follows the first of them is a step on the next.
pub proof fn lessons_are_taken_in_order<T: Divisible>(
    before: SpectrumCorrection<T>,
    lessons: Seq<(Seq<T>, Seq<T>)>,
    k: nat,
    batch: usize,
    n_fft: usize,
    lr: T,
    after: SpectrumCorrection<T>,
)
    requires
        k < lessons.len(),
        fitted_run(before, lessons, k + 1, batch, n_fft, lr, after),
    ensures
        exists|mid: SpectrumCorrection<T>|
            #[trigger] fitted_run(before, lessons, k, batch, n_fft, lr, mid) && fitted_step(
                mid,
                lessons[k as int].0,
                lessons[k as int].1,
                batch,
                n_fft,
                lr,
                after,
            ),
{
    vstd::arithmetic::div_mod::lemma_small_mod(k, lessons.len());
    assert((k + 1 - 1) as nat == k);
    let mid = choose|mid: SpectrumCorrection<T>|
        fitted_run(before, lessons, k, batch, n_fft, lr, mid) && #[trigger] fitted_step(
            mid,
            lessons[k as int].0,
            lessons[k as int].1,
            batch,
            n_fft,
            lr,
            after,
        );
    assert(fitted_run(before, lessons, k, batch, n_fft, lr, mid));
}

/// The spectrum path learns from the signals as they are and the mel path from the windowed ones:
/// with an open mask, what goes in is what the gates let through, and what is asked for is the exact
/// spectrum of the same signal.
pub proof fn paths_learn_from_their_own_signals<T: Ring>(
    signals: Seq<RefitSignal<T>>,
    n_fft: int,
    k: int,
)
    requires
        n_fft > 0,
        0 <= k < signals.len(),
        all_valid(signals[k].routed@),
        all_valid(signals[k].mel_routed@),
    ensures
        spectrum_lessons(signals, open_mask::<T>(n_fft))[k] == (
            signals[k].routed@,
            signals[k].target@,
        ),
        mel_lessons(signals, open_mask::<T>(n_fft))[k] == (
            signals[k].mel_routed@,
            signals[k].mel_target@,
        ),
        spectrum_lessons(signals, open_mask::<T>(n_fft)).len() == signals.len(),
        mel_lessons(signals, open_mask::<T>(n_fft)).len() == signals.len(),
{
    open_masks_change_nothing(signals[k].routed@, n_fft);
    open_masks_change_nothing(signals[k].mel_routed@, n_fft);
}

/// The mel path learns at seventeen twentieths of the rate of the spectrum path.
pub proof fn mel_paths_learn_slower<T: Ring + Divisible>(lr: T)
    requires
        T::valid(lr),
        T::valid(T::counted(17)),
        divides(T::counted(20)),
    ensures
        T::product(T::counted(20), mel_rate(lr)) == T::product(T::counted(17), lr),
{
    T::closed();
    let part = T::quotient(T::counted(17), T::counted(20));
    assert(T::valid(part));
    T::product_commutes(lr, part);
    T::product_associates(T::counted(20), part, lr);
}

// ---------------------------------------------------------------------------
// Layouts
// ---------------------------------------------------------------------------

/// A layout keeps the number of gates, and touches no gate of the mel path but where it runs every
/// gate forward or takes reverse gates out; no reverse gate is left where reverse is not allowed.
pub proof fn layouts_touch_no_more(
    layout: GateLayout,
    allow_reverse: bool,
    gates: Seq<i8>,
    i: int,
)
    requires
        0 <= i < gates.len(),
    ensures
        ({
            let (mel, spec) = laid_out(layout, allow_reverse, gates);
            &&& mel.len() == gates.len()
            &&& spec.len() == gates.len()
            &&& !(layout is AllForward) && gates[i] != GateMode::Reverse.code() ==> mel[i]
                == gates[i]
            &&& !(layout is AllForward) && allow_reverse ==> mel[i] == gates[i]
            &&& layout is AllForward ==> mel[i] == GateMode::Forward.code() && spec[i]
                == GateMode::Forward.code()
            &&& layout is DualMelSpec ==> spec[i] == GateMode::Forward.code()
            &&& !(layout is DualMelSpec) ==> spec[i] == mel[i]
            &&& !allow_reverse ==> mel[i] != GateMode::Reverse.code() && spec[i]
                != GateMode::Reverse.code()
            &&& !allow_reverse && gates[i] == GateMode::Reverse.code() ==> mel[i]
                == GateMode::Forward.code()
        }),
        laid_out(layout, allow_reverse, laid_out(layout, allow_reverse, gates).0) == laid_out(
            layout,
            allow_reverse,
            gates,
        ),
{
    let (mel, spec) = laid_out(layout, allow_reverse, gates);
    let (again, spec_again) = laid_out(layout, allow_reverse, mel);
    assert(again =~= mel);
    assert(spec_again =~= spec);
}

/// The counts of two lists of gates put together are their counts added, and no more gates have a
/// value than there are.
pub proof fn gate_counts_add_up(a: Seq<i8>, b: Seq<i8>, c: i8)
    ensures
        count_code(a + b, c) == count_code(a, c) + count_code(b, c),
        count_code(a, c) <= a.len(),
        count_code(seq![c], c) == 1,
        forall|other: i8| other != c ==> #[trigger] count_code(seq![other], c) == 0,
    decreases a.len() + b.len(),
{
    reveal_with_fuel(count_code, 2);
    if a.len() > 0 {
        gate_counts_add_up(a.drop_last(), Seq::empty(), c);
    }
    if b.len() > 0 {
        gate_counts_add_up(a, b.drop_last(), c);
        assert((a + b).drop_last() =~= a + b.drop_last());
    } else {
        assert(a + b =~= a);
    }
    assert(seq![c].drop_last() =~= Seq::empty());
    assert forall|other: i8| other != c implies #[trigger] count_code(seq![other], c) == 0 by {
        assert(seq![other].drop_last() =~= Seq::empty());
    }
}

// ---------------------------------------------------------------------------
// Powers and filters
// ---------------------------------------------------------------------------

/// A spectrum with every bin turned by a quarter.
pub open spec fn quarter_turned<T: Scalar>(v: Seq<T>) -> Seq<T> {
    Seq::new(
        v.len(),
        |i: int|
            if i % 2 == 0 {
                T::opposite(v[i + 1])
            } else {
                v[i - 1]
            },
    )
}

/// The power of a bin is the square of a real one, is the same for a bin and one turned by a quarter,
/// and depends on no other bin.
pub proof fn powers_are_of_their_bins<T: Ring>(v: Seq<T>, other: Seq<T>, n_fft: int, k: int)
    requires
        all_valid(v),
        0 <= n_fft,
        0 <= k <= n_fft / 2,
        2 * k + 1 < v.len(),
        v.len() % 2 == 0,
    ensures
        v[2 * k + 1] == T::nought() ==> powers(v, n_fft)[k] == T::product(v[2 * k], v[2 * k]),
        powers(quarter_turned(v), n_fft)[k] == powers(v, n_fft)[k],
        other[2 * k] == v[2 * k] && other[2 * k + 1] == v[2 * k + 1] ==> powers(other, n_fft)[k]
            == powers(v, n_fft)[k],
        powers(v, n_fft).len() == n_fft / 2 + 1,
{
    let a = v[2 * k];
    let b = v[2 * k + 1];
    assert(T::valid(a));
    assert(T::valid(b));
    T::closed();
    lemma_product_nought(T::nought());
    let aa = T::product(a, a);
    let bb = T::product(b, b);
    T::sum_with_nought(aa);
    let ob = T::opposite(b);
    lemma_product_opposite(ob, b);
    T::product_commutes(ob, b);
    lemma_product_opposite(b, b);
    lemma_opposite_twice(bb);
    T::sum_commutes(aa, bb);
    let t = quarter_turned(v);
    assert((2 * k) % 2 == 0 && (2 * k + 1) % 2 == 1);
    assert(t[2 * k] == ob);
    assert(t[2 * k + 1] == a);
    assert(T::product(ob, ob) == bb);
}

/// What a filter lets through of two powers added is what it lets through of each, added.
pub proof fn filters_add_up<T: Ring>(
    a: Seq<T>,
    b: Seq<T>,
    both: Seq<T>,
    filters: Seq<T>,
    n_bins: int,
    n_mels: int,
    m: int,
    k: nat,
)
    requires
        all_valid(a),
        all_valid(b),
        all_valid(filters),
        filters.len() == n_mels * n_bins,
        0 <= m < n_mels,
        k <= n_bins,
        n_bins <= a.len(),
        n_bins <= b.len(),
        n_bins <= both.len(),
        forall|i: int| 0 <= i < n_bins ==> (#[trigger] both[i]) == T::sum(a[i], b[i]),
    ensures
        filtered(both, filters, n_bins, m, k) == T::sum(
            filtered(a, filters, n_bins, m, k),
            filtered(b, filters, n_bins, m, k),
        ),
        T::valid(filtered(a, filters, n_bins, m, k)),
        T::valid(filtered(b, filters, n_bins, m, k)),
    decreases k,
{
    if k == 0 {
        T::closed();
        T::sum_with_nought(T::nought());
    } else {
        let j = k - 1;
        filters_add_up(a, b, both, filters, n_bins, n_mels, m, j as nat);
        lemma_filter_place(m, j, n_bins, n_mels);
        let f = filters[m * n_bins + j];
        assert(T::valid(f));
        assert(T::valid(a[j]));
        assert(T::valid(b[j]));
        assert(both[j] == T::sum(a[j], b[j]));
        T::closed();
        T::product_distributes(f, a[j], b[j]);
        lemma_exchange(
            filtered(a, filters, n_bins, m, j as nat),
            filtered(b, filters, n_bins, m, j as nat),
            T::product(f, a[j]),
            T::product(f, b[j]),
        );
    }
}

proof fn lemma_filter_place(m: int, j: int, n_bins: int, n_mels: int)
    requires
        0 <= m < n_mels,
        0 <= j < n_bins,
    ensures
        0 <= m * n_bins + j < n_mels * n_bins,
{
    assert(m * n_bins + n_bins <= n_mels * n_bins) by (nonlinear_arith)
        requires
            m + 1 <= n_mels,
            n_bins >= 0,
    ;
    assert(0 <= m * n_bins) by (nonlinear_arith)
        requires
            m >= 0,
            n_bins >= 0,
    ;
}

/// What a filter lets through of power in one bin alone is that power times the filter's own number
/// for that bin.
pub proof fn filters_read_their_own_row<T: Ring>(
    power: Seq<T>,
    filters: Seq<T>,
    n_bins: int,
    n_mels: int,
    m: int,
    at: int,
    k: nat,
)
    requires
        all_valid(power),
        all_valid(filters),
        filters.len() == n_mels * n_bins,
        0 <= m < n_mels,
        k <= n_bins,
        n_bins <= power.len(),
        0 <= at < n_bins,
        forall|i: int| 0 <= i < n_bins && i != at ==> (#[trigger] power[i]) == T::nought(),
    ensures
        filtered(power, filters, n_bins, m, k) == if at < k {
            T::product(filters[m * n_bins + at], power[at])
        } else {
            T::nought()
        },
    decreases k,
{
    if k > 0 {
        let j = k - 1;
        filters_read_their_own_row(power, filters, n_bins, n_mels, m, at, j as nat);
        lemma_filter_place(m, j, n_bins, n_mels);
        lemma_filter_place(m, at, n_bins, n_mels);
        let f = filters[m * n_bins + j];
        assert(T::valid(f));
        assert(T::valid(filters[m * n_bins + at]));
        assert(T::valid(power[at]));
        T::closed();
        lemma_product_nought(f);
        let own = T::product(filters[m * n_bins + at], power[at]);
        T::sum_with_nought(own);
        T::sum_commutes(T::nought(), own);
        T::sum_with_nought(T::nought());
    }
}

} // verus!

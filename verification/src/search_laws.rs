//! What a search over gates keeps: limits, the gates that are not being tried, the bounds on a move,
//! and when a training run ends.

use crate::figure::{at_most, less};
use crate::fourier::Ring;
use crate::gate_logits::{gate_stepped, prior, probe_width, stepped, GateProbe};
use crate::gate_search::{opened, search_advanced, search_judged, SearchState, SearchStep, Trial};
use crate::prune_bounds::{
    bounds_by, fraction, mel_rule, spectrum_rule, trial_spectrum_bounds, BoundRule,
};
use crate::scalar::{held, Divisible, Ordered};
use crate::ternary_gates::{candidates, others, GateMode};
use crate::training::{judged_all, Convergence, ConvergenceRule, Judgement};
use crate::training_laws::{divides, lemma_taken};
use vstd::prelude::*;

verus! {

// ---------------------------------------------------------------------------
// Local search
// ---------------------------------------------------------------------------

/// A candidate becomes the best so far exactly where its loss is smaller, its mel error is within the
/// mel limit and its spectrum error is not over the spectrum limit, where that is guarded; else its
/// gate has its own value again and the best so far stands.
pub proof fn a_candidate_is_taken_within_its_limits(s: SearchState, t: Trial)
    requires
        s.open matches Some(o) && o.pending && o.gate < s.gates.len(),
    ensures
        ({
            let o = s.open->Some_0;
            let now = search_judged(s, t);
            let best = now.open->Some_0.best;
            &&& now.open is Some && !now.open->Some_0.pending
            &&& now.open->Some_0.gate == o.gate && now.open->Some_0.own == o.own
            &&& less(s.mel_limit, t.mel) ==> best == o.best
            &&& (s.rules.spectrum matches Some(limit) && less(limit, t.spectrum)) ==> best == o.best
            &&& !less(t.loss, o.best.loss) ==> best == o.best
            &&& best != o.best ==> {
                &&& at_most(t.mel, s.mel_limit)
                &&& less(t.loss, o.best.loss)
                &&& s.rules.spectrum matches Some(limit) ==> !less(limit, t.spectrum)
                &&& best.loss == t.loss && best.gate == s.gates[o.gate as int]
                &&& now.gates == s.gates
            }
            &&& at_most(t.mel, s.mel_limit) && less(t.loss, o.best.loss) && (
            s.rules.spectrum matches Some(limit) ==> !less(limit, t.spectrum)) ==> best.loss
                == t.loss && best.gate == s.gates[o.gate as int]
            &&& best == o.best && t.loss != o.best.loss ==> now.gates[o.gate as int] == o.own
            &&& forall|g: int|
                0 <= g < s.gates.len() && g != o.gate ==> (#[trigger] now.gates[g]) == s.gates[g]
            &&& now.picks == s.picks && now.rules == s.rules && now.baseline == s.baseline
                && now.mel_limit == s.mel_limit
        }),
{
}

/// Going on changes one gate at most: the open one, or the first of those still to be tried.
/// A candidate in place is another value than its gate had before, and a gate that is closed has its best
/// value.
pub proof fn a_search_changes_one_gate(s: SearchState)
    requires
        opened(s) matches Some(o) && o.gate < s.gates.len(),
    ensures
        ({
            let o = opened(s)->Some_0;
            let (now, step) = search_advanced(s);
            &&& s.open is None ==> o.gate == s.picks[0] && now.picks == s.picks.drop_first()
                && o.own == s.gates[o.gate as int] && o.best.gate == o.own && o.best.loss
                == s.baseline
            &&& s.open is Some ==> Some(o) == s.open && now.picks == s.picks
            &&& forall|g: int|
                0 <= g < s.gates.len() && g != o.gate ==> (#[trigger] now.gates[g]) == s.gates[g]
            &&& now.rules == s.rules && now.mel_limit == s.mel_limit
            &&& match step {
                SearchStep::Try { gate, value, save, refit_steps } => {
                    &&& gate == o.gate
                    &&& now.gates[gate as int] == value
                    &&& value != o.own
                    &&& now.open is Some && now.open->Some_0.pending
                    &&& now.open->Some_0.best == o.best && now.open->Some_0.own == o.own
                    &&& save ==> s.rules.corrects
                    &&& s.open is None ==> save == s.rules.corrects
                    &&& refit_steps > 0 <==> s.rules.spectrum is Some
                    &&& now.baseline == s.baseline
                },
                SearchStep::Settle { gate, value, refit_steps } => {
                    &&& gate == o.gate
                    &&& now.gates[gate as int] == value
                    &&& value == o.best.gate && value != o.own
                    &&& now.baseline == o.best.loss
                    &&& now.open is None
                    &&& refit_steps > 0 <==> s.rules.corrects
                },
                SearchStep::Keep { gate, restore } => {
                    &&& gate == o.gate
                    &&& now.gates[gate as int] == o.own
                    &&& o.best.gate == o.own
                    &&& now.baseline == s.baseline
                    &&& now.open is None
                    &&& restore == s.rules.corrects
                },
                SearchStep::Done => false,
            }
        }),
{
    let o = opened(s)->Some_0;
    candidates_are_the_others(o.own);
    let all = candidates(o.own);
    if o.tried < all.len() {
        assert(all.contains(all[o.tried as int]));
    }
}

/// The values to try in place of a gate's own are the modes other than it.
pub proof fn candidates_are_the_others(own: i8)
    ensures
        forall|c: i8|
            #[trigger] candidates(own).contains(c) <==> c != own && (c == GateMode::Skip.code()
                || c == GateMode::Forward.code() || c == GateMode::Reverse.code()),
{
    let all = seq![GateMode::Skip.code(), GateMode::Forward.code(), GateMode::Reverse.code()];
    let keep = others(own);
    assert forall|c: i8| #[trigger] candidates(own).contains(c) implies c != own && (c
        == GateMode::Skip.code() || c == GateMode::Forward.code() || c
        == GateMode::Reverse.code()) by {
        let kept = all.filter(keep);
        let i = choose|i: int| 0 <= i < kept.len() && kept[i] == c;
        all.lemma_filter_pred(keep, i);
        lemma_filtered_from(all, keep, i);
    }
    assert forall|c: i8|
        c != own && (c == GateMode::Skip.code() || c == GateMode::Forward.code() || c
            == GateMode::Reverse.code()) implies #[trigger] candidates(own).contains(c) by {
        let i: int = if c == all[0] {
            0
        } else if c == all[1] {
            1
        } else {
            2
        };
        assert(all[i] == c);
        assert(keep(all[i]));
        all.lemma_filter_contains(keep, i);
    }
}

proof fn lemma_filtered_from<A>(all: Seq<A>, keep: spec_fn(A) -> bool, i: int)
    requires
        0 <= i < all.filter(keep).len(),
    ensures
        all.contains(all.filter(keep)[i]),
    decreases all.len(),
{
    reveal(Seq::filter);
    if all.len() > 0 {
        let d = all.drop_last();
        let kept = d.filter(keep);
        if i < kept.len() {
            lemma_filtered_from(d, keep, i);
            let j = choose|j: int| 0 <= j < d.len() && d[j] == kept[i];
            assert(all[j] == kept[i]);
        } else {
            assert(all[all.len() - 1] == all.filter(keep)[i]);
        }
    }
}

// ---------------------------------------------------------------------------
// Logits
// ---------------------------------------------------------------------------

/// Twice the width of a probe.
pub open spec fn probe_span<T: Divisible>() -> T {
    T::product(T::counted(2), probe_width())
}

/// A logit moves against how the proxy of the loss rises over the span of its probe, and against its
/// prior: what it moves by, before it is held, times the span, is the rate times the rise and the
/// prior times the span.
pub proof fn logits_step_against_the_rise<T: Ring + Divisible + Ordered>(
    logit: T,
    plus: T,
    minus: T,
    k: usize,
    compute_weight: T,
    lr: T,
)
    requires
        T::valid(logit),
        T::valid(plus),
        T::valid(minus),
        T::valid(lr),
        T::valid(prior(k, compute_weight)),
        T::valid(fraction::<T>(25, 100)),
        divides(probe_span::<T>()),
    ensures
        exists|free: T|
            T::valid(free) && #[trigger] T::product(probe_span::<T>(), free) == T::product(
                lr,
                T::sum(
                    T::difference(plus, minus),
                    T::product(probe_span::<T>(), prior(k, compute_weight)),
                ),
            ) && T::difference(logit, stepped(logit, plus, minus, k, compute_weight, lr)) == held(
                free,
                T::opposite(fraction::<T>(25, 100)),
                fraction::<T>(25, 100),
            ),
{
    T::closed();
    let span = probe_span::<T>();
    let quarter = fraction::<T>(25, 100);
    let rise = T::difference(plus, minus);
    let slope = T::quotient(rise, span);
    let extra = prior(k, compute_weight);
    assert(T::valid(slope));
    let free = T::product(lr, T::sum(slope, extra));
    let kept = held(free, T::opposite(quarter), quarter);
    assert(T::valid(kept));
    lemma_taken(logit, kept);
    T::product_associates(span, lr, T::sum(slope, extra));
    T::product_commutes(span, lr);
    T::product_associates(lr, span, T::sum(slope, extra));
    T::product_distributes(span, slope, extra);
    assert(T::product(span, free) == T::product(lr, T::sum(rise, T::product(span, extra))));
}

/// The prior favours skipping by as much as it disfavours running forward, running in reverse by five
/// tenths of that, and says nothing else; without a weight it says nothing.
pub proof fn priors_favour_computing_less<T: Ring + Divisible>(compute_weight: T, k: usize)
    requires
        T::valid(compute_weight),
        T::valid(T::counted(5)),
        divides(T::counted(10)),
    ensures
        T::sum(prior(0, compute_weight), prior(1, compute_weight)) == T::nought(),
        prior(1, compute_weight) == compute_weight,
        T::product(T::counted(10), prior(2, compute_weight)) == T::product(
            T::counted(5),
            prior(1, compute_weight),
        ),
        k > 2 ==> prior(k, compute_weight) == T::nought(),
{
    T::closed();
    T::opposite_cancels(compute_weight);
    T::sum_commutes(compute_weight, T::opposite(compute_weight));
    let half = fraction::<T>(5, 10);
    assert(T::valid(half));
    T::product_commutes(compute_weight, half);
    T::product_associates(T::counted(10), half, compute_weight);
}

/// A probed gate steps alone, and its three logits each by its own proxies.
pub proof fn gates_step_alone<T: Divisible + Ordered>(
    before: Seq<[T; 3]>,
    p: GateProbe<T>,
    other: GateProbe<T>,
    compute_weight: T,
    lr: T,
    after: Seq<[T; 3]>,
    other_after: Seq<[T; 3]>,
    k: int,
)
    requires
        gate_stepped(before, p, compute_weight, lr, after),
        gate_stepped(before, other, compute_weight, lr, other_after),
        p.gate < before.len(),
        p.gate == other.gate,
        0 <= k < 3,
        p.plus@[k] == other.plus@[k],
        p.minus@[k] == other.minus@[k],
    ensures
        after[p.gate as int]@[k] == other_after[p.gate as int]@[k],
        forall|g: int| 0 <= g < before.len() && g != p.gate ==> #[trigger] after[g] == before[g],
{
}

// ---------------------------------------------------------------------------
// Bounds
// ---------------------------------------------------------------------------

/// Whether numbers are ordered strictly: none is less than itself, and no two are each less than the
/// other.
pub open spec fn strictly_ordered<T: Ordered>() -> bool {
    &&& forall|a: T| !#[trigger] T::less(a, a)
    &&& forall|a: T, b: T| #[trigger] T::less(a, b) ==> !T::less(b, a)
}

/// The hard bound of an error is never above the error and its slack. It is never above the limit
/// either, unless the limit is below the error and the margin: then it is never above these. And it
/// is one of the three. The slack is within its own bounds.
pub proof fn bounds_hold_an_error_down<T: Divisible + Ordered>(rule: BoundRule<T>, error: T, limit: T)
    requires
        strictly_ordered::<T>(),
        T::number(T::sum(error, bounds_by(rule, error, limit).slack)),
        T::number(T::sum(error, rule.margin)),
        T::number(limit),
    ensures
        ({
            let b = bounds_by(rule, error, limit);
            let reach = T::sum(error, b.slack);
            let floor = T::sum(error, rule.margin);
            &&& !T::less(reach, b.hard)
            &&& !T::less(limit, floor) ==> !T::less(limit, b.hard)
            &&& T::less(limit, floor) ==> !T::less(floor, b.hard)
            &&& b.hard == reach || b.hard == limit || b.hard == floor
            &&& T::less(reach, limit) && !T::less(limit, floor) ==> b.hard == reach
            &&& T::less(reach, floor) && T::less(limit, floor) ==> b.hard == reach
            &&& b.slack == rule.least || b.slack == rule.most || b.slack == T::sum(
                T::product(error, rule.share),
                rule.constant,
            )
            &&& !T::less(rule.most, rule.least) ==> !T::less(b.slack, rule.least) && !T::less(
                rule.most,
                b.slack,
            )
        }),
{
}

/// Where the limit is not a number, the margin stands in for it.
pub proof fn a_missing_limit_leaves_the_margin<T: Divisible + Ordered>(
    rule: BoundRule<T>,
    error: T,
    limit: T,
    other: T,
)
    requires
        !T::number(limit),
        !T::number(other),
    ensures
        bounds_by(rule, error, limit) == bounds_by(rule, error, other),
        T::number(T::sum(error, rule.margin)) ==> bounds_by(rule, error, limit) == bounds_by(
            rule,
            error,
            T::sum(error, rule.margin),
        ),
{
}

/// While gates are tried the spectrum error may come to two, and rise by a half, at least; it is held
/// no tighter than without that.
pub proof fn trials_loosen_the_spectrum<T: Divisible + Ordered>(error: T, limit: T)
    requires
        strictly_ordered::<T>(),
        T::number(T::counted(2)),
        T::number(fraction::<T>(5, 10)),
    ensures
        ({
            let b = bounds_by(spectrum_rule(), error, limit);
            let t = trial_spectrum_bounds(error, limit);
            &&& !T::less(t.hard, T::counted(2))
            &&& !T::less(t.slack, fraction::<T>(5, 10))
            &&& T::number(b.hard) ==> !T::less(t.hard, b.hard)
            &&& T::number(b.slack) ==> !T::less(t.slack, b.slack)
            &&& t.hard == T::counted(2) || t.hard == b.hard
            &&& t.slack == fraction::<T>(5, 10) || t.slack == b.slack
        }),
{
}

/// The rules of mel errors are the same against the targets and against the reference, but for the
/// margin, which is wider against the reference by three hundredths.
pub proof fn reference_errors_have_more_margin<T: Ring + Divisible>()
    requires
        divides(T::counted(100)),
        T::valid(T::counted(12)),
        T::valid(T::counted(15)),
        T::sum(T::counted(12), T::counted(3)) == T::counted(15),
        T::valid(T::counted(3)),
    ensures
        ({
            let target = mel_rule::<T>(false);
            let reference = mel_rule::<T>(true);
            &&& target.share == reference.share
            &&& target.constant == reference.constant
            &&& target.least == reference.least
            &&& target.most == reference.most
            &&& T::product(T::counted(100), reference.margin) == T::sum(
                T::product(T::counted(100), target.margin),
                T::product(T::counted(100), target.constant),
            )
            &&& reference.margin == reference.most
        }),
{
}

// ---------------------------------------------------------------------------
// Training runs
// ---------------------------------------------------------------------------

/// A run has not converged before as many measurements in a row as its patience have been stale.
pub proof fn patience_is_waited_for(c: Convergence, rule: ConvergenceRule, js: Seq<Judgement>)
    requires
        !c.converged,
        rule.patience > 0,
        c.stale + js.len() < rule.patience,
    ensures
        !judged_all(c, rule, js).converged,
        judged_all(c, rule, js).stale <= c.stale + js.len(),
        judged_all(c, rule, js).step == c.step,
    decreases js.len(),
{
    if js.len() > 0 {
        patience_is_waited_for(c, rule, js.drop_last());
    }
}

/// An improvement makes a run young again, a measurement that cannot be used changes nothing, and a
/// run that has converged stays so.
pub proof fn improvements_make_a_run_young(c: Convergence, rule: ConvergenceRule, j: Judgement)
    requires
        c.stale < usize::MAX,
    ensures
        c.judged(rule, Judgement::Improved).stale == 0,
        c.judged(rule, Judgement::Unusable) == c,
        c.judged(rule, Judgement::Stale).stale == c.stale + 1,
        c.converged ==> c.judged(rule, j).converged,
        c.judged(rule, j).step == c.step,
        !c.converged && rule.patience > 0 ==> !c.judged(rule, Judgement::Improved).converged,
{
}

/// A run goes on exactly until it has converged or used up its steps, and is measured every so many
/// steps, never before the least number of steps.
pub proof fn runs_measure_at_their_pace(c: Convergence, rule: ConvergenceRule, step: usize)
    ensures
        c.running(rule) ==> c.step < rule.max_steps && !c.converged,
        c.step >= rule.max_steps ==> !c.running(rule),
        !c.converged && c.step < rule.max_steps ==> c.running(rule),
        step < rule.min_steps ==> !rule.measures(step),
        rule.every > 0 && rule.measures(step) ==> exists|n: int|
            step == #[trigger] (n * rule.every),
        rule.every > 0 && step >= rule.min_steps && step + rule.every <= usize::MAX
            ==> rule.measures(step) == rule.measures((step + rule.every) as usize),
        rule.every == 0 && step > 0 ==> !rule.measures(step),
{
    if rule.every > 0 {
        let e = rule.every as int;
        let n = step as int / e;
        vstd::arithmetic::div_mod::lemma_fundamental_div_mod(step as int, e);
        assert(e * n == n * e) by (nonlinear_arith);
        if rule.measures(step) {
            assert(step == n * rule.every);
        }
        vstd::arithmetic::div_mod::lemma_mod_add_multiples_vanish(step as int, e);
    }
}

} // verus!

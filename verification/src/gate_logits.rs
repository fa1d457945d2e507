//! A step of the logits of gates: central differences of a proxy of the loss, a prior for what
//! computes less, and a bound on every move.

use crate::arith::{greatest, least, max_usize, min_usize};
use crate::prune_bounds::{fraction, part_of};
use crate::scalar::{held, hold_within, Divisible, Ordered, Scalar};
use vstd::prelude::*;

verus! {

/// The sum of the first `k` products of two lists.
pub open spec fn product_sum<T: Scalar>(a: Seq<T>, b: Seq<T>, k: nat) -> T
    decreases k,
{
    if k == 0 {
        T::nought()
    } else {
        T::sum(product_sum(a, b, (k - 1) as nat), T::product(a[k - 1], b[k - 1]))
    }
}

/// The proxy of the loss at a spectrum: the sum of its numbers, each times its gradient, as far as
/// both go.
pub fn loss_proxy<T: Scalar>(spectrum: &Vec<T>, gradient: &Vec<T>) -> (r: T)
    ensures
        r == product_sum(
            spectrum@,
            gradient@,
            least(spectrum@.len() as int, gradient@.len() as int) as nat,
        ),
{
    let n: usize = min_usize(spectrum.len(), gradient.len());
    let mut sum = T::zero();
    let mut i: usize = 0;
    while i < n
        invariant
            i <= n,
            n <= spectrum.len(),
            n <= gradient.len(),
            sum == product_sum(spectrum@, gradient@, i as nat),
        decreases n - i,
    {
        sum = sum.plus(spectrum[i].times(gradient[i]));
        i += 1;
    }
    sum
}

/// How many gates a step probes: as many as asked for and as there are, and at least one.
pub fn probe_count(gates: usize, asked: usize) -> (r: usize)
    ensures
        r == greatest(least(asked as int, gates as int), 1),
{
    max_usize(min_usize(asked, gates), 1)
}

/// How far a logit is moved to either side to probe it: 0.005.
pub open spec fn probe_width<T: Divisible>() -> T {
    fraction(5, 1000)
}

/// A logit moved up or down by the width of a probe.
pub fn nudged<T: Divisible>(logit: T, up: bool) -> (r: T)
    ensures
        r == if up {
            T::sum(logit, probe_width())
        } else {
            T::difference(logit, probe_width())
        },
{
    let width = part_of(5, 1000);
    if up {
        logit.plus(width)
    } else {
        logit.minus(width)
    }
}

/// What the share of computing adds to the gradient of a logit: skipping is favoured, forward and, by
/// half, reverse are not.
pub open spec fn prior<T: Divisible>(k: usize, compute_weight: T) -> T {
    if k == 0 {
        T::opposite(compute_weight)
    } else if k == 1 {
        compute_weight
    } else if k == 2 {
        T::product(compute_weight, fraction(5, 10))
    } else {
        T::nought()
    }
}

/// A logit after a step, given the proxies of the loss with it moved up and down: less the rate times
/// the central difference and the prior, by at most a quarter.
pub open spec fn stepped<T: Divisible + Ordered>(
    logit: T,
    plus: T,
    minus: T,
    k: usize,
    compute_weight: T,
    lr: T,
) -> T {
    let slope = T::quotient(
        T::difference(plus, minus),
        T::product(T::counted(2), probe_width()),
    );
    let quarter = fraction(25, 100);
    T::difference(
        logit,
        held(
            T::product(lr, T::sum(slope, prior(k, compute_weight))),
            T::opposite(quarter),
            quarter,
        ),
    )
}

/// A logit after a step.
pub fn stepped_logit<T: Divisible + Ordered>(
    logit: T,
    plus: T,
    minus: T,
    k: usize,
    compute_weight: T,
    lr: T,
) -> (r: T)
    ensures
        r == stepped(logit, plus, minus, k, compute_weight, lr),
{
    let width = part_of::<T>(5, 1000);
    let slope = plus.minus(minus).over(T::count(2).times(width));
    let extra = if k == 0 {
        compute_weight.negated()
    } else if k == 1 {
        compute_weight
    } else if k == 2 {
        compute_weight.times(part_of(5, 10))
    } else {
        T::zero()
    };
    let quarter = part_of::<T>(25, 100);
    logit.minus(hold_within(lr.times(slope.plus(extra)), quarter.negated(), quarter))
}

/// The proxies of the loss with each logit of one gate moved up and down.
#[derive(Debug, Clone, Copy)]
pub struct GateProbe<T> {
    pub gate: usize,
    pub plus: [T; 3],
    pub minus: [T; 3],
}

/// Whether logits are others with those of one gate stepped.
pub open spec fn gate_stepped<T: Divisible + Ordered>(
    before: Seq<[T; 3]>,
    p: GateProbe<T>,
    compute_weight: T,
    lr: T,
    after: Seq<[T; 3]>,
) -> bool {
    &&& after.len() == before.len()
    &&& forall|g: int| 0 <= g < before.len() && g != p.gate ==> #[trigger] after[g] == before[g]
    &&& forall|k: int|
        0 <= k < 3 ==> #[trigger] after[p.gate as int]@[k] == stepped(
            before[p.gate as int]@[k],
            p.plus@[k],
            p.minus@[k],
            k as usize,
            compute_weight,
            lr,
        )
}

/// Steps the logits of one gate that has been probed; all others stay.
pub fn step_gate<T: Divisible + Ordered>(
    logits: &mut Vec<[T; 3]>,
    p: GateProbe<T>,
    compute_weight: T,
    lr: T,
)
    requires
        p.gate < old(logits)@.len(),
    ensures
        gate_stepped(old(logits)@, p, compute_weight, lr, final(logits)@),
{
    let old_row = logits[p.gate];
    let row = [
        stepped_logit(old_row[0], p.plus[0], p.minus[0], 0, compute_weight, lr),
        stepped_logit(old_row[1], p.plus[1], p.minus[1], 1, compute_weight, lr),
        stepped_logit(old_row[2], p.plus[2], p.minus[2], 2, compute_weight, lr),
    ];
    logits.set(p.gate, row);
}

} // verus!

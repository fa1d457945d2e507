//! What a training step of a transform is for: over the numbers of a ring, every twiddle moves
//! against the derivative of the squared error between what the transform gives and its targets.

use crate::butterfly::{
    as_complex, conjugated, forward_rows, inverse_rows, lemma_source_place, permuted, source_place,
    stages_of, transformed, twiddles_needed,
};
use crate::butterfly_train::{
    descended, error_gradient, gradient_start, row_progress, rows_progress, signal_rows,
    spectrum_rows, squared_error, Progress,
};
use crate::fixed_points::lemma_after_valid;
use crate::fourier::{all_valid, lemma_cancel, lemma_exchange, Ring};
use crate::gate_logits::product_sum;
use crate::gradients::{
    lemma_back, lemma_conjugated_valid, lemma_conjugation_crosses, lemma_product_sum_valid,
    lemma_slope_of, lemma_sum_times, lemma_three, raised,
};
use crate::scalar::{Divisible, Scalar};
use vstd::prelude::*;

verus! {

/// The squares of the differences between the first numbers of two lists, added.
pub open spec fn distance<T: Scalar>(a: Seq<T>, b: Seq<T>, k: nat) -> T
    decreases k,
{
    if k == 0 {
        T::nought()
    } else {
        let d = T::difference(a[k - 1], b[k - 1]);
        T::sum(distance(a, b, (k - 1) as nat), T::product(d, d))
    }
}

/// Whether numbers can be divided by one: the quotient, times it, gives a number back.
pub open spec fn divides<T: Ring + Divisible>(norm: T) -> bool {
    &&& T::valid(norm)
    &&& forall|a: T|
        T::valid(a) ==> T::valid(#[trigger] T::quotient(a, norm)) && T::product(
            norm,
            T::quotient(a, norm),
        ) == a
}

/// Whether the count of two is one and one.
pub open spec fn counts_two<T: Ring + Divisible>() -> bool {
    T::counted(2) == T::sum(T::unit(), T::unit())
}

pub(crate) proof fn lemma_distance_valid<T: Ring>(a: Seq<T>, b: Seq<T>, k: nat)
    requires
        all_valid(a),
        all_valid(b),
        k <= a.len(),
        k <= b.len(),
    ensures
        T::valid(distance(a, b, k)),
    decreases k,
{
    T::closed();
    if k > 0 {
        lemma_distance_valid(a, b, (k - 1) as nat);
        assert(T::valid(a[k - 1]) && T::valid(b[k - 1]));
    }
}

/// The distance of lists made of two pieces is that of the pieces.
pub(crate) proof fn lemma_distance_pieces<T: Ring>(p: Seq<T>, r: Seq<T>, t: Seq<T>, m: nat)
    requires
        all_valid(p),
        all_valid(r),
        all_valid(t),
        m <= r.len(),
        p.len() + m <= t.len(),
    ensures
        distance(p + r, t, p.len() + m) == T::sum(
            distance(p, t, p.len()),
            distance(r, t.skip(p.len() as int), m),
        ),
    decreases m,
{
    T::closed();
    let rest = t.skip(p.len() as int);
    assert(all_valid(rest)) by {
        assert forall|i: int| 0 <= i < rest.len() implies T::valid(#[trigger] rest[i]) by {
            assert(T::valid(t[p.len() + i]));
        }
    }
    lemma_distance_valid(p, t, p.len());
    if m == 0 {
        lemma_distance_prefix(p, r, t, p.len());
        T::sum_with_nought(distance(p, t, p.len()));
    } else {
        let k = (m - 1) as nat;
        lemma_distance_pieces(p, r, t, k);
        lemma_distance_valid(r, rest, k);
        let d = T::difference(r[m - 1], rest[m - 1]);
        assert(T::valid(r[m - 1]) && T::valid(rest[m - 1]));
        assert((p + r)[p.len() + m - 1] == r[m - 1]);
        T::sum_associates(distance(p, t, p.len()), distance(r, rest, k), T::product(d, d));
    }
}

proof fn lemma_distance_prefix<T: Scalar>(p: Seq<T>, r: Seq<T>, t: Seq<T>, k: nat)
    requires
        k <= p.len(),
    ensures
        distance(p + r, t, k) == distance(p, t, k),
    decreases k,
{
    if k > 0 {
        lemma_distance_prefix(p, r, t, (k - 1) as nat);
    }
}

/// The square of a sum.
pub(crate) proof fn lemma_square<T: Ring>(u: T, v: T)
    requires
        T::valid(u),
        T::valid(v),
    ensures
        T::product(T::sum(u, v), T::sum(u, v)) == T::sum(
            T::sum(T::product(u, u), T::product(v, v)),
            T::sum(T::product(u, v), T::product(u, v)),
        ),
{
    T::closed();
    let uu = T::product(u, u);
    let uv = T::product(u, v);
    let vv = T::product(v, v);
    lemma_sum_times(u, v, T::sum(u, v));
    T::product_distributes(u, u, v);
    T::product_distributes(v, u, v);
    T::product_commutes(v, u);
    T::sum_commutes(uv, vv);
    lemma_exchange(uu, uv, vv, uv);
}

/// Moving a number changes its squared error by twice the error times the move, and the square of
/// the move.
pub(crate) proof fn lemma_entry<T: Ring + Divisible>(o: T, moved: T, t: T, norm: T)
    requires
        T::valid(o),
        T::valid(moved),
        T::valid(t),
        divides(norm),
        counts_two::<T>(),
    ensures
        ({
            let g = T::quotient(T::product(T::counted(2), T::difference(o, t)), norm);
            let was = T::difference(o, t);
            let is = T::difference(moved, t);
            let step = T::difference(moved, o);
            T::sum(T::product(is, is), T::product(norm, T::product(g, o))) == T::sum(
                T::sum(T::product(was, was), T::product(step, step)),
                T::product(norm, T::product(g, moved)),
            )
        }),
{
    T::closed();
    let u = T::difference(o, t);
    let v = T::difference(moved, o);
    let two = T::counted(2);
    let twice = T::product(two, u);
    let g = T::quotient(twice, norm);
    assert(T::valid(two));
    T::product_associates(norm, g, o);
    T::product_associates(norm, g, moved);
    assert(T::product(norm, g) == twice);
    // Twice the error is the error and the error.
    lemma_sum_times(T::unit(), T::unit(), u);
    T::product_commutes(T::unit(), u);
    T::product_with_unit(u);
    assert(twice == T::sum(u, u));
    // The new error is the old one and the move.
    lemma_back(moved, o);
    T::difference_adds_the_opposite(moved, t);
    T::difference_adds_the_opposite(o, t);
    T::sum_associates(v, o, T::opposite(t));
    T::sum_commutes(u, v);
    assert(T::sum(u, v) == T::difference(moved, t));
    lemma_square(u, v);
    // What the move adds to the paired number.
    T::product_distributes(twice, o, v);
    T::sum_commutes(o, v);
    lemma_sum_times(u, u, v);
    let uv = T::product(u, v);
    let both = T::sum(uv, uv);
    let squares = T::sum(T::product(u, u), T::product(v, v));
    let base = T::product(twice, o);
    T::sum_associates(squares, both, base);
    T::sum_commutes(both, base);
}

/// Moving the numbers of a row changes their squared error by their pairing with the gradient and
/// the squares of the moves.
pub(crate) proof fn lemma_row_error<T: Ring + Divisible>(
    o: Seq<T>,
    moved: Seq<T>,
    t: Seq<T>,
    g: Seq<T>,
    norm: T,
    m: nat,
)
    requires
        all_valid(o),
        all_valid(moved),
        all_valid(t),
        all_valid(g),
        m <= o.len(),
        m <= moved.len(),
        m <= t.len(),
        m <= g.len(),
        forall|j: int|
            0 <= j < m ==> #[trigger] g[j] == T::quotient(
                T::product(T::counted(2), T::difference(o[j], t[j])),
                norm,
            ),
        divides(norm),
        counts_two::<T>(),
    ensures
        T::sum(distance(moved, t, m), T::product(norm, product_sum(g, o, m))) == T::sum(
            T::sum(distance(o, t, m), distance(moved, o, m)),
            T::product(norm, product_sum(g, moved, m)),
        ),
    decreases m,
{
    T::closed();
    if m == 0 {
        T::sum_with_nought(T::nought());
    } else {
        let k = (m - 1) as nat;
        lemma_row_error(o, moved, t, g, norm, k);
        lemma_distance_valid(moved, t, k);
        lemma_distance_valid(o, t, k);
        lemma_distance_valid(moved, o, k);
        lemma_product_sum_valid(g, o, k);
        lemma_product_sum_valid(g, moved, k);
        assert(T::valid(o[m - 1]) && T::valid(moved[m - 1]) && T::valid(t[m - 1]) && T::valid(
            g[m - 1],
        ));
        lemma_entry(o[m - 1], moved[m - 1], t[m - 1], norm);
        let is = T::difference(moved[m - 1], t[m - 1]);
        let was = T::difference(o[m - 1], t[m - 1]);
        let step = T::difference(moved[m - 1], o[m - 1]);
        let po = T::product(g[m - 1], o[m - 1]);
        let pm = T::product(g[m - 1], moved[m - 1]);
        let a = distance(moved, t, k);
        let b = T::product(norm, product_sum(g, o, k));
        T::product_distributes(norm, product_sum(g, o, k), po);
        T::product_distributes(norm, product_sum(g, moved, k), pm);
        lemma_exchange(a, T::product(is, is), b, T::product(norm, po));
        let x = T::sum(distance(o, t, k), distance(moved, o, k));
        let y = T::product(norm, product_sum(g, moved, k));
        let xs = T::sum(T::product(was, was), T::product(step, step));
        lemma_exchange(x, y, xs, T::product(norm, pm));
        lemma_exchange(
            distance(o, t, k),
            distance(moved, o, k),
            T::product(was, was),
            T::product(step, step),
        );
    }
}

/// A row joins a batch.
pub(crate) proof fn lemma_join<T: Ring>(
    e1: T,
    e0: T,
    s0: T,
    p: T,
    d1: T,
    d0: T,
    s1: T,
    x: T,
    y: T,
    q: T,
)
    requires
        T::valid(e1),
        T::valid(e0),
        T::valid(s0),
        T::valid(p),
        T::valid(d1),
        T::valid(d0),
        T::valid(s1),
        T::valid(x),
        T::valid(y),
        T::valid(q),
        e1 == T::sum(T::sum(e0, s0), p),
        T::sum(d1, x) == T::sum(T::sum(d0, s1), y),
        T::sum(y, p) == T::sum(x, q),
    ensures
        T::sum(e1, d1) == T::sum(T::sum(T::sum(e0, d0), T::sum(s0, s1)), q),
{
    T::closed();
    let es = T::sum(e0, s0);
    let ds = T::sum(d0, s1);
    let all = T::sum(T::sum(e0, d0), T::sum(s0, s1));
    T::sum_associates(e1, d1, x);
    lemma_exchange(es, p, ds, y);
    lemma_exchange(e0, s0, d0, s1);
    T::sum_commutes(p, y);
    T::sum_commutes(x, q);
    T::sum_associates(all, q, x);
    let left = T::sum(e1, d1);
    let right = T::sum(all, q);
    assert(T::sum(left, x) == T::sum(right, x));
    T::sum_commutes(left, x);
    T::sum_commutes(right, x);
    lemma_cancel(x, left, right);
}

// ---------------------------------------------------------------------------
// Rows of a batch
// ---------------------------------------------------------------------------

/// What a transform gives for a row, conjugated where it is an inverse one.
spec fn row_out<T: Scalar>(input: Seq<T>, tw: Seq<T>, n_fft: usize, conj: bool) -> Seq<T> {
    gradient_start(transformed(input, tw, n_fft), n_fft as int, conj)
}

spec fn rows_out<T: Scalar>(
    inputs: spec_fn(int) -> Seq<T>,
    tw: Seq<T>,
    n_fft: usize,
    conj: bool,
    k: nat,
) -> Seq<T>
    decreases k,
{
    if k == 0 {
        Seq::empty()
    } else {
        rows_out(inputs, tw, n_fft, conj, (k - 1) as nat) + row_out(inputs(k - 1), tw, n_fft, conj)
    }
}

pub(crate) proof fn lemma_permuted_valid<T: Ring>(v: Seq<T>, n_fft: usize)
    requires
        v.len() == 2 * n_fft,
        all_valid(v),
    ensures
        all_valid(permuted(v, n_fft)),
        permuted(v, n_fft).len() == 2 * n_fft,
{
    let p = permuted(v, n_fft);
    assert forall|i: int| 0 <= i < p.len() implies T::valid(#[trigger] p[i]) by {
        lemma_source_place(i / 2, n_fft);
        assert(T::valid(v[source_place(i / 2, n_fft) * 2 + i % 2]));
    }
}

pub(crate) proof fn lemma_transformed_valid<T: Ring>(input: Seq<T>, tw: Seq<T>, n_fft: usize)
    requires
        n_fft > 0,
        input.len() == 2 * n_fft,
        all_valid(input),
        tw.len() >= twiddles_needed(n_fft),
        all_valid(tw),
    ensures
        all_valid(transformed(input, tw, n_fft)),
        transformed(input, tw, n_fft).len() == 2 * n_fft,
{
    lemma_permuted_valid(input, n_fft);
    lemma_after_valid(permuted(input, n_fft), tw, n_fft, stages_of(n_fft));
}

proof fn lemma_row_out_valid<T: Ring>(input: Seq<T>, tw: Seq<T>, n_fft: usize, conj: bool)
    requires
        n_fft > 0,
        input.len() == 2 * n_fft,
        all_valid(input),
        tw.len() >= twiddles_needed(n_fft),
        all_valid(tw),
    ensures
        all_valid(row_out(input, tw, n_fft, conj)),
        row_out(input, tw, n_fft, conj).len() == 2 * n_fft,
{
    lemma_transformed_valid(input, tw, n_fft);
    lemma_conjugated_valid(transformed(input, tw, n_fft), n_fft as int);
}

pub(crate) proof fn lemma_squared_error<T: Ring>(loss: T, buf: Seq<T>, target: Seq<T>, from: int, k: nat)
    requires
        T::valid(loss),
        all_valid(buf),
        all_valid(target),
        0 <= from,
        k <= buf.len(),
        from + k <= target.len(),
    ensures
        squared_error(loss, buf, target, from, k) == T::sum(
            loss,
            distance(buf, target.skip(from), k),
        ),
    decreases k,
{
    T::closed();
    if k == 0 {
        T::sum_with_nought(loss);
    } else {
        lemma_squared_error(loss, buf, target, from, (k - 1) as nat);
        let rest = target.skip(from);
        assert(all_valid(rest)) by {
            assert forall|i: int| 0 <= i < rest.len() implies T::valid(#[trigger] rest[i]) by {
                assert(T::valid(target[from + i]));
            }
        }
        lemma_distance_valid(buf, rest, (k - 1) as nat);
        assert(T::valid(buf[k - 1]) && T::valid(target[from + k - 1]));
        let d = T::difference(buf[k - 1], target[from + k - 1]);
        T::sum_associates(loss, distance(buf, rest, (k - 1) as nat), T::product(d, d));
    }
}

proof fn lemma_concat_valid<T: Ring>(a: Seq<T>, b: Seq<T>)
    requires
        all_valid(a),
        all_valid(b),
    ensures
        all_valid(a + b),
{
    assert forall|i: int| 0 <= i < (a + b).len() implies T::valid(#[trigger] (a + b)[i]) by {
        if i < a.len() {
            assert(T::valid(a[i]));
        } else {
            assert(T::valid(b[i - a.len()]));
        }
    }
}

/// What one row adds: its gradient, paired with what the row gives, changes by the change of the sum.
proof fn lemma_row_slope<T: Ring + Divisible>(
    before: Progress<T>,
    input: Seq<T>,
    targets: Seq<T>,
    from: int,
    tw: Seq<T>,
    n_fft: usize,
    norm: T,
    conj: bool,
    i: int,
    h: T,
)
    requires
        n_fft > 0,
        input.len() == 2 * n_fft,
        all_valid(input),
        tw.len() >= twiddles_needed(n_fft),
        all_valid(tw),
        all_valid(targets),
        0 <= from,
        from + 2 * n_fft <= targets.len(),
        before.grads.len() == twiddles_needed(n_fft),
        all_valid(before.grads),
        divides(norm),
        counts_two::<T>(),
        T::valid(h),
        0 <= i < twiddles_needed(n_fft),
    ensures
        ({
            let o = row_out(input, tw, n_fft, conj);
            let moved = row_out(input, raised(tw, i, h), n_fft, conj);
            let g = error_gradient(o, targets, from, norm);
            let after = row_progress(before, input, targets, from, tw, n_fft, norm, conj);
            &&& T::sum(
                product_sum(g, moved, (2 * n_fft) as nat),
                T::product(h, before.grads[i]),
            ) == T::sum(
                product_sum(g, o, (2 * n_fft) as nat),
                T::product(h, after.grads[i]),
            )
            &&& all_valid(g)
            &&& all_valid(after.grads)
            &&& after.grads.len() == twiddles_needed(n_fft)
        }),
{
    T::closed();
    let n = n_fft as int;
    let start = permuted(input, n_fft);
    let more = raised(tw, i, h);
    assert(all_valid(more)) by {
        assert(T::valid(tw[i]));
    }
    lemma_permuted_valid(input, n_fft);
    lemma_row_out_valid(input, tw, n_fft, conj);
    lemma_transformed_valid(input, tw, n_fft);
    lemma_transformed_valid(input, more, n_fft);
    let y = transformed(input, tw, n_fft);
    let z = transformed(input, more, n_fft);
    let o = row_out(input, tw, n_fft, conj);
    let g = error_gradient(o, targets, from, norm);
    assert forall|j: int| 0 <= j < g.len() implies T::valid(#[trigger] g[j]) by {
        assert(T::valid(o[j]) && T::valid(targets[from + j]));
        assert(T::valid(T::product(T::counted(2), T::difference(o[j], targets[from + j]))));
    }
    let grad = gradient_start(g, n, conj);
    lemma_conjugated_valid(g, n);
    lemma_slope_of(grad, before.grads, start, tw, i, h, n_fft);
    if conj {
        lemma_conjugation_crosses(g, y, n, (2 * n_fft) as nat);
        lemma_conjugation_crosses(g, z, n, (2 * n_fft) as nat);
    }
}

proof fn lemma_batch<T: Ring + Divisible>(
    inputs: spec_fn(int) -> Seq<T>,
    targets: Seq<T>,
    tw: Seq<T>,
    n_fft: usize,
    norm: T,
    conj: bool,
    i: int,
    h: T,
    k: nat,
)
    requires
        n_fft > 0,
        forall|r: int| 0 <= r < k ==> (#[trigger] inputs(r)).len() == 2 * n_fft && all_valid(inputs(r)),
        tw.len() >= twiddles_needed(n_fft),
        all_valid(tw),
        all_valid(targets),
        k * (2 * n_fft) <= targets.len(),
        divides(norm),
        counts_two::<T>(),
        T::valid(h),
        0 <= i < twiddles_needed(n_fft),
    ensures
        ({
            let a = rows_out(inputs, tw, n_fft, conj, k);
            let b = rows_out(inputs, raised(tw, i, h), n_fft, conj, k);
            let m = (k * (2 * n_fft)) as nat;
            let p = rows_progress(inputs, targets, tw, n_fft, norm, conj, k);
            &&& a.len() == m
            &&& b.len() == m
            &&& all_valid(a)
            &&& all_valid(b)
            &&& p.loss == distance(a, targets, m)
            &&& p.grads.len() == twiddles_needed(n_fft)
            &&& all_valid(p.grads)
            &&& distance(b, targets, m) == T::sum(
                T::sum(distance(a, targets, m), distance(b, a, m)),
                T::product(norm, T::product(h, p.grads[i])),
            )
        }),
    decreases k,
{
    T::closed();
    let more = raised(tw, i, h);
    assert(all_valid(more)) by {
        assert(T::valid(tw[i]));
    }
    if k == 0 {
        assert(0 * (2 * n_fft) == 0);
        crate::fourier::lemma_product_nought(h);
        crate::fourier::lemma_product_nought(norm);
        T::sum_with_nought(T::nought());
    } else {
        let q = (k - 1) as nat;
        let two = (2 * n_fft) as nat;
        assert(k * two == q * two + two) by (nonlinear_arith)
            requires
                k == q + 1,
        ;
        lemma_batch(inputs, targets, tw, n_fft, norm, conj, i, h, q);
        let a = rows_out(inputs, tw, n_fft, conj, q);
        let b = rows_out(inputs, more, n_fft, conj, q);
        let before = rows_progress(inputs, targets, tw, n_fft, norm, conj, q);
        let input = inputs(k - 1);
        assert(input.len() == 2 * n_fft && all_valid(input));
        let from = q * two;
        assert((k - 1) * (2 * n_fft) == from);
        lemma_row_slope(before, input, targets, from as int, tw, n_fft, norm, conj, i, h);
        let o = row_out(input, tw, n_fft, conj);
        let moved = row_out(input, more, n_fft, conj);
        lemma_row_out_valid(input, tw, n_fft, conj);
        lemma_row_out_valid(input, more, n_fft, conj);
        let g = error_gradient(o, targets, from as int, norm);
        let t = targets.skip(from as int);
        assert(all_valid(t)) by {
            assert forall|j: int| 0 <= j < t.len() implies T::valid(#[trigger] t[j]) by {
                assert(T::valid(targets[from + j]));
            }
        }
        lemma_row_error(o, moved, t, g, norm, two);
        lemma_concat_valid(a, o);
        lemma_concat_valid(b, moved);
        lemma_distance_pieces(a, o, targets, two);
        lemma_distance_pieces(b, moved, targets, two);
        lemma_distance_pieces(b, moved, a + o, two);
        assert((a + o).skip(b.len() as int) =~= o);
        lemma_distance_prefix_right(b, a, o, b.len());
        lemma_distance_valid(a, targets, from);
        lemma_squared_error(before.loss, o, targets, from as int, two);
        // The row joins the batch.
        let after = rows_progress(inputs, targets, tw, n_fft, norm, conj, k);
        let dm = product_sum(g, moved, two);
        let dot = product_sum(g, o, two);
        lemma_product_sum_valid(g, moved, two);
        lemma_product_sum_valid(g, o, two);
        let g0 = T::product(h, before.grads[i]);
        let g1 = T::product(h, after.grads[i]);
        assert(T::valid(before.grads[i]) && T::valid(after.grads[i]));
        T::product_distributes(norm, dm, g0);
        T::product_distributes(norm, dot, g1);
        lemma_distance_valid(b, targets, from);
        lemma_distance_valid(b, a, from);
        lemma_distance_valid(moved, t, two);
        lemma_distance_valid(o, t, two);
        lemma_distance_valid(moved, o, two);
        lemma_join(
            distance(b, targets, from),
            distance(a, targets, from),
            distance(b, a, from),
            T::product(norm, g0),
            distance(moved, t, two),
            distance(o, t, two),
            distance(moved, o, two),
            T::product(norm, dot),
            T::product(norm, dm),
            T::product(norm, g1),
        );
    }
}

proof fn lemma_distance_prefix_right<T: Scalar>(b: Seq<T>, a: Seq<T>, r: Seq<T>, k: nat)
    requires
        k <= a.len(),
    ensures
        distance(b, a + r, k) == distance(b, a, k),
    decreases k,
{
    if k > 0 {
        lemma_distance_prefix_right(b, a, r, (k - 1) as nat);
    }
}

proof fn lemma_forward_out<T: Scalar>(signal: Seq<T>, tw: Seq<T>, n_fft: usize, k: nat)
    ensures
        forward_rows(signal, tw, n_fft, k) == rows_out(
            signal_rows(signal, n_fft as int),
            tw,
            n_fft,
            false,
            k,
        ),
    decreases k,
{
    if k > 0 {
        lemma_forward_out(signal, tw, n_fft, (k - 1) as nat);
    }
}

proof fn lemma_inverse_out<T: Scalar>(spectrum: Seq<T>, tw: Seq<T>, n_fft: usize, k: nat)
    ensures
        inverse_rows(spectrum, tw, n_fft, k) == rows_out(
            spectrum_rows(spectrum, n_fft as int),
            tw,
            n_fft,
            true,
            k,
        ),
    decreases k,
{
    if k > 0 {
        lemma_inverse_out(spectrum, tw, n_fft, (k - 1) as nat);
        assert((k - 1) + 1 == k);
    }
}

pub(crate) proof fn lemma_signal_row<T: Ring>(signal: Seq<T>, n_fft: usize, batch: nat, r: int)
    requires
        n_fft > 0,
        all_valid(signal),
        signal.len() >= batch * n_fft,
        0 <= r < batch,
    ensures
        all_valid(as_complex(signal, r * n_fft, n_fft as int)),
{
    T::closed();
    let n = n_fft as int;
    let row = as_complex(signal, r * n, n);
    assert(r * n + n <= batch * n) by (nonlinear_arith)
        requires
            r + 1 <= batch,
            n >= 0,
    ;
    assert(0 <= r * n) by (nonlinear_arith)
        requires
            r >= 0,
            n >= 0,
    ;
    assert forall|j: int| 0 <= j < row.len() implies T::valid(#[trigger] row[j]) by {
        if j % 2 == 0 {
            assert(T::valid(signal[r * n + j / 2]));
        }
    }
}

pub(crate) proof fn lemma_spectrum_row<T: Ring>(spectrum: Seq<T>, n_fft: usize, batch: nat, r: int)
    requires
        n_fft > 0,
        all_valid(spectrum),
        spectrum.len() >= batch * (2 * n_fft),
        0 <= r < batch,
    ensures
        ({
            let row = spectrum.subrange(r * (2 * n_fft), (r + 1) * (2 * n_fft));
            &&& row.len() == 2 * n_fft
            &&& all_valid(row)
            &&& all_valid(conjugated(row, n_fft as int))
        }),
{
    let two = 2 * n_fft as int;
    assert((r + 1) * two == r * two + two) by (nonlinear_arith);
    assert(r * two + two <= batch * two) by (nonlinear_arith)
        requires
            r + 1 <= batch,
            two >= 0,
    ;
    assert(0 <= r * two) by (nonlinear_arith)
        requires
            r >= 0,
            two >= 0,
    ;
    let row = spectrum.subrange(r * two, (r + 1) * two);
    assert forall|j: int| 0 <= j < row.len() implies T::valid(#[trigger] row[j]) by {
        assert(T::valid(spectrum[r * two + j]));
    }
    lemma_conjugated_valid(row, n_fft as int);
}

// ---------------------------------------------------------------------------
// The laws
// ---------------------------------------------------------------------------

/// How a step moves one number: against the derivative of an error. Raising the number by `h` turns
/// what is given, `out`, into `moved`. Then the squared error of `moved` exceeds that of `out`, and
/// the squares of the moves, by `h` times the derivative of the error; and the step takes the number
/// down by the rate times that derivative over `norm`.
pub open spec fn descends<T: Ring + Divisible>(
    was: T,
    now: T,
    h: T,
    lr: T,
    norm: T,
    out: Seq<T>,
    moved: Seq<T>,
    targets: Seq<T>,
    count: nat,
) -> bool {
    T::product(lr, distance(moved, targets, count)) == T::sum(
        T::product(lr, T::sum(distance(out, targets, count), distance(moved, out, count))),
        T::product(norm, T::product(h, T::difference(was, now))),
    )
}

pub(crate) proof fn lemma_descends<T: Ring + Divisible>(
    was: T,
    slope: T,
    h: T,
    lr: T,
    norm: T,
    out: Seq<T>,
    moved: Seq<T>,
    targets: Seq<T>,
    count: nat,
)
    requires
        T::valid(was),
        T::valid(slope),
        T::valid(h),
        T::valid(lr),
        T::valid(norm),
        all_valid(out),
        all_valid(moved),
        all_valid(targets),
        count <= out.len(),
        count <= moved.len(),
        count <= targets.len(),
        distance(moved, targets, count) == T::sum(
            T::sum(distance(out, targets, count), distance(moved, out, count)),
            T::product(norm, T::product(h, slope)),
        ),
    ensures
        descends(
            was,
            T::difference(was, T::product(lr, slope)),
            h,
            lr,
            norm,
            out,
            moved,
            targets,
            count,
        ),
{
    T::closed();
    lemma_distance_valid(out, targets, count);
    lemma_distance_valid(moved, out, count);
    let base = T::sum(distance(out, targets, count), distance(moved, out, count));
    let e = T::product(norm, T::product(h, slope));
    T::product_distributes(lr, base, e);
    let step = T::product(lr, slope);
    let now = T::difference(was, step);
    // What was taken away is the difference.
    lemma_taken(was, step);
    // The rate moves to the slope.
    T::product_associates(lr, norm, T::product(h, slope));
    T::product_commutes(lr, norm);
    T::product_associates(norm, lr, T::product(h, slope));
    lemma_three(lr, h, slope);
    T::product_commutes(lr, h);
    T::product_associates(h, lr, slope);
}

/// What a difference takes away.
pub(crate) proof fn lemma_taken<T: Ring>(a: T, b: T)
    requires
        T::valid(a),
        T::valid(b),
    ensures
        T::difference(a, T::difference(a, b)) == b,
{
    T::closed();
    let d = T::difference(a, b);
    lemma_back(a, b);
    T::sum_commutes(d, b);
    lemma_back(b, d);
}

/// A step of training a forward transform moves every twiddle against the derivative of the squared
/// error between the spectra that the transform gives and their targets: whichever number of a
/// twiddle is raised, by whatever amount. The loss is that error over the number of rows.
pub proof fn forward_training_descends<T: Ring + Divisible>(
    signal: Seq<T>,
    targets: Seq<T>,
    tw: Seq<T>,
    batch: usize,
    n_fft: usize,
    lr: T,
    i: int,
    h: T,
)
    requires
        n_fft > 0,
        signal.len() >= batch * n_fft,
        all_valid(signal),
        targets.len() >= batch * (2 * n_fft),
        all_valid(targets),
        tw.len() >= twiddles_needed(n_fft),
        all_valid(tw),
        divides(T::counted((batch * n_fft * 2) as usize)),
        divides(T::counted(batch)),
        counts_two::<T>(),
        T::valid(lr),
        T::valid(h),
        0 <= i < twiddles_needed(n_fft),
    ensures
        ({
            let norm = T::counted((batch * n_fft * 2) as usize);
            let rows = batch as nat;
            let p = rows_progress(
                signal_rows(signal, n_fft as int),
                targets,
                tw,
                n_fft,
                norm,
                false,
                rows,
            );
            let trained = descended(tw, p.grads, lr);
            let out = forward_rows(signal, tw, n_fft, rows);
            let moved = forward_rows(signal, raised(tw, i, h), n_fft, rows);
            let count = (batch * (2 * n_fft)) as nat;
            &&& descends(tw[i], trained[i], h, lr, norm, out, moved, targets, count)
            &&& T::product(T::counted(batch), T::quotient(p.loss, T::counted(batch))) == distance(
                out,
                targets,
                count,
            )
        }),
{
    let rows = batch as nat;
    let inputs = signal_rows(signal, n_fft as int);
    let norm = T::counted((batch * n_fft * 2) as usize);
    assert forall|r: int| 0 <= r < rows implies (#[trigger] inputs(r)).len() == 2 * n_fft
        && all_valid(inputs(r)) by {
        lemma_signal_row(signal, n_fft, rows, r);
    }
    lemma_batch(inputs, targets, tw, n_fft, norm, false, i, h, rows);
    lemma_forward_out(signal, tw, n_fft, rows);
    lemma_forward_out(signal, raised(tw, i, h), n_fft, rows);
    let p = rows_progress(inputs, targets, tw, n_fft, norm, false, rows);
    let out = forward_rows(signal, tw, n_fft, rows);
    let moved = forward_rows(signal, raised(tw, i, h), n_fft, rows);
    let count = (batch * (2 * n_fft)) as nat;
    assert(T::valid(tw[i]) && T::valid(p.grads[i]));
    lemma_distance_valid(out, targets, count);
    lemma_descends(tw[i], p.grads[i], h, lr, norm, out, moved, targets, count);
}

/// A step of training an inverse transform moves every twiddle against the derivative of the squared
/// error between the signals that the inverse transform gives and their targets: whichever number of
/// a twiddle is raised, by whatever amount. The loss is that error over the number of rows.
pub proof fn inverse_training_descends<T: Ring + Divisible>(
    spectrum: Seq<T>,
    targets: Seq<T>,
    tw: Seq<T>,
    batch: usize,
    n_fft: usize,
    lr: T,
    i: int,
    h: T,
)
    requires
        n_fft > 0,
        spectrum.len() == batch * (2 * n_fft),
        all_valid(spectrum),
        targets.len() >= batch * (2 * n_fft),
        all_valid(targets),
        tw.len() >= twiddles_needed(n_fft),
        all_valid(tw),
        divides(T::counted((batch * n_fft * 2) as usize)),
        divides(T::counted(batch)),
        counts_two::<T>(),
        T::valid(lr),
        T::valid(h),
        0 <= i < twiddles_needed(n_fft),
    ensures
        ({
            let norm = T::counted((batch * n_fft * 2) as usize);
            let rows = batch as nat;
            let p = rows_progress(
                spectrum_rows(spectrum, n_fft as int),
                targets,
                tw,
                n_fft,
                norm,
                true,
                rows,
            );
            let trained = descended(tw, p.grads, lr);
            let out = inverse_rows(spectrum, tw, n_fft, rows);
            let moved = inverse_rows(spectrum, raised(tw, i, h), n_fft, rows);
            let count = (batch * (2 * n_fft)) as nat;
            &&& descends(tw[i], trained[i], h, lr, norm, out, moved, targets, count)
            &&& T::product(T::counted(batch), T::quotient(p.loss, T::counted(batch))) == distance(
                out,
                targets,
                count,
            )
        }),
{
    let rows = batch as nat;
    let inputs = spectrum_rows(spectrum, n_fft as int);
    let norm = T::counted((batch * n_fft * 2) as usize);
    assert forall|r: int| 0 <= r < rows implies (#[trigger] inputs(r)).len() == 2 * n_fft
        && all_valid(inputs(r)) by {
        lemma_spectrum_row(spectrum, n_fft, rows, r);
    }
    lemma_batch(inputs, targets, tw, n_fft, norm, true, i, h, rows);
    lemma_inverse_out(spectrum, tw, n_fft, rows);
    lemma_inverse_out(spectrum, raised(tw, i, h), n_fft, rows);
    let p = rows_progress(inputs, targets, tw, n_fft, norm, true, rows);
    let out = inverse_rows(spectrum, tw, n_fft, rows);
    let moved = inverse_rows(spectrum, raised(tw, i, h), n_fft, rows);
    let count = (batch * (2 * n_fft)) as nat;
    assert(T::valid(tw[i]) && T::valid(p.grads[i]));
    lemma_distance_valid(out, targets, count);
    lemma_descends(tw[i], p.grads[i], h, lr, norm, out, moved, targets, count);
}

} // verus!

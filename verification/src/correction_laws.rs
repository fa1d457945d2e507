//! What the training steps of corrections are for: over the numbers of a ring, every weight and bias
//! moves against the derivative of the error.

use crate::band_correct::{corrected, tap, tap_sum, BandedCorrector};
use crate::band_train::{
    bias_gradient, differences, gradient_step, mse_result, mse_step, scaled, square_sum,
    weight_gradient,
};
use crate::deploy_graph::affine;
use crate::fourier::{all_valid, lemma_exchange, lemma_product_nought, Ring};
use crate::gate_logits::product_sum;
use crate::graph::multiplied;
use crate::gradients::{lemma_product_sum_valid, lemma_sum_times, lemma_three, raised};
use crate::mel_train::{
    at_least_one, column_mean, mask_share, mel_gradient, middle_gradient, products, routed_mask,
    stepped_bias, stepped_mask, stepped_scale, DISTILLED_MASK_TOP, ROUTED_MASK_TOP,
};
use crate::models::{mel_stepped, path_step, PathStep};
use crate::scalar::{held, Divisible, Ordered, Scalar};
use crate::spectral::{band_valid, SpectrumCorrection};
use crate::training_laws::{
    counts_two, descends, distance, divides, lemma_distance_valid, lemma_square, lemma_taken,
};
use vstd::prelude::*;

verus! {

// ---------------------------------------------------------------------------
// Mel energies
// ---------------------------------------------------------------------------

/// Whether a factor can be taken out of a product that is nought.
pub open spec fn cancels<T: Ring>(norm: T) -> bool {
    forall|x: T| T::valid(x) && #[trigger] T::product(norm, x) == T::nought() ==> x == T::nought()
}

/// Twice an error times a move.
proof fn lemma_twice<T: Ring + Divisible>(u: T, h: T, norm: T)
    requires
        T::valid(u),
        T::valid(h),
        divides(norm),
        counts_two::<T>(),
    ensures
        ({
            let g = T::quotient(T::product(T::counted(2), u), norm);
            &&& T::valid(g)
            &&& T::product(norm, g) == T::sum(u, u)
            &&& T::product(norm, T::product(h, g)) == T::sum(T::product(u, h), T::product(u, h))
        }),
{
    T::closed();
    let two = T::counted(2);
    let twice = T::product(two, u);
    let g = T::quotient(twice, norm);
    assert(T::valid(two));
    lemma_sum_times(T::unit(), T::unit(), u);
    T::product_commutes(T::unit(), u);
    T::product_with_unit(u);
    T::product_commutes(h, g);
    T::product_associates(norm, g, h);
    lemma_sum_times(u, u, h);
}

proof fn lemma_raised_distance<T: Ring + Divisible>(
    pred: Seq<T>,
    target: Seq<T>,
    p: int,
    h: T,
    norm: T,
    k: nat,
)
    requires
        all_valid(pred),
        all_valid(target),
        T::valid(h),
        0 <= p < pred.len(),
        k <= pred.len(),
        k <= target.len(),
        divides(norm),
        counts_two::<T>(),
    ensures
        ({
            let g = T::quotient(
                T::product(T::counted(2), T::difference(pred[p], target[p])),
                norm,
            );
            distance(raised(pred, p, h), target, k) == if k <= p {
                distance(pred, target, k)
            } else {
                T::sum(
                    T::sum(distance(pred, target, k), T::product(h, h)),
                    T::product(norm, T::product(h, g)),
                )
            }
        }),
    decreases k,
{
    if k > 0 {
        let j = (k - 1) as nat;
        lemma_raised_distance(pred, target, p, h, norm, j);
        lemma_distance_valid(pred, target, j);
        assert(T::valid(pred[k - 1]));
        assert(T::valid(target[k - 1]));
        T::closed();
        let base = distance(pred, target, j);
        let u = T::difference(pred[k - 1], target[k - 1]);
        let uu = T::product(u, u);
        let hh = T::product(h, h);
        if j == p {
            let moved = T::difference(T::sum(pred[p], h), target[p]);
            lemma_twice(u, h, norm);
            T::difference_adds_the_opposite(T::sum(pred[p], h), target[p]);
            T::difference_adds_the_opposite(pred[p], target[p]);
            let o = T::opposite(target[p]);
            T::sum_commutes(pred[p], h);
            T::sum_associates(h, pred[p], o);
            T::sum_commutes(h, u);
            assert(moved == T::sum(u, h));
            lemma_square(u, h);
            let both = T::sum(T::product(u, h), T::product(u, h));
            T::sum_associates(base, T::sum(uu, hh), both);
            T::sum_associates(base, uu, hh);
        } else if j > p {
            assert(T::valid(pred[p]));
            assert(T::valid(target[p]));
            let e = T::difference(pred[p], target[p]);
            lemma_twice(e, h, norm);
            let tail = T::sum(T::product(e, h), T::product(e, h));
            T::sum_associates(T::sum(base, hh), tail, uu);
            T::sum_commutes(tail, uu);
            T::sum_associates(T::sum(base, hh), uu, tail);
            T::sum_associates(base, hh, uu);
            T::sum_commutes(hh, uu);
            T::sum_associates(base, uu, hh);
        }
    }
}

/// The gradient of mel energies is the derivative of their mean squared error. Raising one energy by
/// `h` adds the square of `h` and `h` times the sum's derivative to the sum of the squares, which is
/// the mean times the count; and where an energy is at its target its gradient is nought.
pub proof fn mel_gradient_is_the_derivative<T: Ring + Divisible>(
    pred: Seq<T>,
    target: Seq<T>,
    count: usize,
    p: int,
    h: T,
)
    requires
        all_valid(pred),
        all_valid(target),
        pred.len() == count,
        target.len() == count,
        0 <= p < count,
        T::valid(h),
        divides(T::counted(count)),
        counts_two::<T>(),
    ensures
        ({
            let norm = T::counted(count);
            let g = mel_gradient(pred, target, count);
            &&& g.len() == count
            &&& distance(raised(pred, p, h), target, count as nat) == T::sum(
                T::sum(distance(pred, target, count as nat), T::product(h, h)),
                T::product(norm, T::product(h, g[p])),
            )
            &&& pred[p] == target[p] ==> T::product(norm, g[p]) == T::nought()
            &&& pred[p] == target[p] && cancels(norm) ==> g[p] == T::nought()
        }),
{
    let norm = T::counted(count);
    lemma_raised_distance(pred, target, p, h, norm, count as nat);
    assert(T::valid(pred[p]));
    assert(T::valid(target[p]));
    T::closed();
    let u = T::difference(pred[p], target[p]);
    lemma_twice(u, h, norm);
    if pred[p] == target[p] {
        T::difference_adds_the_opposite(pred[p], pred[p]);
        T::opposite_cancels(pred[p]);
        T::sum_with_nought(T::nought());
    }
}

/// The gradient of one mel energy depends on that energy and its target alone.
pub proof fn mel_gradients_stand_alone<T: Divisible>(
    pred: Seq<T>,
    target: Seq<T>,
    other: Seq<T>,
    other_target: Seq<T>,
    count: usize,
    p: int,
)
    requires
        pred.len() == count,
        target.len() == count,
        other.len() == count,
        other_target.len() == count,
        0 <= p < count,
        pred[p] == other[p],
        target[p] == other_target[p],
    ensures
        mel_gradient(pred, target, count)[p] == mel_gradient(other, other_target, count)[p],
{
}

// ---------------------------------------------------------------------------
// Moves
// ---------------------------------------------------------------------------

/// Moving numbers changes their squared error by the squares of the moves and twice the errors times
/// the moves.
proof fn lemma_moved_distance<T: Ring>(
    out: Seq<T>,
    moved: Seq<T>,
    target: Seq<T>,
    d: Seq<T>,
    k: nat,
)
    requires
        all_valid(out),
        all_valid(moved),
        all_valid(target),
        all_valid(d),
        out.len() == target.len(),
        k <= out.len(),
        k <= moved.len(),
        k <= d.len(),
        forall|p: int| 0 <= p < k ==> (#[trigger] moved[p]) == T::sum(out[p], d[p]),
    ensures
        ({
            let e = product_sum(differences(out, target), d, k);
            distance(moved, target, k) == T::sum(
                T::sum(distance(out, target, k), distance(moved, out, k)),
                T::sum(e, e),
            )
        }),
    decreases k,
{
    if k == 0 {
        T::closed();
        T::sum_with_nought(T::nought());
    } else {
        let j = (k - 1) as nat;
        lemma_moved_distance(out, moved, target, d, j);
        lemma_distance_valid(out, target, j);
        lemma_distance_valid(moved, out, j);
        lemma_differences_valid(out, target);
        lemma_product_sum_valid(differences(out, target), d, j);
        assert(T::valid(out[j as int]));
        assert(T::valid(target[j as int]));
        assert(T::valid(d[j as int]));
        assert(moved[j as int] == T::sum(out[j as int], d[j as int]));
        T::closed();
        let o = out[j as int];
        let t = target[j as int];
        let h = d[j as int];
        let u = T::difference(o, t);
        T::difference_adds_the_opposite(T::sum(o, h), t);
        T::difference_adds_the_opposite(o, t);
        T::difference_adds_the_opposite(T::sum(o, h), o);
        T::sum_commutes(o, h);
        T::sum_associates(h, o, T::opposite(t));
        T::sum_associates(h, o, T::opposite(o));
        T::opposite_cancels(o);
        T::sum_with_nought(h);
        T::sum_commutes(h, u);
        assert(T::difference(moved[j as int], t) == T::sum(u, h));
        assert(T::difference(moved[j as int], o) == h);
        lemma_square(u, h);
        let uu = T::product(u, u);
        let hh = T::product(h, h);
        let uh = T::product(u, h);
        let a = distance(out, target, j);
        let b = distance(moved, out, j);
        let e = product_sum(differences(out, target), d, j);
        assert(differences(out, target)[j as int] == u);
        lemma_exchange(T::sum(a, b), T::sum(e, e), T::sum(uu, hh), T::sum(uh, uh));
        lemma_exchange(a, b, uu, hh);
        lemma_exchange(e, e, uh, uh);
    }
}

proof fn lemma_differences_valid<T: Ring>(a: Seq<T>, b: Seq<T>)
    requires
        all_valid(a),
        all_valid(b),
        a.len() <= b.len(),
    ensures
        all_valid(differences(a, b)),
{
    assert forall|p: int| 0 <= p < a.len() implies T::valid(#[trigger] differences(a, b)[p]) by {
        assert(T::valid(a[p]));
        assert(T::valid(b[p]));
        T::closed();
    }
}

/// The products of two batches in one column, added row by row.
spec fn column<T: Scalar>(e: Seq<T>, d: Seq<T>, n: int, i: int, k: nat) -> T
    decreases k,
{
    if k == 0 {
        T::nought()
    } else {
        T::sum(
            column(e, d, n, i, (k - 1) as nat),
            T::product(e[(k - 1) * n + i], d[(k - 1) * n + i]),
        )
    }
}

proof fn lemma_place(b: int, q: int, n: int, batch: int)
    requires
        0 <= b < batch,
        0 <= q < n,
    ensures
        0 <= b * n + q < batch * n,
        (b * n + q) / n == b,
        (b * n + q) % n == q,
        (b + 1) * n == b * n + n,
        b * n + n <= batch * n,
        0 <= b * n,
{
    vstd::arithmetic::div_mod::lemma_fundamental_div_mod_converse(b * n + q, n, b, q);
    assert((b + 1) * n == b * n + n) by (nonlinear_arith);
    assert(b * n + n <= batch * n) by (nonlinear_arith)
        requires
            b + 1 <= batch,
            n >= 0,
    ;
    assert(0 <= b * n) by (nonlinear_arith)
        requires
            b >= 0,
            n >= 0,
    ;
}

/// Where only one column moves, the errors times the moves are those of that column.
proof fn lemma_one_column<T: Ring>(
    e: Seq<T>,
    d: Seq<T>,
    n: int,
    i: int,
    b: int,
    q: nat,
    batch: int,
)
    requires
        all_valid(e),
        all_valid(d),
        0 <= i < n,
        0 <= b < batch,
        q <= n,
        batch * n <= e.len(),
        batch * n <= d.len(),
        forall|p: int| 0 <= p < batch * n && p % n != i ==> (#[trigger] d[p]) == T::nought(),
    ensures
        0 <= b * n,
        (b + 1) * n == b * n + n,
        product_sum(e, d, (b * n + q) as nat) == column(
            e,
            d,
            n,
            i,
            if q <= i {
                b as nat
            } else {
                (b + 1) as nat
            },
        ),
        T::valid(product_sum(e, d, (b * n + q) as nat)),
    decreases b, q,
{
    lemma_place(b, i, n, batch);
    lemma_product_sum_valid(e, d, (b * n + q) as nat);
    if q == 0 {
        if b > 0 {
            lemma_one_column(e, d, n, i, b - 1, n as nat, batch);
        } else {
            assert(b * n == 0) by (nonlinear_arith)
                requires
                    b == 0,
            ;
        }
    } else {
        let r = (q - 1) as nat;
        lemma_one_column(e, d, n, i, b, r, batch);
        lemma_place(b, r as int, n, batch);
        let p = b * n + r;
        assert(T::valid(e[p]));
        assert(T::valid(d[p]));
        assert((b * n + q) as nat - 1 == p);
        let so_far = product_sum(e, d, p as nat);
        assert(product_sum(e, d, (b * n + q) as nat) == T::sum(
            so_far,
            T::product(e[p], d[p]),
        ));
        if r != i {
            assert(d[p] == T::nought());
            T::closed();
            lemma_product_nought(e[p]);
            T::sum_with_nought(so_far);
        }
    }
}

proof fn lemma_columns<T: Ring>(e: Seq<T>, d: Seq<T>, n: int, i: int, batch: nat)
    requires
        all_valid(e),
        all_valid(d),
        0 <= i < n,
        batch * n <= e.len(),
        batch * n <= d.len(),
        forall|p: int| 0 <= p < batch * n && p % n != i ==> (#[trigger] d[p]) == T::nought(),
    ensures
        product_sum(e, d, (batch * n) as nat) == column(e, d, n, i, batch),
{
    if batch > 0 {
        lemma_one_column(e, d, n, i, batch - 1, n as nat, batch as int);
    } else {
        assert(batch * n == 0) by (nonlinear_arith)
            requires
                batch == 0,
        ;
    }
}

// ---------------------------------------------------------------------------
// Bands
// ---------------------------------------------------------------------------

proof fn lemma_tap_valid<T: Ring>(c: BandedCorrector<T>, x: Seq<T>, base: int, i: int, k: nat)
    requires
        c.well_formed(),
        band_valid(c),
        all_valid(x),
        0 <= i < c.n_bins,
        k <= c.band_width,
        0 <= base,
        base + c.n_bins <= x.len(),
    ensures
        T::valid(tap_sum(c, x, base, i, k)),
    decreases k,
{
    if k == 0 {
        assert(T::valid(c.bias@[i]));
    } else {
        lemma_tap_valid(c, x, base, i, (k - 1) as nat);
        lemma_place(i, k - 1, c.band_width as int, c.n_bins as int);
        assert(T::valid(c.weights@[i * c.band_width + (k - 1)]));
        match tap(c.n_bins as int, c.radius as int, i, k - 1) {
            Some(j) => {
                assert(T::valid(x[base + j]));
                T::closed();
            },
            None => {},
        }
    }
}

proof fn lemma_row_of(p: int, n: int, batch: int)
    requires
        0 < n,
        0 <= p < batch * n,
    ensures
        0 <= p / n < batch,
        0 <= p % n < n,
        p == (p / n) * n + p % n,
        0 <= (p / n) * n,
        (p / n) * n + n <= batch * n,
{
    vstd::arithmetic::div_mod::lemma_fundamental_div_mod(p, n);
    vstd::arithmetic::div_mod::lemma_mod_bound(p, n);
    vstd::arithmetic::div_mod::lemma_div_pos_is_pos(p, n);
    let b = p / n;
    assert(n * b == b * n) by (nonlinear_arith);
    assert(b < batch) by (nonlinear_arith)
        requires
            p < batch * n,
            p >= b * n,
            n > 0,
    ;
    lemma_place(b, p % n, n, batch);
}

proof fn lemma_corrected_valid<T: Ring>(c: BandedCorrector<T>, x: Seq<T>, batch: nat)
    requires
        c.well_formed(),
        band_valid(c),
        all_valid(x),
        x.len() == batch * c.n_bins,
    ensures
        all_valid(corrected(c, x)),
        corrected(c, x).len() == x.len(),
{
    let n = c.n_bins as int;
    assert forall|p: int| 0 <= p < x.len() implies T::valid(#[trigger] corrected(c, x)[p]) by {
        assert(n > 0) by (nonlinear_arith)
            requires
                0 <= p < batch * n,
                n >= 0,
        ;
        lemma_row_of(p, n, batch as int);
        lemma_tap_valid(c, x, (p / n) * n, p % n, c.band_width as nat);
    }
}

/// Whether two bands are of the same size and valid.
pub open spec fn alike<T: Ring>(a: BandedCorrector<T>, b: BandedCorrector<T>) -> bool {
    &&& a.well_formed()
    &&& b.well_formed()
    &&& band_valid(a)
    &&& band_valid(b)
    &&& a.n_bins == b.n_bins
    &&& a.radius == b.radius
}

proof fn lemma_weight_moves<T: Ring>(
    c: BandedCorrector<T>,
    more: BandedCorrector<T>,
    x: Seq<T>,
    base: int,
    i: int,
    w: int,
    h: T,
    k: nat,
)
    requires
        alike(c, more),
        all_valid(x),
        T::valid(h),
        0 <= w < c.weights@.len(),
        more.bias@ == c.bias@,
        more.weights@ == raised(c.weights@, w, h),
        0 <= i < c.n_bins,
        k <= c.band_width,
        0 <= base,
        base + c.n_bins <= x.len(),
    ensures
        ({
            let bw = c.band_width as int;
            let own = tap(c.n_bins as int, c.radius as int, w / bw, w % bw);
            tap_sum(more, x, base, i, k) == if own is Some && i == w / bw && w % bw < k {
                T::sum(tap_sum(c, x, base, i, k), T::product(h, x[base + own->Some_0]))
            } else {
                tap_sum(c, x, base, i, k)
            }
        }),
    decreases k,
{
    let bw = c.band_width as int;
    let n = c.n_bins as int;
    lemma_row_of(w, bw, n);
    if k > 0 {
        let t = k - 1;
        lemma_weight_moves(c, more, x, base, i, w, h, t as nat);
        lemma_tap_valid(c, x, base, i, t as nat);
        lemma_place(i, t, bw, n);
        let at = i * bw + t;
        assert(T::valid(c.weights@[at]));
        let own = tap(n, c.radius as int, w / bw, w % bw);
        match tap(n, c.radius as int, i, t) {
            Some(j) => {
                assert(T::valid(x[base + j]));
                let a = tap_sum(c, x, base, i, t as nat);
                let term = T::product(c.weights@[at], x[base + j]);
                if at == w {
                    assert(i == w / bw && t == w % bw);
                    T::closed();
                    let hx = T::product(h, x[base + j]);
                    lemma_sum_times(c.weights@[at], h, x[base + j]);
                    T::sum_associates(a, term, hx);
                } else {
                    assert(more.weights@[at] == c.weights@[at]);
                    assert(i != w / bw || t != w % bw);
                    if own is Some && i == w / bw && w % bw < t {
                        assert(T::valid(x[base + own->Some_0]));
                        T::closed();
                        let hx = T::product(h, x[base + own->Some_0]);
                        T::sum_associates(a, hx, term);
                        T::sum_commutes(hx, term);
                        T::sum_associates(a, term, hx);
                    }
                }
            },
            None => {},
        }
    }
}

proof fn lemma_bias_moves<T: Ring>(
    c: BandedCorrector<T>,
    more: BandedCorrector<T>,
    x: Seq<T>,
    base: int,
    i: int,
    at: int,
    h: T,
    k: nat,
)
    requires
        alike(c, more),
        all_valid(x),
        T::valid(h),
        0 <= at < c.n_bins,
        more.weights@ == c.weights@,
        more.bias@ == raised(c.bias@, at, h),
        0 <= i < c.n_bins,
        k <= c.band_width,
        0 <= base,
        base + c.n_bins <= x.len(),
    ensures
        tap_sum(more, x, base, i, k) == if i == at {
            T::sum(tap_sum(c, x, base, i, k), h)
        } else {
            tap_sum(c, x, base, i, k)
        },
    decreases k,
{
    if k > 0 {
        let t = k - 1;
        lemma_bias_moves(c, more, x, base, i, at, h, t as nat);
        lemma_tap_valid(c, x, base, i, t as nat);
        lemma_place(i, t, c.band_width as int, c.n_bins as int);
        let w = c.weights@[i * c.band_width + t];
        assert(T::valid(w));
        match tap(c.n_bins as int, c.radius as int, i, t) {
            Some(j) => {
                assert(T::valid(x[base + j]));
                T::closed();
                let a = tap_sum(c, x, base, i, t as nat);
                let term = T::product(w, x[base + j]);
                T::sum_associates(a, h, term);
                T::sum_commutes(h, term);
                T::sum_associates(a, term, h);
            },
            None => {},
        }
    }
}

/// How far each corrected number moves when a weight is raised.
spec fn weight_moves<T: Scalar>(c: BandedCorrector<T>, x: Seq<T>, w: int, h: T) -> Seq<T> {
    Seq::new(
        x.len(),
        |p: int|
            {
                let n = c.n_bins as int;
                let bw = c.band_width as int;
                match tap(n, c.radius as int, w / bw, w % bw) {
                    Some(j) => if p % n == w / bw {
                        T::product(h, x[(p / n) * n + j])
                    } else {
                        T::nought()
                    },
                    None => T::nought(),
                }
            },
    )
}

/// How far each corrected number moves when a bias is raised.
spec fn bias_moves<T: Scalar>(c: BandedCorrector<T>, x: Seq<T>, at: int, h: T) -> Seq<T> {
    Seq::new(
        x.len(),
        |p: int|
            if p % (c.n_bins as int) == at {
                h
            } else {
                T::nought()
            },
    )
}

proof fn lemma_weight_column<T: Ring>(
    c: BandedCorrector<T>,
    x: Seq<T>,
    e: Seq<T>,
    w: int,
    h: T,
    batch: nat,
    k: nat,
)
    requires
        c.well_formed(),
        band_valid(c),
        all_valid(x),
        all_valid(e),
        x.len() == batch * c.n_bins,
        e.len() == batch * c.n_bins,
        T::valid(h),
        0 <= w < c.weights@.len(),
        k <= batch,
    ensures
        column(e, weight_moves(c, x, w, h), c.n_bins as int, w / (c.band_width as int), k)
            == T::product(h, weight_gradient(c, x, e, w, k)),
        T::valid(weight_gradient(c, x, e, w, k)),
    decreases k,
{
    let n = c.n_bins as int;
    let bw = c.band_width as int;
    lemma_row_of(w, bw, n);
    let i = w / bw;
    let d = weight_moves(c, x, w, h);
    if k == 0 {
        T::closed();
        lemma_product_nought(h);
    } else {
        let b = k - 1;
        lemma_weight_column(c, x, e, w, h, batch, b as nat);
        lemma_place(b, i, n, batch as int);
        let p = b * n + i;
        assert(T::valid(e[p]));
        let before = weight_gradient(c, x, e, w, b as nat);
        match tap(n, c.radius as int, i, w % bw) {
            Some(j) => {
                lemma_place(b, j, n, batch as int);
                assert(T::valid(x[b * n + j]));
                T::closed();
                let xj = x[b * n + j];
                assert(d[p] == T::product(h, xj));
                T::product_distributes(h, before, T::product(e[p], xj));
                T::product_commutes(e[p], T::product(h, xj));
                T::product_associates(h, xj, e[p]);
                T::product_commutes(xj, e[p]);
            },
            None => {
                assert(d[p] == T::nought());
                T::closed();
                lemma_product_nought(e[p]);
                T::sum_with_nought(T::product(h, before));
            },
        }
    }
}

proof fn lemma_bias_column<T: Ring>(
    c: BandedCorrector<T>,
    x: Seq<T>,
    e: Seq<T>,
    at: int,
    h: T,
    batch: nat,
    k: nat,
)
    requires
        all_valid(e),
        x.len() == batch * c.n_bins,
        e.len() == batch * c.n_bins,
        T::valid(h),
        0 <= at < c.n_bins,
        k <= batch,
    ensures
        column(e, bias_moves(c, x, at, h), c.n_bins as int, at, k) == T::product(
            h,
            bias_gradient(e, c.n_bins as int, at, k),
        ),
        T::valid(bias_gradient(e, c.n_bins as int, at, k)),
    decreases k,
{
    let n = c.n_bins as int;
    let d = bias_moves(c, x, at, h);
    if k == 0 {
        T::closed();
        lemma_product_nought(h);
    } else {
        let b = k - 1;
        lemma_bias_column(c, x, e, at, h, batch, b as nat);
        lemma_place(b, at, n, batch as int);
        let p = b * n + at;
        assert(T::valid(e[p]));
        assert(d[p] == h);
        T::closed();
        T::product_distributes(h, bias_gradient(e, n, at, b as nat), e[p]);
        T::product_commutes(e[p], h);
    }
}

/// What raising a weight does to a batch.
proof fn lemma_weight_raised<T: Ring>(
    c: BandedCorrector<T>,
    more: BandedCorrector<T>,
    x: Seq<T>,
    e: Seq<T>,
    w: int,
    h: T,
    batch: nat,
)
    requires
        alike(c, more),
        all_valid(x),
        all_valid(e),
        x.len() == batch * c.n_bins,
        e.len() == batch * c.n_bins,
        T::valid(h),
        0 <= w < c.weights@.len(),
        more.bias@ == c.bias@,
        more.weights@ == raised(c.weights@, w, h),
    ensures
        ({
            let d = weight_moves(c, x, w, h);
            &&& all_valid(d)
            &&& d.len() == x.len()
            &&& forall|p: int|
                0 <= p < x.len() ==> (#[trigger] corrected(more, x)[p]) == T::sum(
                    corrected(c, x)[p],
                    d[p],
                )
            &&& product_sum(e, d, (batch * c.n_bins) as nat) == T::product(
                h,
                weight_gradient(c, x, e, w, batch),
            )
            &&& T::valid(weight_gradient(c, x, e, w, batch))
        }),
{
    let n = c.n_bins as int;
    let bw = c.band_width as int;
    let d = weight_moves(c, x, w, h);
    lemma_row_of(w, bw, n);
    assert forall|p: int| 0 <= p < x.len() implies T::valid(#[trigger] d[p]) by {
        lemma_row_of(p, n, batch as int);
        match tap(n, c.radius as int, w / bw, w % bw) {
            Some(j) => assert(T::valid(x[(p / n) * n + j])),
            None => {},
        }
        T::closed();
    }
    assert forall|p: int| 0 <= p < x.len() implies (#[trigger] corrected(more, x)[p]) == T::sum(
        corrected(c, x)[p],
        d[p],
    ) by {
        lemma_row_of(p, n, batch as int);
        lemma_weight_moves(c, more, x, (p / n) * n, p % n, w, h, bw as nat);
        lemma_tap_valid(c, x, (p / n) * n, p % n, bw as nat);
        T::sum_with_nought(corrected(c, x)[p]);
    }
    lemma_columns(e, d, n, w / bw, batch);
    lemma_weight_column(c, x, e, w, h, batch, batch);
}

/// What raising a bias does to a batch.
proof fn lemma_bias_raised<T: Ring>(
    c: BandedCorrector<T>,
    more: BandedCorrector<T>,
    x: Seq<T>,
    e: Seq<T>,
    at: int,
    h: T,
    batch: nat,
)
    requires
        alike(c, more),
        all_valid(x),
        all_valid(e),
        x.len() == batch * c.n_bins,
        e.len() == batch * c.n_bins,
        T::valid(h),
        0 <= at < c.n_bins,
        more.weights@ == c.weights@,
        more.bias@ == raised(c.bias@, at, h),
    ensures
        ({
            let d = bias_moves(c, x, at, h);
            &&& all_valid(d)
            &&& d.len() == x.len()
            &&& forall|p: int|
                0 <= p < x.len() ==> (#[trigger] corrected(more, x)[p]) == T::sum(
                    corrected(c, x)[p],
                    d[p],
                )
            &&& product_sum(e, d, (batch * c.n_bins) as nat) == T::product(
                h,
                bias_gradient(e, c.n_bins as int, at, batch),
            )
            &&& T::valid(bias_gradient(e, c.n_bins as int, at, batch))
        }),
{
    let n = c.n_bins as int;
    let d = bias_moves(c, x, at, h);
    assert forall|p: int| 0 <= p < x.len() implies T::valid(#[trigger] d[p]) by {
        T::closed();
    }
    assert forall|p: int| 0 <= p < x.len() implies (#[trigger] corrected(more, x)[p]) == T::sum(
        corrected(c, x)[p],
        d[p],
    ) by {
        lemma_row_of(p, n, batch as int);
        lemma_bias_moves(c, more, x, (p / n) * n, p % n, at, h, c.band_width as nat);
        lemma_tap_valid(c, x, (p / n) * n, p % n, c.band_width as nat);
        T::sum_with_nought(corrected(c, x)[p]);
    }
    lemma_columns(e, d, n, at, batch);
    lemma_bias_column(c, x, e, at, h, batch, batch);
}

/// A number less twice its slope times the rate over a count has moved against the derivative.
proof fn lemma_mean_descends<T: Ring + Divisible>(
    was: T,
    slope: T,
    h: T,
    lr: T,
    norm: T,
    out: Seq<T>,
    moved: Seq<T>,
    target: Seq<T>,
    d: Seq<T>,
    count: nat,
)
    requires
        T::valid(was),
        T::valid(slope),
        T::valid(h),
        T::valid(lr),
        divides(norm),
        counts_two::<T>(),
        all_valid(out),
        all_valid(moved),
        all_valid(target),
        all_valid(d),
        out.len() == count,
        moved.len() == count,
        target.len() == count,
        d.len() == count,
        forall|p: int| 0 <= p < count ==> (#[trigger] moved[p]) == T::sum(out[p], d[p]),
        product_sum(differences(out, target), d, count) == T::product(h, slope),
    ensures
        descends(
            was,
            T::difference(
                was,
                T::quotient(T::product(T::product(lr, T::counted(2)), slope), norm),
            ),
            h,
            lr,
            norm,
            out,
            moved,
            target,
            count,
        ),
{
    lemma_moved_distance(out, moved, target, d, count);
    lemma_distance_valid(out, target, count);
    lemma_distance_valid(moved, out, count);
    T::closed();
    let two = T::counted(2);
    assert(T::valid(two));
    let base = T::sum(distance(out, target, count), distance(moved, out, count));
    let hs = T::product(h, slope);
    let both = T::sum(hs, hs);
    T::product_distributes(lr, base, both);
    let twice = T::product(T::product(lr, two), slope);
    let step = T::quotient(twice, norm);
    assert(T::valid(step));
    lemma_taken(was, step);
    // The count meets the quotient.
    T::product_commutes(h, step);
    T::product_associates(norm, step, h);
    assert(T::product(norm, T::product(h, step)) == T::product(twice, h));
    // Twice is once and once.
    T::product_associates(lr, two, slope);
    let s2 = T::product(two, slope);
    T::product_associates(lr, s2, h);
    T::product_associates(two, slope, h);
    T::product_commutes(slope, h);
    lemma_sum_times(T::unit(), T::unit(), hs);
    T::product_commutes(T::unit(), hs);
    T::product_with_unit(hs);
    assert(T::product(s2, h) == both);
}

/// A step of training a band towards a target moves every weight against the derivative of the
/// squared error between the corrected spectra and the target: whichever weight is raised, by
/// whatever amount.
pub proof fn band_weights_descend<T: Ring + Divisible>(
    before: BandedCorrector<T>,
    more: BandedCorrector<T>,
    after: BandedCorrector<T>,
    input: Seq<T>,
    target: Seq<T>,
    batch: usize,
    n_fft: usize,
    lr: T,
    r: Result<T, crate::band_train::BandError>,
    w: int,
    h: T,
)
    requires
        alike(before, more),
        all_valid(input),
        all_valid(target),
        before.n_bins == 2 * n_fft,
        batch * n_fft * 2 <= usize::MAX,
        input.len() == batch * n_fft * 2,
        target.len() == batch * n_fft * 2,
        T::valid(h),
        T::valid(lr),
        0 <= w < before.weights@.len(),
        more.bias@ == before.bias@,
        more.weights@ == raised(before.weights@, w, h),
        mse_step(before, input, target, batch, n_fft, lr, r, after),
        divides(T::counted((batch * n_fft * 2) as usize)),
        counts_two::<T>(),
    ensures
        descends(
            before.weights@[w],
            after.weights@[w],
            h,
            lr,
            T::counted((batch * n_fft * 2) as usize),
            corrected(before, input),
            corrected(more, input),
            target,
            input.len(),
        ),
{
    assert(batch * before.n_bins == batch * n_fft * 2) by (nonlinear_arith)
        requires
            before.n_bins == 2 * n_fft,
    ;
    let rows = batch as nat;
    let out = corrected(before, input);
    lemma_corrected_valid(before, input, rows);
    lemma_corrected_valid(more, input, rows);
    let e = differences(out, target);
    lemma_differences_valid(out, target);
    lemma_weight_raised(before, more, input, e, w, h, rows);
    assert(T::valid(before.weights@[w]));
    lemma_mean_descends(
        before.weights@[w],
        weight_gradient(before, input, e, w, rows),
        h,
        lr,
        T::counted((batch * n_fft * 2) as usize),
        out,
        corrected(more, input),
        target,
        weight_moves(before, input, w, h),
        input.len(),
    );
}

/// A step of training a band towards a target moves every bias against the derivative of the squared
/// error between the corrected spectra and the target.
pub proof fn band_biases_descend<T: Ring + Divisible>(
    before: BandedCorrector<T>,
    more: BandedCorrector<T>,
    after: BandedCorrector<T>,
    input: Seq<T>,
    target: Seq<T>,
    batch: usize,
    n_fft: usize,
    lr: T,
    r: Result<T, crate::band_train::BandError>,
    at: int,
    h: T,
)
    requires
        alike(before, more),
        all_valid(input),
        all_valid(target),
        before.n_bins == 2 * n_fft,
        batch * n_fft * 2 <= usize::MAX,
        input.len() == batch * n_fft * 2,
        target.len() == batch * n_fft * 2,
        T::valid(h),
        T::valid(lr),
        0 <= at < before.n_bins,
        more.weights@ == before.weights@,
        more.bias@ == raised(before.bias@, at, h),
        mse_step(before, input, target, batch, n_fft, lr, r, after),
        divides(T::counted((batch * n_fft * 2) as usize)),
        counts_two::<T>(),
    ensures
        descends(
            before.bias@[at],
            after.bias@[at],
            h,
            lr,
            T::counted((batch * n_fft * 2) as usize),
            corrected(before, input),
            corrected(more, input),
            target,
            input.len(),
        ),
{
    assert(batch * before.n_bins == batch * n_fft * 2) by (nonlinear_arith)
        requires
            before.n_bins == 2 * n_fft,
    ;
    let rows = batch as nat;
    let out = corrected(before, input);
    lemma_corrected_valid(before, input, rows);
    lemma_corrected_valid(more, input, rows);
    let e = differences(out, target);
    lemma_differences_valid(out, target);
    lemma_bias_raised(before, more, input, e, at, h, rows);
    assert(T::valid(before.bias@[at]));
    lemma_mean_descends(
        before.bias@[at],
        bias_gradient(e, before.n_bins as int, at, rows),
        h,
        lr,
        T::counted((batch * n_fft * 2) as usize),
        out,
        corrected(more, input),
        target,
        bias_moves(before, input, at, h),
        input.len(),
    );
}

/// What a step of training a band tells is the mean of the squared differences between the corrected
/// spectra and the target.
pub proof fn band_loss_is_the_error<T: Ring + Divisible>(
    before: BandedCorrector<T>,
    input: Seq<T>,
    target: Seq<T>,
    batch: usize,
    n_fft: usize,
)
    requires
        before.well_formed(),
        band_valid(before),
        all_valid(input),
        all_valid(target),
        before.n_bins == 2 * n_fft,
        batch * n_fft * 2 <= usize::MAX,
        input.len() == batch * n_fft * 2,
        target.len() == batch * n_fft * 2,
        divides(T::counted((batch * n_fft * 2) as usize)),
    ensures
        mse_result(before, input, target, batch, n_fft) matches Ok(loss) && T::product(
            T::counted((batch * n_fft * 2) as usize),
            loss,
        ) == distance(corrected(before, input), target, input.len()),
{
    assert(batch * before.n_bins == batch * n_fft * 2) by (nonlinear_arith)
        requires
            before.n_bins == 2 * n_fft,
    ;
    let out = corrected(before, input);
    lemma_corrected_valid(before, input, batch as nat);
    lemma_squares(out, target, input.len());
    lemma_distance_valid(out, target, input.len());
}

proof fn lemma_squares<T: Scalar>(a: Seq<T>, b: Seq<T>, k: nat)
    requires
        k <= a.len(),
    ensures
        square_sum(differences(a, b), k) == distance(a, b, k),
    decreases k,
{
    if k > 0 {
        lemma_squares(a, b, (k - 1) as nat);
    }
}

// ---------------------------------------------------------------------------
// Gradients from elsewhere
// ---------------------------------------------------------------------------

/// How far a step takes a number, times the count, is how much further the numbers lean along a
/// gradient, times the rate.
pub open spec fn leans_down<T: Ring + Divisible>(
    was: T,
    now: T,
    h: T,
    lr: T,
    norm: T,
    grad: Seq<T>,
    out: Seq<T>,
    moved: Seq<T>,
    count: nat,
) -> bool {
    T::product(lr, product_sum(grad, moved, count)) == T::sum(
        T::product(lr, product_sum(grad, out, count)),
        T::product(norm, T::product(h, T::difference(was, now))),
    )
}

proof fn lemma_leans_down<T: Ring + Divisible>(
    was: T,
    slope: T,
    h: T,
    lr: T,
    norm: T,
    grad: Seq<T>,
    out: Seq<T>,
    moved: Seq<T>,
    d: Seq<T>,
    count: nat,
)
    requires
        T::valid(was),
        T::valid(slope),
        T::valid(h),
        T::valid(lr),
        divides(norm),
        all_valid(grad),
        all_valid(out),
        all_valid(d),
        grad.len() == count,
        out.len() == count,
        moved.len() == count,
        d.len() == count,
        forall|p: int| 0 <= p < count ==> (#[trigger] moved[p]) == T::sum(out[p], d[p]),
        product_sum(scaled(grad, norm), d, count) == T::product(h, slope),
    ensures
        leans_down(
            was,
            T::difference(was, T::product(lr, slope)),
            h,
            lr,
            norm,
            grad,
            out,
            moved,
            count,
        ),
{
    lemma_grown_sum(grad, out, moved, d, count);
    lemma_scaled_sum(grad, norm, d, count);
    lemma_product_sum_valid(grad, out, count);
    T::closed();
    let base = product_sum(grad, out, count);
    let hs = T::product(h, slope);
    let e = T::product(norm, hs);
    T::product_distributes(lr, base, e);
    let step = T::product(lr, slope);
    lemma_taken(was, step);
    T::product_associates(lr, norm, hs);
    T::product_commutes(lr, norm);
    T::product_associates(norm, lr, hs);
    lemma_three(lr, h, slope);
    T::product_commutes(lr, h);
    T::product_associates(h, lr, slope);
}

proof fn lemma_grown_sum<T: Ring>(
    grad: Seq<T>,
    out: Seq<T>,
    moved: Seq<T>,
    d: Seq<T>,
    k: nat,
)
    requires
        all_valid(grad),
        all_valid(out),
        all_valid(d),
        k <= grad.len(),
        k <= out.len(),
        k <= moved.len(),
        k <= d.len(),
        forall|p: int| 0 <= p < k ==> (#[trigger] moved[p]) == T::sum(out[p], d[p]),
    ensures
        product_sum(grad, moved, k) == T::sum(
            product_sum(grad, out, k),
            product_sum(grad, d, k),
        ),
    decreases k,
{
    if k == 0 {
        T::closed();
        T::sum_with_nought(T::nought());
    } else {
        let j = (k - 1) as nat;
        lemma_grown_sum(grad, out, moved, d, j);
        lemma_product_sum_valid(grad, out, j);
        lemma_product_sum_valid(grad, d, j);
        let p = j as int;
        assert(T::valid(grad[p]));
        assert(T::valid(out[p]));
        assert(T::valid(d[p]));
        assert(moved[p] == T::sum(out[p], d[p]));
        T::closed();
        T::product_distributes(grad[p], out[p], d[p]);
        lemma_exchange(
            product_sum(grad, out, j),
            product_sum(grad, d, j),
            T::product(grad[p], out[p]),
            T::product(grad[p], d[p]),
        );
    }
}

proof fn lemma_scaled_sum<T: Ring + Divisible>(grad: Seq<T>, norm: T, d: Seq<T>, k: nat)
    requires
        all_valid(grad),
        all_valid(d),
        k <= grad.len(),
        k <= d.len(),
        divides(norm),
    ensures
        T::product(norm, product_sum(scaled(grad, norm), d, k)) == product_sum(grad, d, k),
        all_valid(scaled(grad, norm)),
    decreases k,
{
    let e = scaled(grad, norm);
    assert forall|p: int| 0 <= p < e.len() implies T::valid(#[trigger] e[p]) by {
        assert(T::valid(grad[p]));
        assert(T::valid(T::quotient(grad[p], norm)));
    }
    if k == 0 {
        T::closed();
        lemma_product_nought(norm);
    } else {
        let j = (k - 1) as nat;
        lemma_scaled_sum(grad, norm, d, j);
        lemma_product_sum_valid(e, d, j);
        let p = j as int;
        assert(T::valid(grad[p]));
        assert(T::valid(d[p]));
        assert(T::valid(e[p]));
        assert(T::product(norm, T::quotient(grad[p], norm)) == grad[p]);
        T::closed();
        T::product_distributes(norm, product_sum(e, d, j), T::product(e[p], d[p]));
        T::product_associates(norm, e[p], d[p]);
    }
}

/// The count that a gradient of spectra is divided by.
pub open spec fn gradient_norm<T: Divisible>(batch: usize, n_fft: usize) -> T {
    T::counted(
        if batch * n_fft * 2 < 1 {
            1
        } else {
            (batch * n_fft * 2) as usize
        },
    )
}

/// A step of a band down a gradient of the corrected spectra moves every weight and every bias by the
/// rate times how much further the corrected spectra lean along the gradient as it is raised.
pub proof fn band_follows_a_gradient<T: Ring + Divisible>(
    before: BandedCorrector<T>,
    more: BandedCorrector<T>,
    after: BandedCorrector<T>,
    input: Seq<T>,
    spec_grad: Seq<T>,
    batch: usize,
    n_fft: usize,
    lr: T,
    at: int,
    h: T,
)
    requires
        alike(before, more),
        all_valid(input),
        all_valid(spec_grad),
        before.n_bins == 2 * n_fft,
        batch * n_fft * 2 <= usize::MAX,
        input.len() == batch * n_fft * 2,
        spec_grad.len() == batch * n_fft * 2,
        T::valid(h),
        T::valid(lr),
        gradient_step(before, input, spec_grad, batch, n_fft, lr, after),
        divides(gradient_norm::<T>(batch, n_fft)),
    ensures
        0 <= at < before.weights@.len() && more.bias@ == before.bias@ && more.weights@ == raised(
            before.weights@,
            at,
            h,
        ) ==> leans_down(
            before.weights@[at],
            after.weights@[at],
            h,
            lr,
            gradient_norm::<T>(batch, n_fft),
            spec_grad,
            corrected(before, input),
            corrected(more, input),
            input.len(),
        ),
        0 <= at < before.n_bins && more.weights@ == before.weights@ && more.bias@ == raised(
            before.bias@,
            at,
            h,
        ) ==> leans_down(
            before.bias@[at],
            after.bias@[at],
            h,
            lr,
            gradient_norm::<T>(batch, n_fft),
            spec_grad,
            corrected(before, input),
            corrected(more, input),
            input.len(),
        ),
{
    assert(batch * before.n_bins == batch * n_fft * 2) by (nonlinear_arith)
        requires
            before.n_bins == 2 * n_fft,
    ;
    let rows = batch as nat;
    let norm = gradient_norm::<T>(batch, n_fft);
    let out = corrected(before, input);
    lemma_corrected_valid(before, input, rows);
    let e = scaled(spec_grad, norm);
    lemma_scaled_sum(spec_grad, norm, spec_grad, 0);
    if 0 <= at < before.weights@.len() && more.bias@ == before.bias@ && more.weights@ == raised(
        before.weights@,
        at,
        h,
    ) {
        lemma_weight_raised(before, more, input, e, at, h, rows);
        assert(T::valid(before.weights@[at]));
        lemma_leans_down(
            before.weights@[at],
            weight_gradient(before, input, e, at, rows),
            h,
            lr,
            norm,
            spec_grad,
            out,
            corrected(more, input),
            weight_moves(before, input, at, h),
            input.len(),
        );
    }
    if 0 <= at < before.n_bins && more.weights@ == before.weights@ && more.bias@ == raised(
        before.bias@,
        at,
        h,
    ) {
        lemma_bias_raised(before, more, input, e, at, h, rows);
        assert(T::valid(before.bias@[at]));
        lemma_leans_down(
            before.bias@[at],
            bias_gradient(e, before.n_bins as int, at, rows),
            h,
            lr,
            norm,
            spec_grad,
            out,
            corrected(more, input),
            bias_moves(before, input, at, h),
            input.len(),
        );
    }
}

// ---------------------------------------------------------------------------
// Gains, biases and masks
// ---------------------------------------------------------------------------

/// The count that the gradients of a batch are divided by.
pub open spec fn batch_norm<T: Divisible>(batch: nat, n: int) -> T {
    T::counted(at_least_one(batch * n))
}

/// How far each number moves when one column moves by as much in every row.
spec fn column_moves<T: Scalar>(count: nat, n: int, i: int, by: T) -> Seq<T> {
    Seq::new(
        count,
        |p: int|
            if p % n == i {
                by
            } else {
                T::nought()
            },
    )
}

proof fn lemma_even_column<T: Ring>(grad: Seq<T>, n: int, i: int, by: T, batch: nat, k: nat)
    requires
        all_valid(grad),
        grad.len() == batch * n,
        T::valid(by),
        0 <= i < n,
        k <= batch,
    ensures
        column(grad, column_moves((batch * n) as nat, n, i, by), n, i, k) == T::product(
            by,
            bias_gradient(grad, n, i, k),
        ),
        T::valid(bias_gradient(grad, n, i, k)),
    decreases k,
{
    let d = column_moves((batch * n) as nat, n, i, by);
    if k == 0 {
        T::closed();
        lemma_product_nought(by);
    } else {
        let b = k - 1;
        lemma_even_column(grad, n, i, by, batch, b as nat);
        lemma_place(b, i, n, batch as int);
        let p = b * n + i;
        assert(T::valid(grad[p]));
        assert(d[p] == by);
        T::closed();
        T::product_distributes(by, bias_gradient(grad, n, i, b as nat), grad[p]);
        T::product_commutes(grad[p], by);
    }
}

proof fn lemma_moved_column<T: Ring>(
    grad: Seq<T>,
    out: Seq<T>,
    moved: Seq<T>,
    n: int,
    i: int,
    by: T,
    batch: nat,
)
    requires
        all_valid(grad),
        all_valid(out),
        grad.len() == batch * n,
        out.len() == batch * n,
        moved.len() == batch * n,
        T::valid(by),
        0 <= i < n,
        forall|p: int|
            0 <= p < batch * n ==> (#[trigger] moved[p]) == T::sum(
                out[p],
                column_moves((batch * n) as nat, n, i, by)[p],
            ),
    ensures
        product_sum(grad, moved, (batch * n) as nat) == T::sum(
            product_sum(grad, out, (batch * n) as nat),
            T::product(by, bias_gradient(grad, n, i, batch)),
        ),
        T::valid(bias_gradient(grad, n, i, batch)),
        T::valid(product_sum(grad, out, (batch * n) as nat)),
{
    let count = (batch * n) as nat;
    let d = column_moves(count, n, i, by);
    assert forall|p: int| 0 <= p < d.len() implies T::valid(#[trigger] d[p]) by {
        T::closed();
    }
    lemma_grown_sum(grad, out, moved, d, count);
    lemma_columns(grad, d, n, i, batch);
    lemma_even_column(grad, n, i, by, batch, batch);
    lemma_product_sum_valid(grad, out, count);
}

proof fn lemma_column_step<T: Ring + Divisible>(
    was: T,
    total: T,
    x: T,
    h: T,
    lr: T,
    norm: T,
    base: T,
)
    requires
        T::valid(was),
        T::valid(total),
        T::valid(x),
        T::valid(h),
        T::valid(lr),
        T::valid(base),
        divides(norm),
    ensures
        ({
            let step = T::product(T::product(lr, T::quotient(total, norm)), x);
            &&& T::valid(step)
            &&& T::product(lr, T::sum(base, T::product(T::product(h, x), total))) == T::sum(
                T::product(lr, base),
                T::product(norm, T::product(h, T::difference(was, T::difference(was, step)))),
            )
        }),
{
    T::closed();
    let mean = T::quotient(total, norm);
    assert(T::valid(mean));
    let step = T::product(T::product(lr, mean), x);
    lemma_taken(was, step);
    let hx = T::product(h, x);
    T::product_distributes(lr, base, T::product(hx, total));
    // The mean is the total over the count.
    T::product_associates(norm, h, step);
    T::product_commutes(norm, h);
    T::product_associates(h, norm, step);
    let lm = T::product(lr, mean);
    T::product_associates(norm, lm, x);
    T::product_associates(norm, lr, mean);
    T::product_commutes(norm, lr);
    T::product_associates(lr, norm, mean);
    let lt = T::product(lr, total);
    assert(T::product(norm, step) == T::product(lt, x));
    T::product_commutes(lt, x);
    T::product_associates(h, x, lt);
    T::product_associates(hx, lr, total);
    T::product_commutes(hx, lr);
    T::product_associates(lr, hx, total);
}

/// A step of a distilled model towards mel energies takes every bias of its correction down by the
/// rate times how much further the corrected spectra lean along the gradient as the bias is raised.
pub proof fn mel_steps_lower_biases<T: Ring + Divisible>(
    input: Seq<T>,
    scale: Seq<T>,
    bias: Seq<T>,
    grad: Seq<T>,
    batch: nat,
    lr: T,
    i: int,
    h: T,
)
    requires
        all_valid(input),
        all_valid(scale),
        all_valid(bias),
        all_valid(grad),
        bias.len() == scale.len(),
        input.len() == batch * bias.len(),
        grad.len() == batch * bias.len(),
        0 <= i < bias.len(),
        T::valid(lr),
        T::valid(h),
        divides(batch_norm::<T>(batch, bias.len() as int)),
    ensures
        leans_down(
            bias[i],
            stepped_bias(bias, grad, batch, lr)[i],
            h,
            lr,
            batch_norm::<T>(batch, bias.len() as int),
            grad,
            affine(input, scale, bias),
            affine(input, scale, raised(bias, i, h)),
            grad.len(),
        ),
{
    let n = bias.len() as int;
    let norm = batch_norm::<T>(batch, n);
    let out = affine(input, scale, bias);
    let moved = affine(input, scale, raised(bias, i, h));
    let d = column_moves((batch * n) as nat, n, i, h);
    lemma_affine_valid(input, scale, bias, batch);
    assert forall|p: int| 0 <= p < batch * n implies (#[trigger] moved[p]) == T::sum(
        out[p],
        d[p],
    ) by {
        lemma_row_of(p, n, batch as int);
        let c = p % n;
        assert(T::valid(input[p]));
        assert(T::valid(scale[c]));
        assert(T::valid(bias[c]));
        T::closed();
        let m = T::product(input[p], scale[c]);
        if c == i {
            T::sum_associates(m, bias[c], h);
        } else {
            T::sum_with_nought(out[p]);
        }
    }
    lemma_moved_column(grad, out, moved, n, i, h, batch);
    assert(T::valid(bias[i]));
    T::closed();
    let total = bias_gradient(grad, n, i, batch);
    lemma_column_step(bias[i], total, T::unit(), h, lr, norm, product_sum(grad, out, grad.len()));
    T::product_with_unit(h);
    let lm = T::product(lr, T::quotient(total, norm));
    assert(T::valid(T::quotient(total, norm)));
    T::product_with_unit(lm);
}

proof fn lemma_affine_valid<T: Ring>(input: Seq<T>, scale: Seq<T>, bias: Seq<T>, batch: nat)
    requires
        all_valid(input),
        all_valid(scale),
        all_valid(bias),
        bias.len() == scale.len(),
        input.len() == batch * bias.len(),
    ensures
        all_valid(affine(input, scale, bias)),
        affine(input, scale, bias).len() == input.len(),
{
    let n = bias.len() as int;
    let out = affine(input, scale, bias);
    assert forall|p: int| 0 <= p < input.len() implies T::valid(#[trigger] out[p]) by {
        assert(n > 0) by (nonlinear_arith)
            requires
                0 <= p < batch * n,
                n >= 0,
        ;
        lemma_row_of(p, n, batch as int);
        assert(T::valid(input[p]));
        assert(T::valid(scale[p % n]));
        assert(T::valid(bias[p % n]));
        T::closed();
    }
}

/// Where the rows of a batch have the same number in a column, a step of a distilled model towards
/// mel energies takes the gain of that column down by the rate times how much further the corrected
/// spectra lean along the gradient as the gain is raised.
pub proof fn mel_steps_lower_gains<T: Ring + Divisible>(
    input: Seq<T>,
    scale: Seq<T>,
    bias: Seq<T>,
    grad: Seq<T>,
    batch: nat,
    lr: T,
    i: int,
    h: T,
)
    requires
        all_valid(input),
        all_valid(scale),
        all_valid(bias),
        all_valid(grad),
        bias.len() == scale.len(),
        batch > 0,
        input.len() == batch * scale.len(),
        grad.len() == batch * scale.len(),
        0 <= i < scale.len(),
        forall|p: int|
            0 <= p < input.len() && p % (scale.len() as int) == i ==> (#[trigger] input[p])
                == input[i],
        T::valid(lr),
        T::valid(h),
        divides(batch_norm::<T>(batch, scale.len() as int)),
    ensures
        leans_down(
            scale[i],
            stepped_scale(scale, input, grad, batch, lr)[i],
            h,
            lr,
            batch_norm::<T>(batch, scale.len() as int),
            grad,
            affine(input, scale, bias),
            affine(input, raised(scale, i, h), bias),
            grad.len(),
        ),
{
    let n = scale.len() as int;
    let norm = batch_norm::<T>(batch, n);
    let out = affine(input, scale, bias);
    let moved = affine(input, raised(scale, i, h), bias);
    lemma_place(0, i, n, batch as int);
    assert(0 * n == 0);
    let x = input[i];
    assert(T::valid(x));
    let by = T::product(h, x);
    assert(T::valid(by)) by {
        T::closed();
    }
    let d = column_moves((batch * n) as nat, n, i, by);
    lemma_affine_valid(input, scale, bias, batch);
    assert forall|p: int| 0 <= p < batch * n implies (#[trigger] moved[p]) == T::sum(
        out[p],
        d[p],
    ) by {
        lemma_row_of(p, n, batch as int);
        let c = p % n;
        assert(T::valid(input[p]));
        assert(T::valid(scale[c]));
        assert(T::valid(bias[c]));
        assert(T::valid(out[p]));
        if c == i {
            assert(input[p] == x);
            T::closed();
            let m = T::product(x, scale[c]);
            T::product_distributes(x, scale[c], h);
            T::product_commutes(x, h);
            T::sum_associates(m, by, bias[c]);
            T::sum_commutes(by, bias[c]);
            T::sum_associates(m, bias[c], by);
        } else {
            T::sum_with_nought(out[p]);
        }
    }
    lemma_moved_column(grad, out, moved, n, i, by, batch);
    assert(T::valid(scale[i]));
    let total = bias_gradient(grad, n, i, batch);
    lemma_column_step(scale[i], total, x, h, lr, norm, product_sum(grad, out, grad.len()));
}

/// A number of the mask of a distilled model moves with the gain of its column, by the share that
/// masks learn at, and is held between nought and its top.
pub proof fn masks_move_with_the_gains<T: Ring + Divisible + Ordered>(
    mask: Seq<T>,
    scale: Seq<T>,
    spectrum: Seq<T>,
    grad: Seq<T>,
    batch: nat,
    lr: T,
    i: int,
)
    requires
        mask.len() == scale.len(),
        0 <= i < mask.len(),
        T::valid(scale[i]),
        T::valid(lr),
        T::valid(spectrum[i]),
        T::valid(mask_share::<T>()),
        T::valid(column_mean(grad, mask.len() as int, i, batch)),
    ensures
        stepped_mask(mask, spectrum, grad, batch, lr)[i] == held(
            T::difference(
                mask[i],
                T::product(
                    mask_share::<T>(),
                    T::difference(scale[i], stepped_scale(scale, spectrum, grad, batch, lr)[i]),
                ),
            ),
            T::nought(),
            T::counted(DISTILLED_MASK_TOP),
        ),
{
    T::closed();
    let n = mask.len() as int;
    let mean = column_mean(grad, n, i, batch);
    let share = mask_share::<T>();
    let x = spectrum[i];
    let lm = T::product(lr, mean);
    let step = T::product(lm, x);
    lemma_taken(scale[i], step);
    T::product_associates(share, lm, x);
    T::product_associates(share, lr, mean);
    T::product_commutes(share, lr);
}

/// Whatever a step does, the numbers of a mask are never below nought and never above their top.
pub proof fn masks_are_held<T: Divisible + Ordered>(
    mask: Seq<T>,
    spectrum: Seq<T>,
    grad: Seq<T>,
    batch: nat,
    lr: T,
    i: int,
)
    requires
        0 <= i < mask.len(),
        forall|a: T| !#[trigger] T::less(a, a),
        !T::less(T::counted(2), T::nought()),
        !T::less(T::counted(4), T::nought()),
    ensures
        !T::less(stepped_mask(mask, spectrum, grad, batch, lr)[i], T::nought()),
        !T::less(T::counted(2), stepped_mask(mask, spectrum, grad, batch, lr)[i]),
        !T::less(routed_mask(mask, spectrum, grad, batch, lr)[i], T::nought()),
        !T::less(T::counted(4), routed_mask(mask, spectrum, grad, batch, lr)[i]),
        stepped_mask(mask, spectrum, grad, batch, lr).len() == mask.len(),
        routed_mask(mask, spectrum, grad, batch, lr).len() == mask.len(),
{
}

/// A batch with one column grown by a share of itself.
pub open spec fn grown<T: Scalar>(v: Seq<T>, n: int, i: int, h: T) -> Seq<T> {
    Seq::new(
        v.len(),
        |p: int|
            if p % n == i {
                T::sum(v[p], T::product(h, v[p]))
            } else {
                v[p]
            },
    )
}

proof fn lemma_product_column<T: Ring>(grad: Seq<T>, v: Seq<T>, n: int, i: int, h: T, batch: nat, k: nat)
    requires
        all_valid(grad),
        all_valid(v),
        grad.len() == batch * n,
        v.len() == batch * n,
        T::valid(h),
        0 <= i < n,
        k <= batch,
    ensures
        column(grad, own_moves(v, n, i, h), n, i, k) == T::product(
            h,
            bias_gradient(products(grad, v), n, i, k),
        ),
        T::valid(bias_gradient(products(grad, v), n, i, k)),
    decreases k,
{
    let d = own_moves(v, n, i, h);
    let both = products(grad, v);
    if k == 0 {
        T::closed();
        lemma_product_nought(h);
    } else {
        let b = k - 1;
        lemma_product_column(grad, v, n, i, h, batch, b as nat);
        lemma_place(b, i, n, batch as int);
        let p = b * n + i;
        assert(T::valid(grad[p]));
        assert(T::valid(v[p]));
        assert(d[p] == T::product(h, v[p]));
        T::closed();
        let gv = T::product(grad[p], v[p]);
        assert(both[p] == gv);
        T::product_distributes(h, bias_gradient(both, n, i, b as nat), gv);
        T::product_commutes(grad[p], d[p]);
        T::product_associates(h, v[p], grad[p]);
        T::product_commutes(v[p], grad[p]);
    }
}

spec fn own_moves<T: Scalar>(v: Seq<T>, n: int, i: int, h: T) -> Seq<T> {
    Seq::new(
        v.len(),
        |p: int|
            if p % n == i {
                T::product(h, v[p])
            } else {
                T::nought()
            },
    )
}

/// A number of a routed model's mask moves, before it is held, against how much further the masked
/// spectra lean along the gradient as their column grows by a share of itself, at the share of the
/// rate that masks learn at.
pub proof fn routed_masks_follow_the_gradient<T: Ring + Divisible + Ordered>(
    mask: Seq<T>,
    masked: Seq<T>,
    grad: Seq<T>,
    batch: nat,
    lr: T,
    i: int,
    h: T,
)
    requires
        all_valid(mask),
        all_valid(masked),
        all_valid(grad),
        masked.len() == batch * mask.len(),
        grad.len() == batch * mask.len(),
        0 <= i < mask.len(),
        T::valid(lr),
        T::valid(h),
        T::valid(mask_share::<T>()),
        divides(batch_norm::<T>(batch, mask.len() as int)),
    ensures
        ({
            let n = mask.len() as int;
            let norm = batch_norm::<T>(batch, n);
            let rate = T::product(lr, mask_share::<T>());
            exists|free: T|
                T::valid(free) && routed_mask(mask, masked, grad, batch, lr)[i] == held(
                    T::difference(mask[i], free),
                    T::nought(),
                    T::counted(ROUTED_MASK_TOP),
                ) && T::product(rate, product_sum(grad, grown(masked, n, i, h), grad.len()))
                    == T::sum(
                    T::product(rate, product_sum(grad, masked, grad.len())),
                    T::product(norm, #[trigger] T::product(h, free)),
                )
        }),
{
    let n = mask.len() as int;
    let norm = batch_norm::<T>(batch, n);
    let rate = T::product(lr, mask_share::<T>());
    let d = own_moves(masked, n, i, h);
    let moved = grown(masked, n, i, h);
    assert forall|p: int| 0 <= p < d.len() implies T::valid(#[trigger] d[p]) by {
        assert(T::valid(masked[p]));
        T::closed();
    }
    assert forall|p: int| 0 <= p < moved.len() implies (#[trigger] moved[p]) == T::sum(
        masked[p],
        d[p],
    ) by {
        assert(T::valid(masked[p]));
        T::sum_with_nought(masked[p]);
    }
    let count = grad.len();
    lemma_grown_sum(grad, masked, moved, d, count);
    lemma_columns(grad, d, n, i, batch);
    lemma_product_column(grad, masked, n, i, h, batch, batch);
    lemma_product_sum_valid(grad, masked, count);
    T::closed();
    let total = bias_gradient(products(grad, masked), n, i, batch);
    let base = product_sum(grad, masked, count);
    let free = T::quotient(T::product(rate, total), norm);
    assert(T::valid(free));
    let ht = T::product(h, total);
    T::product_distributes(rate, base, ht);
    T::product_associates(norm, h, free);
    T::product_commutes(norm, h);
    T::product_associates(h, norm, free);
    T::product_associates(h, rate, total);
    T::product_commutes(h, rate);
    T::product_associates(rate, h, total);
    assert(T::product(norm, T::product(h, free)) == T::product(rate, ht));
}

/// What a mask and the middle weights of a band make of numbers.
pub open spec fn through_the_middle<T: Scalar>(
    v: Seq<T>,
    weights: Seq<T>,
    band_width: int,
    radius: int,
    mask: Seq<T>,
) -> Seq<T> {
    Seq::new(
        v.len(),
        |p: int|
            {
                let i = p % (mask.len() as int);
                T::product(T::product(v[p], mask[i]), weights[i * band_width + radius])
            },
    )
}

/// The gradient that reaches the numbers of a routed transform is the gradient of what the mask and
/// the middle of the band make of them: whatever the numbers are, they lean along it, times the
/// count, as far as what is made of them leans along the gradient that was given.
pub proof fn middle_gradients_pass_back<T: Ring + Divisible>(
    grad: Seq<T>,
    weights: Seq<T>,
    band_width: int,
    radius: int,
    mask: Seq<T>,
    v: Seq<T>,
    k: nat,
)
    requires
        all_valid(grad),
        all_valid(weights),
        all_valid(mask),
        all_valid(v),
        0 < mask.len(),
        0 <= radius < band_width,
        weights.len() == mask.len() * band_width,
        grad.len() == v.len(),
        k <= grad.len(),
        divides(T::counted(at_least_one(grad.len() as int))),
    ensures
        T::product(
            T::counted(at_least_one(grad.len() as int)),
            product_sum(middle_gradient(grad, weights, band_width, radius, mask), v, k),
        ) == product_sum(grad, through_the_middle(v, weights, band_width, radius, mask), k),
        T::valid(product_sum(middle_gradient(grad, weights, band_width, radius, mask), v, k)),
    decreases k,
{
    let norm = T::counted(at_least_one(grad.len() as int));
    let g = middle_gradient(grad, weights, band_width, radius, mask);
    let y = through_the_middle(v, weights, band_width, radius, mask);
    if k == 0 {
        T::closed();
        lemma_product_nought(norm);
    } else {
        let p = k - 1;
        middle_gradients_pass_back(grad, weights, band_width, radius, mask, v, p as nat);
        let n = mask.len() as int;
        let i = p % n;
        vstd::arithmetic::div_mod::lemma_mod_bound(p, n);
        lemma_place(i, radius, band_width, n);
        let w = weights[i * band_width + radius];
        assert(T::valid(w));
        assert(T::valid(mask[i]));
        assert(T::valid(grad[p]));
        assert(T::valid(v[p]));
        T::closed();
        let gw = T::product(grad[p], w);
        let all = T::product(gw, mask[i]);
        assert(g[p] == T::quotient(all, norm));
        assert(T::valid(g[p]));
        assert(T::product(norm, g[p]) == all);
        let so_far = product_sum(g, v, p as nat);
        T::product_distributes(norm, so_far, T::product(g[p], v[p]));
        T::product_associates(norm, g[p], v[p]);
        T::product_associates(gw, mask[i], v[p]);
        T::product_commutes(mask[i], v[p]);
        let vm = T::product(v[p], mask[i]);
        T::product_associates(grad[p], w, vm);
        T::product_commutes(w, vm);
        assert(T::product(all, v[p]) == T::product(grad[p], T::product(vm, w)));
        assert(y[p] == T::product(vm, w));
    }
}

// ---------------------------------------------------------------------------
// Paths
// ---------------------------------------------------------------------------

/// A step of a path towards target spectra moves every weight of its band against the derivative of
/// the squared error between what the path gave before the step and the target.
pub proof fn paths_descend_from_what_they_gave<T: Ring + Divisible>(
    before: BandedCorrector<T>,
    more: BandedCorrector<T>,
    masked: Seq<T>,
    target: Seq<T>,
    batch: usize,
    n_fft: usize,
    lr: T,
    r: PathStep<T>,
    after: SpectrumCorrection<T>,
    w: int,
    h: T,
)
    requires
        path_step(
            SpectrumCorrection::Band(before),
            masked,
            target,
            batch,
            n_fft,
            lr,
            r,
            after,
        ),
        r is Stepped,
        alike(before, more),
        all_valid(masked),
        all_valid(target),
        before.n_bins == 2 * n_fft,
        batch * n_fft * 2 <= usize::MAX,
        T::valid(h),
        T::valid(lr),
        0 <= w < before.weights@.len(),
        more.bias@ == before.bias@,
        more.weights@ == raised(before.weights@, w, h),
        divides(T::counted((batch * n_fft * 2) as usize)),
        counts_two::<T>(),
    ensures
        after matches SpectrumCorrection::Band(c) && descends(
            before.weights@[w],
            c.weights@[w],
            h,
            lr,
            T::counted((batch * n_fft * 2) as usize),
            r->Stepped_before@,
            corrected(more, masked),
            target,
            masked.len(),
        ),
{
    let c = after->Band_0;
    let told = mse_result(before, masked, target, batch, n_fft);
    assert(mse_step(before, masked, target, batch, n_fft, lr, told, c));
    band_weights_descend(
        before,
        more,
        c,
        masked,
        target,
        batch,
        n_fft,
        lr,
        told,
        w,
        h,
    );
}

/// A step of the mel path towards mel energies moves every weight and every bias of its band by the
/// rate times how much further what the path makes of the masked spectra leans along the gradient,
/// and every number of the mask along with its own column of the masked spectra.
pub proof fn mel_paths_follow_the_gradient<T: Ring + Divisible + Ordered>(
    mask: Seq<T>,
    before: BandedCorrector<T>,
    more: BandedCorrector<T>,
    routed: Seq<T>,
    grad: Seq<T>,
    batch: usize,
    n_fft: usize,
    lr: T,
    mask_after: Seq<T>,
    after: BandedCorrector<T>,
    at: int,
    h: T,
)
    requires
        mel_stepped(
            mask,
            SpectrumCorrection::Band(before),
            routed,
            grad,
            batch,
            n_fft,
            lr,
            mask_after,
            SpectrumCorrection::Band(after),
        ),
        n_fft > 0,
        alike(before, more),
        all_valid(mask),
        all_valid(routed),
        all_valid(grad),
        before.n_bins == 2 * n_fft,
        mask.len() == 2 * n_fft,
        batch * n_fft * 2 <= usize::MAX,
        routed.len() == batch * n_fft * 2,
        grad.len() == batch * n_fft * 2,
        T::valid(h),
        T::valid(lr),
        T::valid(mask_share::<T>()),
        divides(gradient_norm::<T>(batch, n_fft)),
    ensures
        ({
            let norm = gradient_norm::<T>(batch, n_fft);
            let masked = multiplied(routed, mask);
            let rate = T::product(lr, mask_share::<T>());
            &&& 0 <= at < before.weights@.len() && more.bias@ == before.bias@ && more.weights@
                == raised(before.weights@, at, h) ==> leans_down(
                before.weights@[at],
                after.weights@[at],
                h,
                lr,
                norm,
                grad,
                corrected(before, masked),
                corrected(more, masked),
                grad.len(),
            )
            &&& 0 <= at < before.n_bins && more.weights@ == before.weights@ && more.bias@ == raised(
                before.bias@,
                at,
                h,
            ) ==> leans_down(
                before.bias@[at],
                after.bias@[at],
                h,
                lr,
                norm,
                grad,
                corrected(before, masked),
                corrected(more, masked),
                grad.len(),
            )
            &&& 0 <= at < mask.len() ==> exists|free: T|
                T::valid(free) && mask_after[at] == held(
                    T::difference(mask[at], free),
                    T::nought(),
                    T::counted(ROUTED_MASK_TOP),
                ) && T::product(
                    rate,
                    product_sum(grad, grown(masked, mask.len() as int, at, h), grad.len()),
                ) == T::sum(
                    T::product(rate, product_sum(grad, masked, grad.len())),
                    T::product(norm, #[trigger] T::product(h, free)),
                )
        }),
{
    let masked = multiplied(routed, mask);
    assert(batch * (2 * n_fft) == batch * n_fft * 2) by (nonlinear_arith);
    assert forall|p: int| 0 <= p < masked.len() implies T::valid(#[trigger] masked[p]) by {
        lemma_row_of(p, mask.len() as int, batch as int);
        assert(T::valid(routed[p]));
        assert(T::valid(mask[p % (mask.len() as int)]));
        T::closed();
    }
    band_follows_a_gradient(
        before,
        more,
        after,
        masked,
        grad,
        batch,
        n_fft,
        lr,
        at,
        h,
    );
    if 0 <= at < mask.len() {
        assert(batch_norm::<T>(batch as nat, mask.len() as int) == gradient_norm::<T>(
            batch,
            n_fft,
        ));
        routed_masks_follow_the_gradient(mask, masked, grad, batch as nat, lr, at, h);
    }
}

} // verus!

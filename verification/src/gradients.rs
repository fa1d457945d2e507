//! What training descends: over the numbers of a ring, the moves of a training step are those of the
//! derivative of the squared error.

use crate::butterfly::{
    after_stages, butterfly_of, complex_at, complex_difference, complex_product, complex_sum,
    conjugated, lemma_place_of, lemma_places, lemma_stride, lemma_twiddle_fits, stage_value, staged, stages_of,
    twiddle_place, twiddles_needed, upper_place, Complex,
};
use crate::butterfly_train::{
    backward, factor_gradient, input_gradient, stage_buffers, stage_gradient, turned_gradient,
    twiddle_gradient, twiddle_gradients,
};
use crate::fixed_points::{lemma_after_valid, lemma_staged_valid};
use crate::fourier::{
    all_valid, complex_valid, lemma_complex_closed, lemma_complex_product_commutes, lemma_exchange,
    lemma_product_difference, lemma_product_opposite, Ring,
};
use crate::gate_logits::product_sum;
use crate::scalar::Scalar;
use vstd::arithmetic::power2::pow2;
use vstd::prelude::*;

verus! {

// ---------------------------------------------------------------------------
// Sums and products
// ---------------------------------------------------------------------------

pub(crate) proof fn lemma_sum_times<T: Ring>(a: T, b: T, c: T)
    requires
        T::valid(a),
        T::valid(b),
        T::valid(c),
    ensures
        T::product(T::sum(a, b), c) == T::sum(T::product(a, c), T::product(b, c)),
{
    T::closed();
    T::product_commutes(T::sum(a, b), c);
    T::product_distributes(c, a, b);
    T::product_commutes(c, a);
    T::product_commutes(c, b);
}

pub(crate) proof fn lemma_difference_times<T: Ring>(a: T, b: T, c: T)
    requires
        T::valid(a),
        T::valid(b),
        T::valid(c),
    ensures
        T::product(T::difference(a, b), c) == T::difference(T::product(a, c), T::product(b, c)),
{
    T::closed();
    T::product_commutes(T::difference(a, b), c);
    lemma_product_difference(c, a, b);
    T::product_commutes(c, a);
    T::product_commutes(c, b);
}

/// The last two factors of three can be exchanged.
pub(crate) proof fn lemma_three<T: Ring>(x: T, y: T, z: T)
    requires
        T::valid(x),
        T::valid(y),
        T::valid(z),
    ensures
        T::product(x, T::product(y, z)) == T::product(T::product(x, z), y),
        T::product(x, T::product(y, z)) == T::product(T::product(x, y), z),
{
    T::product_associates(x, y, z);
    T::product_commutes(y, z);
    T::product_associates(x, z, y);
}

/// The difference of two sums is the sum of two differences.
pub(crate) proof fn lemma_differences<T: Ring>(a: T, b: T, c: T, d: T)
    requires
        T::valid(a),
        T::valid(b),
        T::valid(c),
        T::valid(d),
    ensures
        T::difference(T::sum(a, b), T::sum(c, d)) == T::sum(T::difference(a, c), T::difference(b, d)),
{
    T::closed();
    T::difference_adds_the_opposite(T::sum(a, b), T::sum(c, d));
    crate::fourier::lemma_opposite_sum(c, d);
    lemma_exchange(a, b, T::opposite(c), T::opposite(d));
    T::difference_adds_the_opposite(a, c);
    T::difference_adds_the_opposite(b, d);
}

/// What is taken away and added again cancels.
pub(crate) proof fn lemma_back<T: Ring>(a: T, b: T)
    requires
        T::valid(a),
        T::valid(b),
    ensures
        T::sum(T::difference(a, b), b) == a,
        T::sum(b, T::difference(a, b)) == a,
        T::difference(T::sum(a, b), b) == a,
{
    T::closed();
    let o = T::opposite(b);
    T::difference_adds_the_opposite(a, b);
    T::sum_associates(a, o, b);
    T::opposite_cancels(b);
    T::sum_commutes(b, o);
    T::sum_with_nought(a);
    T::sum_commutes(b, T::difference(a, b));
    T::difference_adds_the_opposite(T::sum(a, b), b);
    T::sum_associates(a, b, o);
}

// ---------------------------------------------------------------------------
// Pairings
// ---------------------------------------------------------------------------

/// The products of the real and of the imaginary parts of two numbers, added.
pub open spec fn paired<T: Scalar>(a: Complex<T>, b: Complex<T>) -> T {
    T::sum(T::product(a.re, b.re), T::product(a.im, b.im))
}

proof fn lemma_paired_valid<T: Ring>(a: Complex<T>, b: Complex<T>)
    requires
        complex_valid(a),
        complex_valid(b),
    ensures
        T::valid(paired(a, b)),
{
    T::closed();
}

proof fn lemma_paired_sums<T: Ring>(x: Complex<T>, y: Complex<T>, z: Complex<T>)
    requires
        complex_valid(x),
        complex_valid(y),
        complex_valid(z),
    ensures
        paired(x, complex_sum(y, z)) == T::sum(paired(x, y), paired(x, z)),
        paired(complex_sum(x, y), z) == T::sum(paired(x, z), paired(y, z)),
{
    T::closed();
    T::product_distributes(x.re, y.re, z.re);
    T::product_distributes(x.im, y.im, z.im);
    lemma_exchange(
        T::product(x.re, y.re),
        T::product(x.re, z.re),
        T::product(x.im, y.im),
        T::product(x.im, z.im),
    );
    lemma_sum_times(x.re, y.re, z.re);
    lemma_sum_times(x.im, y.im, z.im);
    lemma_exchange(
        T::product(x.re, z.re),
        T::product(y.re, z.re),
        T::product(x.im, z.im),
        T::product(y.im, z.im),
    );
}

proof fn lemma_paired_differences<T: Ring>(x: Complex<T>, y: Complex<T>, z: Complex<T>)
    requires
        complex_valid(x),
        complex_valid(y),
        complex_valid(z),
    ensures
        paired(x, complex_difference(y, z)) == T::difference(paired(x, y), paired(x, z)),
        paired(complex_difference(x, y), z) == T::difference(paired(x, z), paired(y, z)),
{
    T::closed();
    lemma_product_difference(x.re, y.re, z.re);
    lemma_product_difference(x.im, y.im, z.im);
    lemma_differences(
        T::product(x.re, y.re),
        T::product(x.im, y.im),
        T::product(x.re, z.re),
        T::product(x.im, z.im),
    );
    lemma_difference_times(x.re, y.re, z.re);
    lemma_difference_times(x.im, y.im, z.im);
    lemma_differences(
        T::product(x.re, z.re),
        T::product(x.im, z.im),
        T::product(y.re, z.re),
        T::product(y.im, z.im),
    );
}

/// A factor crosses a pairing as its conjugate.
proof fn lemma_paired_turns<T: Ring>(d: Complex<T>, l: Complex<T>, w: Complex<T>)
    requires
        complex_valid(d),
        complex_valid(l),
        complex_valid(w),
    ensures
        paired(d, complex_product(l, w)) == paired(factor_gradient(d, w), l),
        paired(d, complex_product(l, w)) == paired(twiddle_gradient(d, l), w),
{
    lemma_paired_turns_once(d, l, w);
    lemma_paired_turns_once(d, w, l);
    lemma_complex_product_commutes(l, w);
}

proof fn lemma_paired_turns_once<T: Ring>(d: Complex<T>, l: Complex<T>, w: Complex<T>)
    requires
        complex_valid(d),
        complex_valid(l),
        complex_valid(w),
    ensures
        paired(d, complex_product(l, w)) == paired(factor_gradient(d, w), l),
{
    T::closed();
    let a = T::product(d.re, T::product(l.re, w.re));
    let b = T::product(d.re, T::product(l.im, w.im));
    let c = T::product(d.im, T::product(l.re, w.im));
    let e = T::product(d.im, T::product(l.im, w.re));
    lemma_product_difference(d.re, T::product(l.re, w.re), T::product(l.im, w.im));
    T::product_distributes(d.im, T::product(l.re, w.im), T::product(l.im, w.re));
    assert(paired(d, complex_product(l, w)) == T::sum(T::difference(a, b), T::sum(c, e)));
    lemma_three(d.re, l.re, w.re);
    lemma_three(d.re, l.im, w.im);
    lemma_three(d.im, l.re, w.im);
    lemma_three(d.im, l.im, w.re);
    lemma_sum_times(T::product(d.re, w.re), T::product(d.im, w.im), l.re);
    lemma_difference_times(T::product(d.im, w.re), T::product(d.re, w.im), l.im);
    assert(paired(factor_gradient(d, w), l) == T::sum(T::sum(a, c), T::difference(e, b)));
    let o = T::opposite(b);
    T::difference_adds_the_opposite(a, b);
    T::difference_adds_the_opposite(e, b);
    lemma_exchange(a, o, c, e);
    T::sum_commutes(o, e);
}

// ---------------------------------------------------------------------------
// Totals over places and over butterflies
// ---------------------------------------------------------------------------

/// The sum of the first terms.
pub open spec fn total<T: Scalar>(f: spec_fn(int) -> T, n: nat) -> T
    decreases n,
{
    if n == 0 {
        T::nought()
    } else {
        T::sum(total(f, (n - 1) as nat), f(n - 1))
    }
}

pub(crate) proof fn lemma_total_valid<T: Ring>(f: spec_fn(int) -> T, n: nat)
    requires
        forall|i: int| 0 <= i < n ==> T::valid(#[trigger] f(i)),
    ensures
        T::valid(total(f, n)),
    decreases n,
{
    T::closed();
    if n > 0 {
        lemma_total_valid(f, (n - 1) as nat);
    }
}

pub(crate) proof fn lemma_total_same<T: Scalar>(f: spec_fn(int) -> T, g: spec_fn(int) -> T, n: nat)
    requires
        forall|i: int| 0 <= i < n ==> #[trigger] f(i) == g(i),
    ensures
        total(f, n) == total(g, n),
    decreases n,
{
    if n > 0 {
        lemma_total_same(f, g, (n - 1) as nat);
        assert(f(n - 1) == g(n - 1));
    }
}

/// A term in place of nought adds itself to the sum.
pub(crate) proof fn lemma_total_one<T: Ring>(f: spec_fn(int) -> T, g: spec_fn(int) -> T, n: nat, at: int)
    requires
        0 <= at < n,
        f(at) == T::nought(),
        forall|i: int| 0 <= i < n && i != at ==> #[trigger] f(i) == g(i),
        forall|i: int| 0 <= i < n ==> T::valid(#[trigger] g(i)),
    ensures
        total(g, n) == T::sum(total(f, n), g(at)),
    decreases n,
{
    T::closed();
    let m = (n - 1) as nat;
    assert forall|i: int| 0 <= i < n implies T::valid(#[trigger] f(i)) by {
        if i != at {
            assert(f(i) == g(i));
            assert(T::valid(g(i)));
        }
    }
    lemma_total_valid(f, m);
    assert(T::valid(g(at)));
    if at == m {
        lemma_total_same(f, g, m);
        T::sum_with_nought(total(f, m));
    } else {
        lemma_total_one(f, g, m, at);
        assert(f(m as int) == g(m as int));
        assert(T::valid(f(m as int)));
        T::sum_associates(total(f, m), g(at), f(m as int));
        T::sum_commutes(g(at), f(m as int));
        T::sum_associates(total(f, m), f(m as int), g(at));
    }
}

/// The terms at the two places of a butterfly, added.
spec fn butterfly_terms<T: Scalar>(f: spec_fn(int) -> T, stride: int) -> spec_fn(int) -> T {
    |b: int| T::sum(f(upper_place(b, stride)), f(upper_place(b, stride) + stride))
}

spec fn earlier<T: Scalar>(f: spec_fn(int) -> T, stride: int, k: int) -> spec_fn(int) -> T {
    |c: int|
        if butterfly_of(c, stride) < k {
            f(c)
        } else {
            T::nought()
        }
}

spec fn earlier_and<T: Scalar>(f: spec_fn(int) -> T, stride: int, k: int) -> spec_fn(int) -> T {
    |c: int|
        if butterfly_of(c, stride) < k || c == upper_place(k, stride) {
            f(c)
        } else {
            T::nought()
        }
}

proof fn lemma_by_butterflies<T: Ring>(f: spec_fn(int) -> T, stride: int, half: int, k: nat)
    requires
        stride > 0,
        half % stride == 0,
        k <= half,
        forall|c: int| 0 <= c < 2 * half ==> T::valid(#[trigger] f(c)),
    ensures
        total(earlier(f, stride, k as int), (2 * half) as nat) == total(
            butterfly_terms(f, stride),
            k,
        ),
    decreases k,
{
    T::closed();
    let n = (2 * half) as nat;
    if k == 0 {
        assert forall|c: int| 0 <= c < n implies #[trigger] earlier(f, stride, 0)(c) == T::nought() by {
            lemma_place_of(c, stride, half);
        }
        lemma_total_of_noughts(earlier(f, stride, 0), n);
    } else {
        let b = k - 1;
        lemma_by_butterflies(f, stride, half, b as nat);
        let before = earlier(f, stride, b);
        let middle = earlier_and(f, stride, b);
        let after = earlier(f, stride, b + 1);
        lemma_places(b, stride, half);
        let up = upper_place(b, stride);
        let low = up + stride;
        assert forall|c: int| 0 <= c < n && c != up implies #[trigger] before(c) == middle(c) by {}
        assert forall|c: int| 0 <= c < n implies T::valid(#[trigger] middle(c)) by {
            assert(T::valid(f(c)));
        }
        assert forall|c: int| 0 <= c < n implies T::valid(#[trigger] before(c)) by {
            assert(T::valid(f(c)));
        }
        lemma_total_one(before, middle, n, up);
        assert forall|c: int| 0 <= c < n && c != low implies #[trigger] middle(c) == after(c) by {
            lemma_place_of(c, stride, half);
        }
        assert forall|c: int| 0 <= c < n implies T::valid(#[trigger] after(c)) by {
            assert(T::valid(f(c)));
        }
        lemma_total_one(middle, after, n, low);
        lemma_total_valid(before, n);
        assert(T::valid(f(up)) && T::valid(f(low)));
        T::sum_associates(total(before, n), f(up), f(low));
    }
}

pub(crate) proof fn lemma_total_of_noughts<T: Ring>(f: spec_fn(int) -> T, n: nat)
    requires
        forall|i: int| 0 <= i < n ==> #[trigger] f(i) == T::nought(),
    ensures
        total(f, n) == T::nought(),
    decreases n,
{
    T::closed();
    if n > 0 {
        lemma_total_of_noughts(f, (n - 1) as nat);
        assert(f(n - 1) == T::nought());
        T::sum_with_nought(T::nought());
    }
}

/// A sum over the places of a stage is one over its butterflies.
proof fn lemma_over_butterflies<T: Ring>(f: spec_fn(int) -> T, stride: int, half: int)
    requires
        stride > 0,
        half >= 0,
        half % stride == 0,
        forall|c: int| 0 <= c < 2 * half ==> T::valid(#[trigger] f(c)),
    ensures
        total(f, (2 * half) as nat) == total(butterfly_terms(f, stride), half as nat),
{
    lemma_by_butterflies(f, stride, half, half as nat);
    let all = earlier(f, stride, half);
    assert forall|c: int| 0 <= c < 2 * half implies #[trigger] f(c) == all(c) by {
        lemma_place_of(c, stride, half);
    }
    lemma_total_same(f, all, (2 * half) as nat);
}

// ---------------------------------------------------------------------------
// Stages
// ---------------------------------------------------------------------------

spec fn pair_terms<T: Scalar>(a: Seq<T>, b: Seq<T>) -> spec_fn(int) -> T {
    |c: int| paired(complex_at(a, c), complex_at(b, c))
}

/// The products of the numbers of two buffers of complex numbers, place by place and part by part,
/// added.
pub closed spec fn pairing<T: Scalar>(a: Seq<T>, b: Seq<T>, n: nat) -> T {
    total(pair_terms(a, b), n)
}

/// What a butterfly does to a pairing.
proof fn lemma_butterfly<T: Ring>(
    gu: Complex<T>,
    gl: Complex<T>,
    a: Complex<T>,
    t: Complex<T>,
)
    requires
        complex_valid(gu),
        complex_valid(gl),
        complex_valid(a),
        complex_valid(t),
    ensures
        T::sum(paired(gu, complex_sum(a, t)), paired(gl, complex_difference(a, t))) == T::sum(
            paired(complex_sum(gu, gl), a),
            paired(complex_difference(gu, gl), t),
        ),
{
    T::closed();
    lemma_paired_sums(gu, a, t);
    lemma_paired_differences(gl, a, t);
    lemma_paired_sums(gu, gl, a);
    lemma_paired_differences(gu, gl, t);
    lemma_paired_valid(gu, a);
    lemma_paired_valid(gu, t);
    lemma_paired_valid(gl, a);
    lemma_paired_valid(gl, t);
    let o = T::opposite(paired(gl, t));
    T::difference_adds_the_opposite(paired(gl, a), paired(gl, t));
    T::difference_adds_the_opposite(paired(gu, t), paired(gl, t));
    lemma_exchange(paired(gu, a), paired(gu, t), paired(gl, a), o);
}

proof fn lemma_at_valid<T: Ring>(v: Seq<T>, c: int)
    requires
        all_valid(v),
        0 <= c,
        2 * c + 1 < v.len(),
    ensures
        complex_valid(complex_at(v, c)),
{
    assert(T::valid(v[2 * c]) && T::valid(v[2 * c + 1]));
}

/// What a stage gives at the two places of a butterfly, paired with gradients there.
proof fn lemma_stage_butterfly<T: Ring>(
    grad: Seq<T>,
    x: Seq<T>,
    tw: Seq<T>,
    n_fft: usize,
    stage: nat,
    b: int,
)
    requires
        n_fft > 0,
        stage < stages_of(n_fft),
        grad.len() == 2 * n_fft,
        all_valid(grad),
        x.len() == 2 * n_fft,
        all_valid(x),
        tw.len() >= twiddles_needed(n_fft),
        all_valid(tw),
        0 <= b < n_fft / 2,
    ensures
        ({
            let stride = pow2(stage) as int;
            let up = upper_place(b, stride);
            let d = turned_gradient(grad, b, stride);
            let w = complex_at(tw, twiddle_place(stage as int, b, n_fft as int / 2));
            let after = pair_terms(grad, staged(x, tw, n_fft as int, stage));
            &&& T::sum(after(up), after(up + stride)) == T::sum(
                paired(
                    complex_sum(complex_at(grad, up), complex_at(grad, up + stride)),
                    complex_at(x, up),
                ),
                paired(d, complex_product(complex_at(x, up + stride), w)),
            )
            &&& complex_valid(d)
            &&& complex_valid(w)
            &&& complex_valid(complex_at(x, up))
            &&& complex_valid(complex_at(x, up + stride))
            &&& complex_valid(complex_at(grad, up))
            &&& complex_valid(complex_at(grad, up + stride))
        }),
{
    let n = n_fft as int;
    let half = n / 2;
    let stride = pow2(stage) as int;
    lemma_stride(n_fft, stage);
    lemma_places(b, stride, half);
    lemma_twiddle_fits(stage as int, b, half, stages_of(n_fft) as int);
    lemma_complex_closed::<T>();
    T::closed();
    let up = upper_place(b, stride);
    let low = up + stride;
    let at = twiddle_place(stage as int, b, half);
    lemma_at_valid(grad, up);
    lemma_at_valid(grad, low);
    lemma_at_valid(x, up);
    lemma_at_valid(x, low);
    lemma_at_valid(tw, at);
    let y = staged(x, tw, n, stage);
    assert((2 * up) / 2 == up && (2 * up + 1) / 2 == up);
    assert((2 * low) / 2 == low && (2 * low + 1) / 2 == low);
    assert(complex_at(y, up) == stage_value(x, tw, n, stage, up));
    assert(complex_at(y, low) == stage_value(x, tw, n, stage, low));
    let t = complex_product(complex_at(x, low), complex_at(tw, at));
    assert(complex_valid(t));
    lemma_butterfly(complex_at(grad, up), complex_at(grad, low), complex_at(x, up), t);
}

/// A stage crosses a pairing as its gradient: what it gives, paired with a gradient, is what it is
/// given, paired with the gradient that it passes on.
proof fn lemma_stage_crosses<T: Ring>(grad: Seq<T>, x: Seq<T>, tw: Seq<T>, n_fft: usize, stage: nat)
    requires
        n_fft > 0,
        stage < stages_of(n_fft),
        grad.len() == 2 * n_fft,
        all_valid(grad),
        x.len() == 2 * n_fft,
        all_valid(x),
        tw.len() >= twiddles_needed(n_fft),
        all_valid(tw),
    ensures
        pairing(grad, staged(x, tw, n_fft as int, stage), n_fft as nat) == pairing(
            stage_gradient(grad, tw, n_fft as int, stage),
            x,
            n_fft as nat,
        ),
        all_valid(stage_gradient(grad, tw, n_fft as int, stage)),
{
    let n = n_fft as int;
    let half = n / 2;
    let stride = pow2(stage) as int;
    lemma_stride(n_fft, stage);
    T::closed();
    lemma_complex_closed::<T>();
    let y = staged(x, tw, n, stage);
    let g = stage_gradient(grad, tw, n, stage);
    let after = pair_terms(grad, y);
    let before = pair_terms(g, x);
    lemma_gradient_valid(grad, tw, n_fft, stage);
    lemma_staged_valid(x, tw, n_fft, stage);
    assert forall|c: int| 0 <= c < n implies T::valid(#[trigger] after(c)) by {
        lemma_at_valid(grad, c);
        lemma_at_valid(y, c);
        lemma_paired_valid(complex_at(grad, c), complex_at(y, c));
    }
    assert forall|c: int| 0 <= c < n implies T::valid(#[trigger] before(c)) by {
        lemma_at_valid(g, c);
        lemma_at_valid(x, c);
        lemma_paired_valid(complex_at(g, c), complex_at(x, c));
    }
    lemma_over_butterflies(after, stride, half);
    lemma_over_butterflies(before, stride, half);
    let fa = butterfly_terms(after, stride);
    let fb = butterfly_terms(before, stride);
    assert forall|b: int| 0 <= b < half implies #[trigger] fa(b) == fb(b) by {
        lemma_stage_butterfly(grad, x, tw, n_fft, stage, b);
        lemma_places(b, stride, half);
        let up = upper_place(b, stride);
        let low = up + stride;
        let d = turned_gradient(grad, b, stride);
        let w = complex_at(tw, twiddle_place(stage as int, b, half));
        lemma_paired_turns(d, complex_at(x, low), w);
        assert((2 * up) / 2 == up && (2 * up + 1) / 2 == up);
        assert((2 * low) / 2 == low && (2 * low + 1) / 2 == low);
        assert(complex_at(g, up) == input_gradient(grad, tw, n, stage, up));
        assert(complex_at(g, low) == input_gradient(grad, tw, n, stage, low));
        let sum = complex_sum(complex_at(grad, up), complex_at(grad, low));
        let turned = factor_gradient(d, w);
        assert(complex_valid(sum));
        assert(complex_valid(turned));
        lemma_nought_first(sum.re);
        lemma_nought_first(sum.im);
        lemma_nought_first(turned.re);
        lemma_nought_first(turned.im);
        assert(complex_at(g, up) == sum);
        assert(complex_at(g, low) == turned);
    }
    lemma_total_same(fa, fb, half as nat);
}

proof fn lemma_nought_first<T: Ring>(a: T)
    requires
        T::valid(a),
    ensures
        T::sum(T::nought(), a) == a,
{
    T::closed();
    T::sum_commutes(T::nought(), a);
    T::sum_with_nought(a);
}

proof fn lemma_gradient_valid<T: Ring>(grad: Seq<T>, tw: Seq<T>, n_fft: usize, stage: nat)
    requires
        n_fft > 0,
        stage < stages_of(n_fft),
        grad.len() == 2 * n_fft,
        all_valid(grad),
        tw.len() >= twiddles_needed(n_fft),
        all_valid(tw),
    ensures
        all_valid(stage_gradient(grad, tw, n_fft as int, stage)),
{
    let n = n_fft as int;
    let half = n / 2;
    let stride = pow2(stage) as int;
    lemma_stride(n_fft, stage);
    T::closed();
    let g = stage_gradient(grad, tw, n, stage);
    assert forall|i: int| 0 <= i < g.len() implies T::valid(#[trigger] g[i]) by {
        let c = i / 2;
        lemma_place_of(c, stride, half);
        let b = butterfly_of(c, stride);
        lemma_places(b, stride, half);
        lemma_twiddle_fits(stage as int, b, half, stages_of(n_fft) as int);
        let up = upper_place(b, stride);
        lemma_at_valid(grad, up);
        lemma_at_valid(grad, up + stride);
        lemma_at_valid(tw, twiddle_place(stage as int, b, half));
        let d = turned_gradient(grad, b, stride);
        assert(complex_valid(d));
        assert(complex_valid(
            factor_gradient(d, complex_at(tw, twiddle_place(stage as int, b, half))),
        ));
        assert(complex_valid(input_gradient(grad, tw, n, stage, c)));
    }
}

// ---------------------------------------------------------------------------
// One twiddle
// ---------------------------------------------------------------------------

/// Numbers with one of them raised.
pub open spec fn raised<T: Scalar>(v: Seq<T>, i: int, h: T) -> Seq<T> {
    v.update(i, T::sum(v[i], h))
}

proof fn lemma_raised_valid<T: Ring>(v: Seq<T>, i: int, h: T)
    requires
        all_valid(v),
        T::valid(h),
        0 <= i < v.len(),
    ensures
        all_valid(raised(v, i, h)),
        raised(v, i, h).len() == v.len(),
{
    T::closed();
    assert(T::valid(v[i]));
}

pub(crate) proof fn lemma_total_shift<T: Ring>(f: spec_fn(int) -> T, g: spec_fn(int) -> T, n: nat, at: int, e: T)
    requires
        0 <= at < n,
        T::valid(e),
        g(at) == T::sum(f(at), e),
        forall|i: int| 0 <= i < n && i != at ==> #[trigger] f(i) == g(i),
        forall|i: int| 0 <= i < n ==> T::valid(#[trigger] f(i)),
    ensures
        total(g, n) == T::sum(total(f, n), e),
    decreases n,
{
    T::closed();
    let m = (n - 1) as nat;
    lemma_total_valid(f, m);
    assert(T::valid(f(at)));
    if at == m {
        lemma_total_same(f, g, m);
        T::sum_associates(total(f, m), f(at), e);
    } else {
        lemma_total_shift(f, g, m, at, e);
        let last = f(m as int);
        assert(last == g(m as int));
        assert(T::valid(last));
        T::sum_associates(total(f, m), e, last);
        T::sum_commutes(e, last);
        T::sum_associates(total(f, m), last, e);
    }
}

/// Which butterfly of a stage a twiddle number belongs to; none of it where it is out of range.
spec fn own_butterfly(i: int, n_fft: int, stage: int) -> int {
    i / 2 - stage * (n_fft / 2)
}

/// A stage that does not read a twiddle does not depend on it.
proof fn lemma_unread<T: Scalar>(
    x: Seq<T>,
    grad: Seq<T>,
    tw: Seq<T>,
    i: int,
    h: T,
    n_fft: usize,
    stage: nat,
)
    requires
        n_fft > 0,
        stage < stages_of(n_fft),
        tw.len() >= twiddles_needed(n_fft),
        0 <= i < tw.len(),
        !(0 <= own_butterfly(i, n_fft as int, stage as int) < n_fft / 2),
    ensures
        staged(x, raised(tw, i, h), n_fft as int, stage) == staged(x, tw, n_fft as int, stage),
        stage_gradient(grad, raised(tw, i, h), n_fft as int, stage) == stage_gradient(
            grad,
            tw,
            n_fft as int,
            stage,
        ),
{
    let n = n_fft as int;
    let half = n / 2;
    let stride = pow2(stage) as int;
    let up = raised(tw, i, h);
    lemma_stride(n_fft, stage);
    assert forall|c: int| 0 <= c < n implies #[trigger] stage_value(x, up, n, stage, c)
        == stage_value(x, tw, n, stage, c) && input_gradient(grad, up, n, stage, c)
        == input_gradient(grad, tw, n, stage, c) by {
        lemma_place_of(c, stride, half);
        let b = butterfly_of(c, stride);
        lemma_twiddle_fits(stage as int, b, half, stages_of(n_fft) as int);
        let at = twiddle_place(stage as int, b, half);
        assert(2 * at != i && 2 * at + 1 != i);
        assert(complex_at(up, at) == complex_at(tw, at));
    }
    let a = staged(x, up, n, stage);
    let b = staged(x, tw, n, stage);
    assert forall|k: int| 0 <= k < 2 * n implies a[k] == b[k] by {
        assert(stage_value(x, up, n, stage, k / 2) == stage_value(x, tw, n, stage, k / 2));
    }
    assert(a =~= b);
    let c = stage_gradient(grad, up, n, stage);
    let d = stage_gradient(grad, tw, n, stage);
    assert forall|k: int| 0 <= k < 2 * n implies c[k] == d[k] by {
        assert(stage_value(x, up, n, stage, k / 2) == stage_value(x, tw, n, stage, k / 2));
    }
    assert(c =~= d);
}

/// Raising one part of a number raises a pairing by its factor.
proof fn lemma_paired_raised<T: Ring>(d: Complex<T>, w: Complex<T>, h: T)
    requires
        complex_valid(d),
        complex_valid(w),
        T::valid(h),
    ensures
        paired(d, Complex { re: T::sum(w.re, h), im: w.im }) == T::sum(
            paired(d, w),
            T::product(h, d.re),
        ),
        paired(d, Complex { re: w.re, im: T::sum(w.im, h) }) == T::sum(
            paired(d, w),
            T::product(h, d.im),
        ),
{
    T::closed();
    let a = T::product(d.re, w.re);
    let b = T::product(d.im, w.im);
    T::product_distributes(d.re, w.re, h);
    T::product_distributes(d.im, w.im, h);
    T::product_commutes(d.re, h);
    T::product_commutes(d.im, h);
    let e = T::product(h, d.re);
    T::sum_associates(a, e, b);
    T::sum_commutes(e, b);
    T::sum_associates(a, b, e);
    T::sum_associates(a, b, T::product(h, d.im));
}

/// Raising a twiddle of a stage raises what the stage gives, paired with a gradient, by the gradient
/// of the twiddle.
proof fn lemma_stage_slope<T: Ring>(
    grad: Seq<T>,
    sums: Seq<T>,
    x: Seq<T>,
    tw: Seq<T>,
    i: int,
    h: T,
    n_fft: usize,
    stage: nat,
)
    requires
        n_fft > 0,
        stage < stages_of(n_fft),
        grad.len() == 2 * n_fft,
        all_valid(grad),
        x.len() == 2 * n_fft,
        all_valid(x),
        tw.len() >= twiddles_needed(n_fft),
        all_valid(tw),
        sums.len() == twiddles_needed(n_fft),
        all_valid(sums),
        T::valid(h),
        0 <= i < sums.len(),
        0 <= own_butterfly(i, n_fft as int, stage as int) < n_fft / 2,
    ensures
        T::sum(
            pairing(grad, staged(x, raised(tw, i, h), n_fft as int, stage), n_fft as nat),
            T::product(h, sums[i]),
        ) == T::sum(
            pairing(grad, staged(x, tw, n_fft as int, stage), n_fft as nat),
            T::product(h, twiddle_gradients(sums, grad, x, n_fft as int, stage)[i]),
        ),
{
    let n = n_fft as int;
    let half = n / 2;
    let stride = pow2(stage) as int;
    let b = own_butterfly(i, n, stage as int);
    let more = raised(tw, i, h);
    lemma_stride(n_fft, stage);
    lemma_raised_valid(tw, i, h);
    T::closed();
    lemma_complex_closed::<T>();
    let fa = pair_terms(grad, staged(x, tw, n, stage));
    let fb = pair_terms(grad, staged(x, more, n, stage));
    lemma_staged_valid(x, tw, n_fft, stage);
    lemma_staged_valid(x, more, n_fft, stage);
    assert forall|c: int| 0 <= c < n implies T::valid(#[trigger] fa(c)) by {
        lemma_at_valid(grad, c);
        lemma_at_valid(staged(x, tw, n, stage), c);
        lemma_paired_valid(complex_at(grad, c), complex_at(staged(x, tw, n, stage), c));
    }
    assert forall|c: int| 0 <= c < n implies T::valid(#[trigger] fb(c)) by {
        lemma_at_valid(grad, c);
        lemma_at_valid(staged(x, more, n, stage), c);
        lemma_paired_valid(complex_at(grad, c), complex_at(staged(x, more, n, stage), c));
    }
    lemma_over_butterflies(fa, stride, half);
    lemma_over_butterflies(fb, stride, half);
    let ta = butterfly_terms(fa, stride);
    let tb = butterfly_terms(fb, stride);
    assert forall|q: int| 0 <= q < half implies T::valid(#[trigger] ta(q)) by {
        lemma_places(q, stride, half);
        assert(T::valid(fa(upper_place(q, stride))));
        assert(T::valid(fa(upper_place(q, stride) + stride)));
    }
    assert forall|q: int| 0 <= q < half && q != b implies #[trigger] ta(q) == tb(q) by {
        lemma_stage_butterfly(grad, x, tw, n_fft, stage, q);
        lemma_stage_butterfly(grad, x, more, n_fft, stage, q);
        let at = twiddle_place(stage as int, q, half);
        lemma_twiddle_fits(stage as int, q, half, stages_of(n_fft) as int);
        assert(2 * at != i && 2 * at + 1 != i);
        assert(complex_at(more, at) == complex_at(tw, at));
    }
    lemma_stage_butterfly(grad, x, tw, n_fft, stage, b);
    lemma_stage_butterfly(grad, x, more, n_fft, stage, b);
    lemma_places(b, stride, half);
    let up = upper_place(b, stride);
    let low = up + stride;
    let at = twiddle_place(stage as int, b, half);
    lemma_twiddle_fits(stage as int, b, half, stages_of(n_fft) as int);
    assert(i == 2 * at || i == 2 * at + 1);
    let d = turned_gradient(grad, b, stride);
    let l = complex_at(x, low);
    let w = complex_at(tw, at);
    let v = complex_at(more, at);
    lemma_at_valid(more, at);
    lemma_paired_turns(d, l, w);
    lemma_paired_turns(d, l, v);
    let slope = twiddle_gradient(d, l);
    assert(complex_valid(slope));
    lemma_paired_raised(slope, w, h);
    let part = if i % 2 == 0 {
        slope.re
    } else {
        slope.im
    };
    let e = T::product(h, part);
    assert(paired(slope, v) == T::sum(paired(slope, w), e)) by {
        if i % 2 == 0 {
            assert(v == (Complex { re: T::sum(w.re, h), im: w.im }));
        } else {
            assert(v == (Complex { re: w.re, im: T::sum(w.im, h) }));
        }
    }
    let rest = paired(complex_sum(complex_at(grad, up), complex_at(grad, low)), complex_at(x, up));
    assert(T::valid(rest));
    lemma_paired_valid(slope, w);
    T::sum_associates(rest, paired(slope, w), e);
    assert(tb(b) == T::sum(ta(b), e));
    lemma_total_shift(ta, tb, half as nat, b, e);
    lemma_total_valid(ta, half as nat);
    let p = total(ta, half as nat);
    let had = T::product(h, sums[i]);
    assert(T::valid(sums[i]));
    assert(twiddle_gradients(sums, grad, x, n, stage)[i] == T::sum(sums[i], part));
    T::product_distributes(h, sums[i], part);
    T::sum_associates(p, e, had);
    T::sum_commutes(e, had);
}

proof fn lemma_same_so_far<T: Scalar>(start: Seq<T>, tw: Seq<T>, i: int, h: T, n_fft: usize, k: nat)
    requires
        n_fft > 0,
        k <= stages_of(n_fft),
        tw.len() >= twiddles_needed(n_fft),
        0 <= i < tw.len(),
        forall|s: int| 0 <= s < k ==> !(0 <= #[trigger] own_butterfly(i, n_fft as int, s) < n_fft / 2),
    ensures
        after_stages(start, raised(tw, i, h), n_fft as int, k) == after_stages(
            start,
            tw,
            n_fft as int,
            k,
        ),
    decreases k,
{
    if k > 0 {
        lemma_same_so_far(start, tw, i, h, n_fft, (k - 1) as nat);
        let x = after_stages(start, tw, n_fft as int, (k - 1) as nat);
        assert(!(0 <= own_butterfly(i, n_fft as int, k - 1) < n_fft / 2));
        lemma_unread(x, x, tw, i, h, n_fft, (k - 1) as nat);
    }
}

proof fn lemma_untouched<T: Scalar>(
    grad: Seq<T>,
    sums: Seq<T>,
    inputs: Seq<Seq<T>>,
    tw: Seq<T>,
    i: int,
    n_fft: usize,
    k: nat,
)
    requires
        0 <= i < sums.len(),
        forall|s: int| 0 <= s < k ==> !(0 <= #[trigger] own_butterfly(i, n_fft as int, s) < n_fft / 2),
    ensures
        backward(grad, sums, inputs, tw, n_fft as int, k).1[i] == sums[i],
    decreases k,
{
    if k > 0 {
        let stage = (k - 1) as nat;
        assert(!(0 <= own_butterfly(i, n_fft as int, k - 1) < n_fft / 2));
        lemma_untouched(
            stage_gradient(grad, tw, n_fft as int, stage),
            twiddle_gradients(sums, grad, inputs[stage as int], n_fft as int, stage),
            inputs,
            tw,
            i,
            n_fft,
            stage,
        );
    }
}

proof fn lemma_own_stage(i: int, n_fft: int, s: int, t: int)
    requires
        n_fft > 0,
        0 <= own_butterfly(i, n_fft, s) < n_fft / 2,
        s != t,
    ensures
        !(0 <= own_butterfly(i, n_fft, t) < n_fft / 2),
{
    let half = n_fft / 2;
    if t < s {
        assert(s * half >= t * half + half) by (nonlinear_arith)
            requires
                s >= t + 1,
                half >= 0,
        ;
    } else {
        assert(t * half >= s * half + half) by (nonlinear_arith)
            requires
                t >= s + 1,
                half >= 0,
        ;
    }
}

pub(crate) proof fn lemma_sums_valid<T: Ring>(
    grad: Seq<T>,
    sums: Seq<T>,
    inputs: Seq<Seq<T>>,
    tw: Seq<T>,
    n_fft: usize,
    k: nat,
)
    requires
        n_fft > 0,
        k <= stages_of(n_fft),
        grad.len() == 2 * n_fft,
        all_valid(grad),
        tw.len() >= twiddles_needed(n_fft),
        all_valid(tw),
        all_valid(sums),
        k <= inputs.len(),
        forall|s: int|
            0 <= s < k ==> (#[trigger] inputs[s]).len() == 2 * n_fft && all_valid(inputs[s]),
    ensures
        all_valid(backward(grad, sums, inputs, tw, n_fft as int, k).0),
        all_valid(backward(grad, sums, inputs, tw, n_fft as int, k).1),
        backward(grad, sums, inputs, tw, n_fft as int, k).0.len() == 2 * n_fft,
        backward(grad, sums, inputs, tw, n_fft as int, k).1.len() == sums.len(),
    decreases k,
{
    if k > 0 {
        let n = n_fft as int;
        let stage = (k - 1) as nat;
        let x = inputs[stage as int];
        lemma_gradient_valid(grad, tw, n_fft, stage);
        let next = twiddle_gradients(sums, grad, x, n, stage);
        lemma_sums_valid_once(grad, sums, x, tw, n_fft, stage);
        lemma_sums_valid(
            stage_gradient(grad, tw, n, stage),
            next,
            inputs,
            tw,
            n_fft,
            stage,
        );
    }
}

/// Raising a twiddle raises what the stages give, paired with a gradient, by what going back through
/// them adds to the sum of that twiddle.
proof fn lemma_slope<T: Ring>(
    grad: Seq<T>,
    sums: Seq<T>,
    start: Seq<T>,
    tw: Seq<T>,
    i: int,
    h: T,
    n_fft: usize,
    k: nat,
    s: int,
)
    requires
        n_fft > 0,
        k <= stages_of(n_fft),
        grad.len() == 2 * n_fft,
        all_valid(grad),
        start.len() == 2 * n_fft,
        all_valid(start),
        tw.len() >= twiddles_needed(n_fft),
        all_valid(tw),
        sums.len() == twiddles_needed(n_fft),
        all_valid(sums),
        T::valid(h),
        0 <= i < sums.len(),
        0 <= s < stages_of(n_fft),
        0 <= own_butterfly(i, n_fft as int, s) < n_fft / 2,
    ensures
        T::sum(
            pairing(grad, after_stages(start, raised(tw, i, h), n_fft as int, k), n_fft as nat),
            T::product(h, sums[i]),
        ) == T::sum(
            pairing(grad, after_stages(start, tw, n_fft as int, k), n_fft as nat),
            T::product(
                h,
                backward(
                    grad,
                    sums,
                    stage_buffers(start, tw, n_fft),
                    tw,
                    n_fft as int,
                    k,
                ).1[i],
            ),
        ),
    decreases k,
{
    let n = n_fft as int;
    let more = raised(tw, i, h);
    let inputs = stage_buffers(start, tw, n_fft);
    lemma_raised_valid(tw, i, h);
    if k <= s {
        assert forall|t: int| 0 <= t < k implies !(0 <= #[trigger] own_butterfly(i, n, t) < n_fft / 2) by {
            lemma_own_stage(i, n, s, t);
        }
        lemma_same_so_far(start, tw, i, h, n_fft, k);
        lemma_untouched(grad, sums, inputs, tw, i, n_fft, k);
    } else {
        let stage = (k - 1) as nat;
        let x = after_stages(start, tw, n, stage);
        assert(inputs[stage as int] == x);
        lemma_after_valid(start, tw, n_fft, stage);
        let passed = stage_gradient(grad, tw, n, stage);
        let added = twiddle_gradients(sums, grad, x, n, stage);
        if stage == s {
            assert forall|t: int| 0 <= t < stage implies !(0 <= #[trigger] own_butterfly(i, n, t)
                < n_fft / 2) by {
                lemma_own_stage(i, n, s, t);
            }
            lemma_same_so_far(start, tw, i, h, n_fft, stage);
            lemma_stage_slope(grad, sums, x, tw, i, h, n_fft, stage);
            lemma_untouched(passed, added, inputs, tw, i, n_fft, stage);
        } else {
            lemma_own_stage(i, n, s, stage as int);
            let y = after_stages(start, more, n, stage);
            lemma_after_valid(start, more, n_fft, stage);
            lemma_unread(y, grad, tw, i, h, n_fft, stage);
            lemma_stage_crosses(grad, y, tw, n_fft, stage);
            lemma_stage_crosses(grad, x, tw, n_fft, stage);
            lemma_sums_valid_once(grad, sums, x, tw, n_fft, stage);
            assert(added[i] == sums[i]);
            lemma_slope(passed, added, start, tw, i, h, n_fft, stage, s);
        }
    }
}

proof fn lemma_sums_valid_once<T: Ring>(
    grad: Seq<T>,
    sums: Seq<T>,
    x: Seq<T>,
    tw: Seq<T>,
    n_fft: usize,
    stage: nat,
)
    requires
        n_fft > 0,
        stage < stages_of(n_fft),
        grad.len() == 2 * n_fft,
        all_valid(grad),
        x.len() == 2 * n_fft,
        all_valid(x),
        all_valid(sums),
    ensures
        all_valid(twiddle_gradients(sums, grad, x, n_fft as int, stage)),
        twiddle_gradients(sums, grad, x, n_fft as int, stage).len() == sums.len(),
{
    let n = n_fft as int;
    let next = twiddle_gradients(sums, grad, x, n, stage);
    let half = n / 2;
    let stride = pow2(stage) as int;
    lemma_stride(n_fft, stage);
    T::closed();
    assert forall|i: int| 0 <= i < next.len() implies T::valid(#[trigger] next[i]) by {
        assert(T::valid(sums[i]));
        let b = i / 2 - stage * half;
        if 0 <= b < half {
            lemma_places(b, stride, half);
            let up = upper_place(b, stride);
            lemma_at_valid(grad, up);
            lemma_at_valid(grad, up + stride);
            lemma_at_valid(x, up + stride);
            assert(complex_valid(turned_gradient(grad, b, stride)));
            assert(complex_valid(
                twiddle_gradient(turned_gradient(grad, b, stride), complex_at(x, up + stride)),
            ));
        }
    }
}

// ---------------------------------------------------------------------------
// Number by number
// ---------------------------------------------------------------------------

pub(crate) proof fn lemma_product_sum_valid<T: Ring>(a: Seq<T>, b: Seq<T>, k: nat)
    requires
        all_valid(a),
        all_valid(b),
        k <= a.len(),
        k <= b.len(),
    ensures
        T::valid(product_sum(a, b, k)),
    decreases k,
{
    T::closed();
    if k > 0 {
        lemma_product_sum_valid(a, b, (k - 1) as nat);
        assert(T::valid(a[k - 1]) && T::valid(b[k - 1]));
    }
}

proof fn lemma_pairing<T: Ring>(a: Seq<T>, b: Seq<T>, n: nat)
    requires
        all_valid(a),
        all_valid(b),
        2 * n <= a.len(),
        2 * n <= b.len(),
    ensures
        pairing(a, b, n) == product_sum(a, b, 2 * n),
    decreases n,
{
    T::closed();
    if n > 0 {
        let m = (n - 1) as nat;
        lemma_pairing(a, b, m);
        lemma_product_sum_valid(a, b, 2 * m);
        let c = m as int;
        lemma_at_valid(a, c);
        lemma_at_valid(b, c);
        reveal_with_fuel(product_sum, 3);
        T::sum_associates(
            product_sum(a, b, 2 * m),
            T::product(a[2 * c], b[2 * c]),
            T::product(a[2 * c + 1], b[2 * c + 1]),
        );
    }
}

/// The stage that a twiddle number belongs to.
proof fn lemma_stage_of(i: int, n_fft: usize) -> (s: int)
    requires
        n_fft > 0,
        0 <= i < twiddles_needed(n_fft),
    ensures
        0 <= s < stages_of(n_fft),
        0 <= own_butterfly(i, n_fft as int, s) < n_fft / 2,
{
    let half = n_fft as int / 2;
    let stages = stages_of(n_fft) as int;
    assert(half > 0) by (nonlinear_arith)
        requires
            0 < stages * half * 2,
            stages >= 0,
            half >= 0,
    ;
    let c = i / 2;
    let s = c / half;
    vstd::arithmetic::div_mod::lemma_fundamental_div_mod(c, half);
    vstd::arithmetic::div_mod::lemma_mod_bound(c, half);
    assert(half * s == s * half) by (nonlinear_arith);
    assert(s >= 0) by (nonlinear_arith)
        requires
            c == half * s + c % half,
            c >= 0,
            c % half < half,
            half > 0,
    ;
    assert(s < stages) by (nonlinear_arith)
        requires
            c == half * s + c % half,
            c < stages * half,
            c % half >= 0,
            half > 0,
    ;
    s
}

/// Raising a twiddle raises what a transform's stages give, paired with a gradient, by what going
/// back through them adds to the sum of that twiddle.
pub(crate) proof fn lemma_slope_of<T: Ring>(
    grad: Seq<T>,
    sums: Seq<T>,
    start: Seq<T>,
    tw: Seq<T>,
    i: int,
    h: T,
    n_fft: usize,
)
    requires
        n_fft > 0,
        grad.len() == 2 * n_fft,
        all_valid(grad),
        start.len() == 2 * n_fft,
        all_valid(start),
        tw.len() >= twiddles_needed(n_fft),
        all_valid(tw),
        sums.len() == twiddles_needed(n_fft),
        all_valid(sums),
        T::valid(h),
        0 <= i < sums.len(),
    ensures
        ({
            let k = stages_of(n_fft);
            let n = n_fft as int;
            let back = backward(grad, sums, stage_buffers(start, tw, n_fft), tw, n, k);
            &&& T::sum(
                product_sum(grad, after_stages(start, raised(tw, i, h), n, k), (2 * n_fft) as nat),
                T::product(h, sums[i]),
            ) == T::sum(
                product_sum(grad, after_stages(start, tw, n, k), (2 * n_fft) as nat),
                T::product(h, back.1[i]),
            )
            &&& all_valid(back.0)
            &&& all_valid(back.1)
            &&& back.0.len() == 2 * n_fft
            &&& back.1.len() == sums.len()
        }),
{
    let n = n_fft as int;
    let k = stages_of(n_fft);
    let s = lemma_stage_of(i, n_fft);
    lemma_slope(grad, sums, start, tw, i, h, n_fft, k, s);
    lemma_raised_valid(tw, i, h);
    lemma_after_valid(start, tw, n_fft, k);
    lemma_after_valid(start, raised(tw, i, h), n_fft, k);
    lemma_pairing(grad, after_stages(start, tw, n, k), n_fft as nat);
    lemma_pairing(grad, after_stages(start, raised(tw, i, h), n, k), n_fft as nat);
    let inputs = stage_buffers(start, tw, n_fft);
    assert forall|q: int| 0 <= q < k implies (#[trigger] inputs[q]).len() == 2 * n_fft && all_valid(
        inputs[q],
    ) by {
        lemma_after_valid(start, tw, n_fft, q as nat);
    }
    lemma_sums_valid(grad, sums, inputs, tw, n_fft, k);
}

proof fn lemma_stages_cross<T: Ring>(
    grad: Seq<T>,
    sums: Seq<T>,
    inputs: Seq<Seq<T>>,
    z: Seq<T>,
    tw: Seq<T>,
    n_fft: usize,
    k: nat,
)
    requires
        n_fft > 0,
        k <= stages_of(n_fft),
        grad.len() == 2 * n_fft,
        all_valid(grad),
        z.len() == 2 * n_fft,
        all_valid(z),
        tw.len() >= twiddles_needed(n_fft),
        all_valid(tw),
    ensures
        pairing(grad, after_stages(z, tw, n_fft as int, k), n_fft as nat) == pairing(
            backward(grad, sums, inputs, tw, n_fft as int, k).0,
            z,
            n_fft as nat,
        ),
    decreases k,
{
    if k > 0 {
        let n = n_fft as int;
        let stage = (k - 1) as nat;
        let x = after_stages(z, tw, n, stage);
        lemma_after_valid(z, tw, n_fft, stage);
        lemma_stage_crosses(grad, x, tw, n_fft, stage);
        lemma_stages_cross(
            stage_gradient(grad, tw, n, stage),
            twiddle_gradients(sums, grad, inputs[stage as int], n, stage),
            inputs,
            z,
            tw,
            n_fft,
            stage,
        );
    }
}

/// What the stages of a transform give, paired with a gradient, is what they start from, paired with
/// the gradient that is passed back.
pub(crate) proof fn lemma_passed_back<T: Ring>(
    grad: Seq<T>,
    sums: Seq<T>,
    start: Seq<T>,
    z: Seq<T>,
    tw: Seq<T>,
    n_fft: usize,
)
    requires
        n_fft > 0,
        grad.len() == 2 * n_fft,
        all_valid(grad),
        start.len() == 2 * n_fft,
        all_valid(start),
        z.len() == 2 * n_fft,
        all_valid(z),
        tw.len() >= twiddles_needed(n_fft),
        all_valid(tw),
        all_valid(sums),
    ensures
        ({
            let k = stages_of(n_fft);
            let n = n_fft as int;
            let back = backward(grad, sums, stage_buffers(start, tw, n_fft), tw, n, k);
            product_sum(grad, after_stages(z, tw, n, k), (2 * n_fft) as nat) == product_sum(
                back.0,
                z,
                (2 * n_fft) as nat,
            )
        }),
{
    let n = n_fft as int;
    let k = stages_of(n_fft);
    let inputs = stage_buffers(start, tw, n_fft);
    assert forall|q: int| 0 <= q < k implies (#[trigger] inputs[q]).len() == 2 * n_fft && all_valid(
        inputs[q],
    ) by {
        lemma_after_valid(start, tw, n_fft, q as nat);
    }
    lemma_sums_valid(grad, sums, inputs, tw, n_fft, k);
    lemma_stages_cross(grad, sums, inputs, z, tw, n_fft, k);
    lemma_after_valid(z, tw, n_fft, k);
    lemma_pairing(grad, after_stages(z, tw, n, k), n_fft as nat);
    lemma_pairing(backward(grad, sums, inputs, tw, n, k).0, z, n_fft as nat);
}

pub(crate) proof fn lemma_conjugated_valid<T: Ring>(v: Seq<T>, n: int)
    requires
        all_valid(v),
    ensures
        all_valid(conjugated(v, n)),
{
    T::closed();
    assert forall|i: int| 0 <= i < v.len() implies T::valid(#[trigger] conjugated(v, n)[i]) by {
        assert(T::valid(v[i]));
    }
}

/// A conjugation can be moved to the other side of a pairing.
pub(crate) proof fn lemma_conjugation_crosses<T: Ring>(a: Seq<T>, b: Seq<T>, n: int, k: nat)
    requires
        all_valid(a),
        all_valid(b),
        k <= a.len(),
        k <= b.len(),
    ensures
        product_sum(conjugated(a, n), b, k) == product_sum(a, conjugated(b, n), k),
    decreases k,
{
    if k > 0 {
        lemma_conjugation_crosses(a, b, n, (k - 1) as nat);
        let x = a[k - 1];
        let y = b[k - 1];
        assert(T::valid(x) && T::valid(y));
        T::closed();
        T::product_commutes(T::opposite(x), y);
        lemma_product_opposite(y, x);
        T::product_commutes(y, x);
        lemma_product_opposite(x, y);
    }
}

} // verus!

//! The butterfly transform with exact twiddles is the Fourier transform.

use crate::arith::{power_of_two, twos_of_power};
use crate::butterfly::{
    after_stages, butterfly_of, complex_at, complex_difference, complex_product, complex_sum,
    conjugated, inverse_transformed, lemma_stride, permuted, reversed, source_place, stage_value, staged, stages_of,
    transformed, twiddle_place, upper_place, Complex,
};
use crate::scalar::{Residue, Scalar, PRIME};
use vstd::arithmetic::power2::{lemma_pow2_adds, lemma_pow2_pos, lemma_pow2_unfold, pow2};
use vstd::prelude::*;

verus! {

/// Numbers whose sums and products obey the laws of a commutative ring.
pub trait Ring: Scalar {
    /// Whether a value stands for a number.
    spec fn valid(a: Self) -> bool;

    proof fn closed()
        ensures
            Self::valid(Self::nought()),
            Self::valid(Self::unit()),
            forall|a: Self, b: Self|
                Self::valid(a) && Self::valid(b) ==> #[trigger] Self::valid(Self::sum(a, b)),
            forall|a: Self, b: Self|
                Self::valid(a) && Self::valid(b) ==> #[trigger] Self::valid(
                    Self::difference(a, b),
                ),
            forall|a: Self, b: Self|
                Self::valid(a) && Self::valid(b) ==> #[trigger] Self::valid(Self::product(a, b)),
            forall|a: Self| Self::valid(a) ==> #[trigger] Self::valid(Self::opposite(a)),
    ;

    proof fn sum_commutes(a: Self, b: Self)
        requires
            Self::valid(a),
            Self::valid(b),
        ensures
            Self::sum(a, b) == Self::sum(b, a),
    ;

    proof fn sum_associates(a: Self, b: Self, c: Self)
        requires
            Self::valid(a),
            Self::valid(b),
            Self::valid(c),
        ensures
            Self::sum(Self::sum(a, b), c) == Self::sum(a, Self::sum(b, c)),
    ;

    proof fn sum_with_nought(a: Self)
        requires
            Self::valid(a),
        ensures
            Self::sum(a, Self::nought()) == a,
    ;

    proof fn opposite_cancels(a: Self)
        requires
            Self::valid(a),
        ensures
            Self::sum(a, Self::opposite(a)) == Self::nought(),
    ;

    proof fn difference_adds_the_opposite(a: Self, b: Self)
        requires
            Self::valid(a),
            Self::valid(b),
        ensures
            Self::difference(a, b) == Self::sum(a, Self::opposite(b)),
    ;

    proof fn product_commutes(a: Self, b: Self)
        requires
            Self::valid(a),
            Self::valid(b),
        ensures
            Self::product(a, b) == Self::product(b, a),
    ;

    proof fn product_associates(a: Self, b: Self, c: Self)
        requires
            Self::valid(a),
            Self::valid(b),
            Self::valid(c),
        ensures
            Self::product(Self::product(a, b), c) == Self::product(a, Self::product(b, c)),
    ;

    proof fn product_with_unit(a: Self)
        requires
            Self::valid(a),
        ensures
            Self::product(a, Self::unit()) == a,
    ;

    proof fn product_distributes(a: Self, b: Self, c: Self)
        requires
            Self::valid(a),
            Self::valid(b),
            Self::valid(c),
        ensures
            Self::product(a, Self::sum(b, c)) == Self::sum(
                Self::product(a, b),
                Self::product(a, c),
            ),
    ;
}

impl Ring for Residue {
    open spec fn valid(a: Residue) -> bool {
        a.value < PRIME
    }

    proof fn closed() {
    }

    proof fn sum_commutes(a: Residue, b: Residue) {
    }

    proof fn sum_associates(a: Residue, b: Residue, c: Residue) {
        let p = PRIME as int;
        vstd::arithmetic::div_mod::lemma_add_mod_noop(a.value + b.value, c.value as int, p);
        vstd::arithmetic::div_mod::lemma_add_mod_noop(a.value as int, b.value + c.value, p);
        vstd::arithmetic::div_mod::lemma_mod_twice(a.value + b.value, p);
        vstd::arithmetic::div_mod::lemma_mod_twice(b.value + c.value, p);
        vstd::arithmetic::div_mod::lemma_add_mod_noop(
            (a.value + b.value) % p,
            c.value as int,
            p,
        );
        vstd::arithmetic::div_mod::lemma_add_mod_noop(
            a.value as int,
            (b.value + c.value) % p,
            p,
        );
    }

    proof fn sum_with_nought(a: Residue) {
        vstd::arithmetic::div_mod::lemma_small_mod(a.value as nat, PRIME as nat);
    }

    proof fn opposite_cancels(a: Residue) {
        let p = PRIME as int;
        let o = (-a.value) % p;
        vstd::arithmetic::div_mod::lemma_add_mod_noop(a.value as int, -a.value, p);
        vstd::arithmetic::div_mod::lemma_add_mod_noop(a.value as int, o, p);
        vstd::arithmetic::div_mod::lemma_mod_twice(-a.value, p);
        assert(a.value + (-a.value) == 0);
    }

    proof fn difference_adds_the_opposite(a: Residue, b: Residue) {
        let p = PRIME as int;
        let o = (-b.value) % p;
        vstd::arithmetic::div_mod::lemma_add_mod_noop(a.value as int, -b.value, p);
        vstd::arithmetic::div_mod::lemma_add_mod_noop(a.value as int, o, p);
        vstd::arithmetic::div_mod::lemma_mod_twice(-b.value, p);
    }

    proof fn product_commutes(a: Residue, b: Residue) {
        assert(a.value * b.value == b.value * a.value) by (nonlinear_arith);
    }

    proof fn product_associates(a: Residue, b: Residue, c: Residue) {
        let p = PRIME as int;
        let x = a.value as int;
        let y = b.value as int;
        let z = c.value as int;
        vstd::arithmetic::div_mod::lemma_mul_mod_noop_general(x * y, z, p);
        vstd::arithmetic::div_mod::lemma_mul_mod_noop_general(x, y * z, p);
        assert((x * y) * z == x * (y * z)) by (nonlinear_arith);
    }

    proof fn product_with_unit(a: Residue) {
        assert(a.value * 1 == a.value);
        vstd::arithmetic::div_mod::lemma_small_mod(a.value as nat, PRIME as nat);
    }

    proof fn product_distributes(a: Residue, b: Residue, c: Residue) {
        let p = PRIME as int;
        let x = a.value as int;
        let y = b.value as int;
        let z = c.value as int;
        vstd::arithmetic::div_mod::lemma_mul_mod_noop_general(x, y + z, p);
        assert(x * (y + z) == x * y + x * z) by (nonlinear_arith);
        vstd::arithmetic::div_mod::lemma_add_mod_noop(x * y, x * z, p);
    }
}

// ---------------------------------------------------------------------------
// Sums and opposites
// ---------------------------------------------------------------------------

pub(crate) proof fn lemma_cancel<T: Ring>(x: T, y: T, z: T)
    requires
        T::valid(x),
        T::valid(y),
        T::valid(z),
        T::sum(x, y) == T::sum(x, z),
    ensures
        y == z,
{
    T::closed();
    let o = T::opposite(x);
    T::opposite_cancels(x);
    T::sum_commutes(x, o);
    T::sum_associates(o, x, y);
    T::sum_associates(o, x, z);
    T::sum_commutes(T::nought(), y);
    T::sum_commutes(T::nought(), z);
    T::sum_with_nought(y);
    T::sum_with_nought(z);
}

proof fn lemma_opposite_unique<T: Ring>(x: T, y: T)
    requires
        T::valid(x),
        T::valid(y),
        T::sum(x, y) == T::nought(),
    ensures
        y == T::opposite(x),
{
    T::closed();
    T::opposite_cancels(x);
    lemma_cancel(x, y, T::opposite(x));
}

pub(crate) proof fn lemma_product_nought<T: Ring>(a: T)
    requires
        T::valid(a),
    ensures
        T::product(a, T::nought()) == T::nought(),
{
    T::closed();
    let z = T::nought();
    let p = T::product(a, z);
    T::sum_with_nought(z);
    T::product_distributes(a, z, z);
    T::sum_with_nought(p);
    lemma_cancel(p, p, z);
}

pub(crate) proof fn lemma_product_opposite<T: Ring>(a: T, b: T)
    requires
        T::valid(a),
        T::valid(b),
    ensures
        T::product(a, T::opposite(b)) == T::opposite(T::product(a, b)),
{
    T::closed();
    T::opposite_cancels(b);
    T::product_distributes(a, b, T::opposite(b));
    lemma_product_nought(a);
    lemma_opposite_unique(T::product(a, b), T::product(a, T::opposite(b)));
}

/// The middle terms of two sums can be exchanged.
pub(crate) proof fn lemma_exchange<T: Ring>(a: T, b: T, c: T, d: T)
    requires
        T::valid(a),
        T::valid(b),
        T::valid(c),
        T::valid(d),
    ensures
        T::sum(T::sum(a, b), T::sum(c, d)) == T::sum(T::sum(a, c), T::sum(b, d)),
{
    T::closed();
    T::sum_associates(a, b, T::sum(c, d));
    T::sum_associates(b, c, d);
    T::sum_commutes(b, c);
    T::sum_associates(c, b, d);
    T::sum_associates(a, c, T::sum(b, d));
}

pub(crate) proof fn lemma_opposite_sum<T: Ring>(a: T, b: T)
    requires
        T::valid(a),
        T::valid(b),
    ensures
        T::opposite(T::sum(a, b)) == T::sum(T::opposite(a), T::opposite(b)),
{
    T::closed();
    let oa = T::opposite(a);
    let ob = T::opposite(b);
    lemma_exchange(a, b, oa, ob);
    T::opposite_cancels(a);
    T::opposite_cancels(b);
    T::sum_with_nought(T::nought());
    lemma_opposite_unique(T::sum(a, b), T::sum(oa, ob));
}

pub(crate) proof fn lemma_opposite_nought<T: Ring>()
    ensures
        T::opposite(T::nought()) == T::nought(),
{
    T::closed();
    T::sum_with_nought(T::nought());
    lemma_opposite_unique(T::nought(), T::nought());
}

pub(crate) proof fn lemma_less_nought<T: Ring>(a: T)
    requires
        T::valid(a),
    ensures
        T::difference(a, T::nought()) == a,
{
    T::closed();
    T::difference_adds_the_opposite(a, T::nought());
    lemma_opposite_nought::<T>();
    T::sum_with_nought(a);
}

pub(crate) proof fn lemma_product_difference<T: Ring>(a: T, b: T, c: T)
    requires
        T::valid(a),
        T::valid(b),
        T::valid(c),
    ensures
        T::product(a, T::difference(b, c)) == T::difference(T::product(a, b), T::product(a, c)),
{
    T::closed();
    T::difference_adds_the_opposite(b, c);
    T::product_distributes(a, b, T::opposite(c));
    lemma_product_opposite(a, c);
    T::difference_adds_the_opposite(T::product(a, b), T::product(a, c));
}

// ---------------------------------------------------------------------------
// Complex numbers
// ---------------------------------------------------------------------------

/// Whether a complex number is one.
pub open spec fn complex_valid<T: Ring>(a: Complex<T>) -> bool {
    T::valid(a.re) && T::valid(a.im)
}

/// Zero.
pub open spec fn complex_nought<T: Scalar>() -> Complex<T> {
    Complex { re: T::nought(), im: T::nought() }
}

/// One.
pub open spec fn complex_unit<T: Scalar>() -> Complex<T> {
    Complex { re: T::unit(), im: T::nought() }
}

/// Minus one.
pub open spec fn minus_unit<T: Scalar>() -> Complex<T> {
    Complex { re: T::opposite(T::unit()), im: T::nought() }
}

pub(crate) proof fn lemma_complex_closed<T: Ring>()
    ensures
        complex_valid(complex_nought::<T>()),
        complex_valid(complex_unit::<T>()),
        complex_valid(minus_unit::<T>()),
        forall|a: Complex<T>, b: Complex<T>|
            complex_valid(a) && complex_valid(b) ==> #[trigger] complex_valid(complex_sum(a, b)),
        forall|a: Complex<T>, b: Complex<T>|
            complex_valid(a) && complex_valid(b) ==> #[trigger] complex_valid(
                complex_product(a, b),
            ),
{
    T::closed();
    assert forall|a: Complex<T>, b: Complex<T>|
        complex_valid(a) && complex_valid(b) implies #[trigger] complex_valid(
        complex_product(a, b),
    ) by {
        assert(T::valid(T::product(a.re, b.re)));
        assert(T::valid(T::product(a.im, b.im)));
        assert(T::valid(T::product(a.re, b.im)));
        assert(T::valid(T::product(a.im, b.re)));
    }
}

proof fn lemma_complex_sum_nought<T: Ring>(a: Complex<T>)
    requires
        complex_valid(a),
    ensures
        complex_sum(a, complex_nought()) == a,
        complex_sum(complex_nought(), a) == a,
{
    T::closed();
    T::sum_with_nought(a.re);
    T::sum_with_nought(a.im);
    T::sum_commutes(T::nought(), a.re);
    T::sum_commutes(T::nought(), a.im);
}

proof fn lemma_complex_sum_associates<T: Ring>(a: Complex<T>, b: Complex<T>, c: Complex<T>)
    requires
        complex_valid(a),
        complex_valid(b),
        complex_valid(c),
    ensures
        complex_sum(complex_sum(a, b), c) == complex_sum(a, complex_sum(b, c)),
{
    T::sum_associates(a.re, b.re, c.re);
    T::sum_associates(a.im, b.im, c.im);
}

proof fn lemma_complex_exchange<T: Ring>(
    a: Complex<T>,
    b: Complex<T>,
    c: Complex<T>,
    d: Complex<T>,
)
    requires
        complex_valid(a),
        complex_valid(b),
        complex_valid(c),
        complex_valid(d),
    ensures
        complex_sum(complex_sum(a, b), complex_sum(c, d)) == complex_sum(
            complex_sum(a, c),
            complex_sum(b, d),
        ),
{
    lemma_exchange(a.re, b.re, c.re, d.re);
    lemma_exchange(a.im, b.im, c.im, d.im);
}

pub(crate) proof fn lemma_complex_product_commutes<T: Ring>(a: Complex<T>, b: Complex<T>)
    requires
        complex_valid(a),
        complex_valid(b),
    ensures
        complex_product(a, b) == complex_product(b, a),
{
    T::closed();
    T::product_commutes(a.re, b.re);
    T::product_commutes(a.im, b.im);
    T::product_commutes(a.re, b.im);
    T::product_commutes(a.im, b.re);
    T::sum_commutes(T::product(a.re, b.im), T::product(a.im, b.re));
}

proof fn lemma_complex_product_unit<T: Ring>(a: Complex<T>)
    requires
        complex_valid(a),
    ensures
        complex_product(a, complex_unit()) == a,
        complex_product(complex_unit(), a) == a,
{
    T::closed();
    lemma_complex_closed::<T>();
    T::product_with_unit(a.re);
    T::product_with_unit(a.im);
    lemma_product_nought(a.re);
    lemma_product_nought(a.im);
    lemma_less_nought(a.re);
    T::sum_commutes(T::nought(), a.im);
    T::sum_with_nought(a.im);
    lemma_complex_product_commutes(a, complex_unit());
}

proof fn lemma_complex_product_distributes<T: Ring>(a: Complex<T>, b: Complex<T>, c: Complex<T>)
    requires
        complex_valid(a),
        complex_valid(b),
        complex_valid(c),
    ensures
        complex_product(a, complex_sum(b, c)) == complex_sum(
            complex_product(a, b),
            complex_product(a, c),
        ),
        complex_product(complex_sum(b, c), a) == complex_sum(
            complex_product(b, a),
            complex_product(c, a),
        ),
{
    T::closed();
    lemma_complex_closed::<T>();
    T::product_distributes(a.re, b.re, c.re);
    T::product_distributes(a.im, b.im, c.im);
    T::product_distributes(a.re, b.im, c.im);
    T::product_distributes(a.im, b.re, c.re);
    let p = T::product(a.re, b.re);
    let q = T::product(a.re, c.re);
    let u = T::product(a.im, b.im);
    let v = T::product(a.im, c.im);
    // (p + q) - (u + v) is (p - u) + (q - v).
    T::difference_adds_the_opposite(T::sum(p, q), T::sum(u, v));
    lemma_opposite_sum(u, v);
    lemma_exchange(p, q, T::opposite(u), T::opposite(v));
    T::difference_adds_the_opposite(p, u);
    T::difference_adds_the_opposite(q, v);
    lemma_exchange(
        T::product(a.re, b.im),
        T::product(a.re, c.im),
        T::product(a.im, b.re),
        T::product(a.im, c.re),
    );
    lemma_complex_product_commutes(a, complex_sum(b, c));
    lemma_complex_product_commutes(a, b);
    lemma_complex_product_commutes(a, c);
}

/// A product of three numbers, however its factors are grouped and ordered.
proof fn lemma_triple<T: Ring>(x: T, y: T, z: T)
    requires
        T::valid(x),
        T::valid(y),
        T::valid(z),
    ensures
        T::product(T::product(x, y), z) == T::product(x, T::product(y, z)),
        T::product(z, T::product(x, y)) == T::product(x, T::product(y, z)),
{
    T::closed();
    T::product_associates(x, y, z);
    T::product_commutes(z, T::product(x, y));
}

proof fn lemma_complex_product_associates<T: Ring>(a: Complex<T>, b: Complex<T>, c: Complex<T>)
    requires
        complex_valid(a),
        complex_valid(b),
        complex_valid(c),
    ensures
        complex_product(complex_product(a, b), c) == complex_product(a, complex_product(b, c)),
{
    T::closed();
    let t1 = T::product(a.re, T::product(b.re, c.re));
    let t2 = T::product(a.im, T::product(b.im, c.re));
    let t3 = T::product(a.re, T::product(b.im, c.im));
    let t4 = T::product(a.im, T::product(b.re, c.im));
    let s1 = T::product(a.re, T::product(b.re, c.im));
    let s2 = T::product(a.im, T::product(b.im, c.im));
    let s3 = T::product(a.re, T::product(b.im, c.re));
    let s4 = T::product(a.im, T::product(b.re, c.re));
    let rr = T::product(a.re, b.re);
    let ii = T::product(a.im, b.im);
    let ri = T::product(a.re, b.im);
    let ir = T::product(a.im, b.re);
    lemma_triple(a.re, b.re, c.re);
    lemma_triple(a.im, b.im, c.re);
    lemma_triple(a.re, b.im, c.im);
    lemma_triple(a.im, b.re, c.im);
    lemma_triple(a.re, b.re, c.im);
    lemma_triple(a.im, b.im, c.im);
    lemma_triple(a.re, b.im, c.re);
    lemma_triple(a.im, b.re, c.re);
    // The left side, with the third factor moved to the front.
    let d = T::difference(rr, ii);
    let e = T::sum(ri, ir);
    T::product_commutes(d, c.re);
    T::product_commutes(e, c.im);
    T::product_commutes(d, c.im);
    T::product_commutes(e, c.re);
    lemma_product_difference(c.re, rr, ii);
    T::product_distributes(c.im, ri, ir);
    lemma_product_difference(c.im, rr, ii);
    T::product_distributes(c.re, ri, ir);
    let left = complex_product(complex_product(a, b), c);
    assert(left.re == T::difference(T::difference(t1, t2), T::sum(t3, t4)));
    assert(left.im == T::sum(T::difference(s1, s2), T::sum(s3, s4)));
    // The right side.
    lemma_product_difference(a.re, T::product(b.re, c.re), T::product(b.im, c.im));
    T::product_distributes(a.im, T::product(b.re, c.im), T::product(b.im, c.re));
    T::product_distributes(a.re, T::product(b.re, c.im), T::product(b.im, c.re));
    lemma_product_difference(a.im, T::product(b.re, c.re), T::product(b.im, c.im));
    let right = complex_product(a, complex_product(b, c));
    assert(right.re == T::difference(T::difference(t1, t3), T::sum(t4, t2)));
    assert(right.im == T::sum(T::sum(s1, s3), T::difference(s4, s2)));
    // Both real parts are t1 and the opposites of the other three.
    let o2 = T::opposite(t2);
    let o3 = T::opposite(t3);
    let o4 = T::opposite(t4);
    T::difference_adds_the_opposite(t1, t2);
    T::difference_adds_the_opposite(t1, t3);
    T::difference_adds_the_opposite(T::sum(t1, o2), T::sum(t3, t4));
    T::difference_adds_the_opposite(T::sum(t1, o3), T::sum(t4, t2));
    lemma_opposite_sum(t3, t4);
    lemma_opposite_sum(t4, t2);
    lemma_exchange(t1, o2, o3, o4);
    T::sum_commutes(o2, o4);
    // Both imaginary parts are s1, s3, s4 and the opposite of s2.
    let q2 = T::opposite(s2);
    T::difference_adds_the_opposite(s1, s2);
    T::difference_adds_the_opposite(s4, s2);
    lemma_exchange(s1, q2, s3, s4);
    T::sum_commutes(q2, s4);
}

/// Subtracting is adding the product with minus one.
proof fn lemma_complex_difference<T: Ring>(a: Complex<T>, b: Complex<T>)
    requires
        complex_valid(a),
        complex_valid(b),
    ensures
        complex_difference(a, b) == complex_sum(a, complex_product(b, minus_unit())),
{
    T::closed();
    let one = T::unit();
    lemma_product_opposite(b.re, one);
    lemma_product_opposite(b.im, one);
    T::product_with_unit(b.re);
    T::product_with_unit(b.im);
    lemma_product_nought(b.re);
    lemma_product_nought(b.im);
    let r = T::opposite(b.re);
    let i = T::opposite(b.im);
    lemma_less_nought(r);
    T::sum_commutes(T::nought(), i);
    T::sum_with_nought(i);
    T::difference_adds_the_opposite(a.re, b.re);
    T::difference_adds_the_opposite(a.im, b.im);
}

// ---------------------------------------------------------------------------
// Powers
// ---------------------------------------------------------------------------

/// A complex number raised to a power.
pub open spec fn complex_power<T: Scalar>(w: Complex<T>, k: nat) -> Complex<T>
    decreases k,
{
    if k == 0 {
        complex_unit()
    } else {
        complex_product(complex_power(w, (k - 1) as nat), w)
    }
}

proof fn lemma_power_valid<T: Ring>(w: Complex<T>, k: nat)
    requires
        complex_valid(w),
    ensures
        complex_valid(complex_power(w, k)),
    decreases k,
{
    lemma_complex_closed::<T>();
    if k > 0 {
        lemma_power_valid(w, (k - 1) as nat);
    }
}

proof fn lemma_power_adds<T: Ring>(w: Complex<T>, a: nat, b: nat)
    requires
        complex_valid(w),
    ensures
        complex_power(w, a + b) == complex_product(complex_power(w, a), complex_power(w, b)),
    decreases b,
{
    lemma_power_valid(w, a);
    if b == 0 {
        lemma_complex_product_unit(complex_power(w, a));
    } else {
        let c = (b - 1) as nat;
        lemma_power_adds(w, a, c);
        lemma_power_valid(w, c);
        lemma_complex_product_associates(complex_power(w, a), complex_power(w, c), w);
        assert(a + b - 1 == a + c);
    }
}

/// A number whose power is one, raised to a multiple of that power, is one.
proof fn lemma_power_of_order<T: Ring>(w: Complex<T>, n: nat, i: nat)
    requires
        complex_valid(w),
        complex_power(w, n) == complex_unit::<T>(),
    ensures
        complex_power(w, i * n) == complex_unit::<T>(),
    decreases i,
{
    lemma_complex_closed::<T>();
    if i == 0 {
        assert(0 * n == 0) by (nonlinear_arith);
    } else {
        let j = (i - 1) as nat;
        lemma_power_of_order(w, n, j);
        assert(i * n == j * n + n) by (nonlinear_arith)
            requires
                i == j + 1,
        ;
        assert(j * n >= 0) by (nonlinear_arith);
        lemma_power_adds(w, j * n, n);
        lemma_complex_product_unit(complex_unit::<T>());
    }
}

// ---------------------------------------------------------------------------
// Sums
// ---------------------------------------------------------------------------

/// The sum of the first `n` terms.
pub open spec fn complex_total<T: Scalar>(term: spec_fn(int) -> Complex<T>, n: nat) -> Complex<T>
    decreases n,
{
    if n == 0 {
        complex_nought()
    } else {
        complex_sum(complex_total(term, (n - 1) as nat), term(n - 1))
    }
}

proof fn lemma_total_valid<T: Ring>(term: spec_fn(int) -> Complex<T>, n: nat)
    requires
        forall|i: int| 0 <= i < n ==> complex_valid(#[trigger] term(i)),
    ensures
        complex_valid(complex_total(term, n)),
    decreases n,
{
    lemma_complex_closed::<T>();
    if n > 0 {
        lemma_total_valid(term, (n - 1) as nat);
        assert(complex_valid(term(n - 1)));
    }
}

proof fn lemma_total_same<T: Ring>(f: spec_fn(int) -> Complex<T>, g: spec_fn(int) -> Complex<T>, n: nat)
    requires
        forall|i: int| 0 <= i < n ==> #[trigger] f(i) == g(i),
    ensures
        complex_total(f, n) == complex_total(g, n),
    decreases n,
{
    if n > 0 {
        lemma_total_same(f, g, (n - 1) as nat);
        assert(f(n - 1) == g(n - 1));
    }
}

/// The even terms.
pub open spec fn evens<T>(f: spec_fn(int) -> Complex<T>) -> spec_fn(int) -> Complex<T> {
    |i: int| f(2 * i)
}

/// The odd terms.
pub open spec fn odds<T>(f: spec_fn(int) -> Complex<T>) -> spec_fn(int) -> Complex<T> {
    |i: int| f(2 * i + 1)
}

/// The terms, each times a factor.
pub open spec fn scaled_terms<T: Scalar>(
    f: spec_fn(int) -> Complex<T>,
    c: Complex<T>,
) -> spec_fn(int) -> Complex<T> {
    |i: int| complex_product(f(i), c)
}

proof fn lemma_total_splits<T: Ring>(f: spec_fn(int) -> Complex<T>, h: nat)
    requires
        forall|i: int| 0 <= i < 2 * h ==> complex_valid(#[trigger] f(i)),
    ensures
        complex_total(f, 2 * h) == complex_sum(
            complex_total(evens(f), h),
            complex_total(odds(f), h),
        ),
    decreases h,
{
    lemma_complex_closed::<T>();
    if h == 0 {
        lemma_complex_sum_nought(complex_nought::<T>());
    } else {
        let k = (h - 1) as nat;
        lemma_total_splits(f, k);
        let e = complex_total(evens(f), k);
        let o = complex_total(odds(f), k);
        assert forall|i: int| 0 <= i < k implies complex_valid(#[trigger] evens(f)(i)) by {
            assert(complex_valid(f(2 * i)));
        }
        assert forall|i: int| 0 <= i < k implies complex_valid(#[trigger] odds(f)(i)) by {
            assert(complex_valid(f(2 * i + 1)));
        }
        lemma_total_valid(evens(f), k);
        lemma_total_valid(odds(f), k);
        let a = f(2 * (k as int));
        let b = f(2 * (k as int) + 1);
        assert(complex_valid(a) && complex_valid(b));
        let t = complex_total(f, 2 * k);
        assert(complex_total(f, (2 * h - 1) as nat) == complex_sum(t, a)) by {
            assert((2 * h - 1) as nat - 1 == 2 * k);
        }
        assert(complex_total(f, 2 * h) == complex_sum(complex_sum(t, a), b));
        lemma_complex_sum_associates(t, a, b);
        lemma_complex_exchange(e, o, a, b);
        assert(complex_total(evens(f), h) == complex_sum(e, a));
        assert(complex_total(odds(f), h) == complex_sum(o, b));
    }
}

proof fn lemma_total_scales<T: Ring>(f: spec_fn(int) -> Complex<T>, c: Complex<T>, n: nat)
    requires
        forall|i: int| 0 <= i < n ==> complex_valid(#[trigger] f(i)),
        complex_valid(c),
    ensures
        complex_total(scaled_terms(f, c), n) == complex_product(complex_total(f, n), c),
    decreases n,
{
    lemma_complex_closed::<T>();
    if n == 0 {
        T::closed();
        let z = complex_nought::<T>();
        lemma_complex_product_commutes(z, c);
        lemma_product_nought(c.re);
        lemma_product_nought(c.im);
        lemma_less_nought(T::nought());
        T::sum_with_nought(T::nought());
    } else {
        let k = (n - 1) as nat;
        lemma_total_scales(f, c, k);
        lemma_total_valid(f, k);
        assert(complex_valid(f(n - 1)));
        lemma_complex_product_distributes(c, complex_total(f, k), f(n - 1));
    }
}

// ---------------------------------------------------------------------------
// The Fourier transform
// ---------------------------------------------------------------------------

/// The terms of a Fourier sum: each number times a power of a root of unity.
pub open spec fn fourier_terms<T: Scalar>(x: Seq<T>, w: Complex<T>, c: int) -> spec_fn(
    int,
) -> Complex<T> {
    |j: int| complex_product(complex_at(x, j), complex_power(w, (j * c) as nat))
}

/// The Fourier transform of interleaved complex numbers at a frequency.
pub open spec fn fourier_sum<T: Scalar>(x: Seq<T>, w: Complex<T>, n: nat, c: int) -> Complex<T> {
    complex_total(fourier_terms(x, w, c), n)
}

/// Whether twiddles are the powers of a root of unity that an exact transform needs.
pub open spec fn exact_twiddles<T: Scalar>(tw: Seq<T>, w: Complex<T>, n_fft: usize) -> bool {
    forall|stage: int, b: int|
        0 <= stage < stages_of(n_fft) && 0 <= b < n_fft / 2 ==> #[trigger] complex_at(
            tw,
            twiddle_place(stage, b, n_fft as int / 2),
        ) == complex_power(
            w,
            ((b % (pow2(stage as nat) as int)) * (n_fft as int / (2 * pow2(stage as nat) as int)))
                as nat,
        )
}

/// The terms of a part of a Fourier sum: every `d`-th number from `r` on.
spec fn part_terms<T: Scalar>(x: Seq<T>, w: Complex<T>, r: int, d: nat, t: nat) -> spec_fn(
    int,
) -> Complex<T> {
    |j: int| complex_product(complex_at(x, r + j * d), complex_power(w, (j * t * d) as nat))
}

/// What the first `k` stages leave at place `t` of block `m`.
spec fn part_sum<T: Scalar>(x: Seq<T>, w: Complex<T>, bits: nat, k: nat, m: nat, t: nat) -> Complex<
    T,
> {
    let rest = (bits - k) as nat;
    complex_total(part_terms(x, w, reversed(m, rest) as int, pow2(rest), t), pow2(k))
}

/// Whether every number of a buffer is one.
pub open spec fn all_valid<T: Ring>(x: Seq<T>) -> bool {
    forall|i: int| 0 <= i < x.len() ==> T::valid(#[trigger] x[i])
}

proof fn lemma_part_terms_valid<T: Ring>(x: Seq<T>, w: Complex<T>, r: int, d: nat, t: nat, n: nat)
    requires
        all_valid(x),
        complex_valid(w),
        forall|j: int| 0 <= j < n ==> 0 <= #[trigger] (r + j * d) && 2 * (r + j * d) + 1 < x.len(),
    ensures
        forall|j: int| 0 <= j < n ==> complex_valid(#[trigger] part_terms(x, w, r, d, t)(j)),
{
    lemma_complex_closed::<T>();
    assert forall|j: int| 0 <= j < n implies complex_valid(
        #[trigger] part_terms(x, w, r, d, t)(j),
    ) by {
        let at = r + j * d;
        assert(0 <= r + j * d && 2 * (r + j * d) + 1 < x.len());
        assert(T::valid(x[2 * at]) && T::valid(x[2 * at + 1]));
        lemma_power_valid(w, (j * t * d) as nat);
    }
}

/// The numbers of a block lie within the buffer.
proof fn lemma_block_places(bits: nat, k: nat, m: nat, len: int)
    requires
        k <= bits,
        m < pow2((bits - k) as nat),
        len == 2 * pow2(bits),
    ensures
        ({
            let rest = (bits - k) as nat;
            let r = reversed(m, rest) as int;
            let d = pow2(rest);
            &&& 0 <= r < d
            &&& forall|j: int|
                0 <= j < pow2(k) ==> 0 <= #[trigger] (r + j * d) && 2 * (r + j * d) + 1 < len
        }),
{
    let rest = (bits - k) as nat;
    let r = reversed(m, rest) as int;
    let d = pow2(rest);
    crate::butterfly::reversal_is_its_own_inverse(m, rest);
    lemma_pow2_adds(k, rest);
    assert forall|j: int| 0 <= j < pow2(k) implies 0 <= #[trigger] (r + j * d) && 2 * (r + j * d)
        + 1 < len by {
        assert(0 <= j * d) by (nonlinear_arith)
            requires
                0 <= j,
        ;
        assert(j * d + d <= pow2(k) * d) by (nonlinear_arith)
            requires
                j + 1 <= pow2(k),
        ;
    }
}

/// Joining two blocks: the sums of the even and of the odd numbers make the sum of all.
proof fn lemma_part_joins<T: Ring>(
    x: Seq<T>,
    w: Complex<T>,
    bits: nat,
    k: nat,
    m: nat,
    t: nat,
    over: bool,
)
    requires
        k < bits,
        t < pow2(k),
        m < pow2((bits - k - 1) as nat),
        x.len() == 2 * pow2(bits),
        all_valid(x),
        complex_valid(w),
        complex_power(w, pow2(bits)) == complex_unit::<T>(),
    ensures
        ({
            let d = pow2((bits - k - 1) as nat);
            let top = if over {
                t + pow2(k)
            } else {
                t
            };
            part_sum(x, w, bits, k + 1, m, top) == complex_sum(
                part_sum(x, w, bits, k, 2 * m, t),
                complex_product(
                    part_sum(x, w, bits, k, 2 * m + 1, t),
                    complex_power(w, top * d),
                ),
            )
        }),
{
    lemma_complex_closed::<T>();
    let s = pow2(k);
    let rest = (bits - k - 1) as nat;
    let d = pow2(rest);
    let top: nat = if over {
        t + s
    } else {
        t
    };
    let r = reversed(m, rest) as int;
    lemma_pow2_unfold((rest + 1) as nat);
    lemma_pow2_unfold(k + 1);
    lemma_pow2_adds(k, rest + 1);
    lemma_pow2_pos(k);
    lemma_pow2_pos(rest);
    let dd = pow2(rest + 1);
    assert(dd == 2 * d);
    assert(s * dd == pow2(bits));
    assert((2 * m) % 2 == 0 && (2 * m) / 2 == m);
    assert((2 * m + 1) % 2 == 1 && (2 * m + 1) / 2 == m);
    assert(reversed(2 * m, rest + 1) == r) by {
        assert(0 * pow2(rest) == 0) by (nonlinear_arith);
    }
    assert(reversed(2 * m + 1, rest + 1) == d + r) by {
        assert(1 * pow2(rest) == pow2(rest)) by (nonlinear_arith);
    }
    let f = part_terms(x, w, r, d, top);
    let e = part_terms(x, w, r, dd, t);
    let o = part_terms(x, w, d + r, dd, t);
    lemma_block_places(bits, k + 1, m, x.len() as int);
    lemma_part_terms_valid(x, w, r, d, top, 2 * s);
    lemma_block_places(bits, k, 2 * m, x.len() as int);
    lemma_part_terms_valid(x, w, r, dd, t, s);
    lemma_block_places(bits, k, 2 * m + 1, x.len() as int);
    lemma_part_terms_valid(x, w, d + r, dd, t, s);
    lemma_total_splits(f, s);
    let turn = complex_power(w, top * d);
    assert(top * d >= 0) by (nonlinear_arith);
    lemma_power_valid(w, top * d);
    assert forall|i: int| 0 <= i < s implies #[trigger] evens(f)(i) == e(i) by {
        lemma_even_term(x, w, r, d, dd, s, t, over, bits, i);
    }
    assert forall|i: int| 0 <= i < s implies #[trigger] odds(f)(i) == scaled_terms(o, turn)(i) by {
        lemma_odd_term(x, w, r, d, dd, s, t, over, bits, i);
        assert(complex_valid(o(i)));
    }
    lemma_total_same(evens(f), e, s);
    lemma_total_same(odds(f), scaled_terms(o, turn), s);
    lemma_total_scales(o, turn, s);
    assert((bits - (k + 1)) as nat == rest);
    assert((bits - k) as nat == rest + 1);
}

/// Turning by the whole circle and by part of it is turning by the part.
proof fn lemma_circle<T: Ring>(w: Complex<T>, i: nat, t: nat, s: nat, dd: nat, n: nat, over: bool)
    requires
        complex_valid(w),
        complex_power(w, n) == complex_unit::<T>(),
        s * dd == n,
    ensures
        complex_power(
            w,
            i * (if over {
                t + s
            } else {
                t
            }) * dd,
        ) == complex_power(w, i * t * dd),
{
    assert(i * t * dd >= 0) by (nonlinear_arith);
    if over {
        assert(i * (t + s) * dd == i * t * dd + i * n) by (nonlinear_arith)
            requires
                s * dd == n,
        ;
        assert(i * n >= 0) by (nonlinear_arith);
        lemma_power_adds(w, (i * t * dd) as nat, (i * n) as nat);
        lemma_power_of_order(w, n, i);
        lemma_power_valid(w, (i * t * dd) as nat);
        lemma_complex_product_unit(complex_power(w, (i * t * dd) as nat));
    }
}

proof fn lemma_even_term<T: Ring>(
    x: Seq<T>,
    w: Complex<T>,
    r: int,
    d: nat,
    dd: nat,
    s: nat,
    t: nat,
    over: bool,
    bits: nat,
    i: int,
)
    requires
        complex_valid(w),
        complex_power(w, pow2(bits)) == complex_unit::<T>(),
        dd == 2 * d,
        s * dd == pow2(bits),
        0 <= i,
    ensures
        ({
            let top = if over {
                t + s
            } else {
                t
            };
            part_terms(x, w, r, d, top)(2 * i) == part_terms(x, w, r, dd, t)(i)
        }),
{
    let top: nat = if over {
        t + s
    } else {
        t
    };
    assert(r + (2 * i) * d == r + i * dd) by (nonlinear_arith)
        requires
            dd == 2 * d,
    ;
    assert((2 * i) * top * d == i * top * dd) by (nonlinear_arith)
        requires
            dd == 2 * d,
    ;
    assert(i * top * dd >= 0 && i * t * dd >= 0) by (nonlinear_arith)
        requires
            i >= 0,
    ;
    lemma_circle(w, i as nat, t, s, dd, pow2(bits), over);
}

proof fn lemma_odd_term<T: Ring>(
    x: Seq<T>,
    w: Complex<T>,
    r: int,
    d: nat,
    dd: nat,
    s: nat,
    t: nat,
    over: bool,
    bits: nat,
    i: int,
)
    requires
        complex_valid(w),
        complex_power(w, pow2(bits)) == complex_unit::<T>(),
        dd == 2 * d,
        s * dd == pow2(bits),
        0 <= i,
        complex_valid(complex_at(x, (d + r) + i * dd)),
    ensures
        ({
            let top = if over {
                t + s
            } else {
                t
            };
            part_terms(x, w, r, d, top)(2 * i + 1) == complex_product(
                part_terms(x, w, d + r, dd, t)(i),
                complex_power(w, top * d),
            )
        }),
{
    let top: nat = if over {
        t + s
    } else {
        t
    };
    assert(r + (2 * i + 1) * d == (d + r) + i * dd) by (nonlinear_arith)
        requires
            dd == 2 * d,
    ;
    assert((2 * i + 1) * top * d == i * top * dd + top * d) by (nonlinear_arith)
        requires
            dd == 2 * d,
    ;
    assert(i * top * dd >= 0 && i * t * dd >= 0 && top * d >= 0) by (nonlinear_arith)
        requires
            i >= 0,
    ;
    lemma_circle(w, i as nat, t, s, dd, pow2(bits), over);
    let a = (i * top * dd) as nat;
    let b = (top * d) as nat;
    lemma_power_adds(w, a, b);
    lemma_power_valid(w, a);
    lemma_power_valid(w, b);
    lemma_complex_product_associates(
        complex_at(x, (d + r) + i * dd),
        complex_power(w, a),
        complex_power(w, b),
    );
}

/// Where a place of a block finds its butterfly.
proof fn lemma_block_butterfly(m: int, t: int, s: int, over: bool)
    requires
        0 <= m,
        0 <= t < s,
    ensures
        ({
            let c = m * (2 * s) + if over {
                t + s
            } else {
                t
            };
            let b = m * s + t;
            &&& butterfly_of(c, s) == b
            &&& upper_place(b, s) == m * (2 * s) + t
            &&& b % s == t
            &&& (c % (2 * s) < s) == !over
            &&& m * (2 * s) == (2 * m) * s
            &&& m * (2 * s) + s == (2 * m + 1) * s
        }),
{
    let top = if over {
        t + s
    } else {
        t
    };
    let c = m * (2 * s) + top;
    let b = m * s + t;
    assert(m * (2 * s) == (2 * s) * m) by (nonlinear_arith);
    vstd::arithmetic::div_mod::lemma_fundamental_div_mod_converse(c, 2 * s, m, top);
    assert(m * (2 * s) == s * (2 * m)) by (nonlinear_arith);
    assert(m * (2 * s) + s == s * (2 * m + 1)) by (nonlinear_arith);
    assert((2 * m) * s == s * (2 * m)) by (nonlinear_arith);
    assert((2 * m + 1) * s == s * (2 * m + 1)) by (nonlinear_arith);
    if over {
        vstd::arithmetic::div_mod::lemma_fundamental_div_mod_converse(c, s, 2 * m + 1, t);
    } else {
        vstd::arithmetic::div_mod::lemma_fundamental_div_mod_converse(c, s, 2 * m, t);
    }
    assert(m * s == s * m) by (nonlinear_arith);
    vstd::arithmetic::div_mod::lemma_fundamental_div_mod_converse(b, s, m, t);
}

/// What the first `k` stages leave at every place.
proof fn lemma_stages<T: Ring>(x: Seq<T>, tw: Seq<T>, w: Complex<T>, n_fft: usize, k: nat, m: nat, t: nat)
    requires
        power_of_two(n_fft as nat),
        n_fft >= 2,
        x.len() == 2 * n_fft,
        all_valid(x),
        complex_valid(w),
        complex_power(w, (n_fft / 2) as nat) == minus_unit::<T>(),
        complex_power(w, n_fft as nat) == complex_unit::<T>(),
        exact_twiddles(tw, w, n_fft),
        k <= stages_of(n_fft),
        n_fft == pow2(stages_of(n_fft)),
        m < pow2((stages_of(n_fft) - k) as nat),
        t < pow2(k),
    ensures
        complex_at(
            after_stages(permuted(x, n_fft), tw, n_fft as int, k),
            (m * pow2(k) + t) as int,
        ) == part_sum(x, w, stages_of(n_fft), k, m, t),
    decreases k,
{
    let bits = stages_of(n_fft);
    let n = n_fft as int;
    lemma_complex_closed::<T>();
    if k == 0 {
        vstd::arithmetic::power2::lemma2_to64();
        assert(t == 0);
        assert(m * pow2(0) + t == m) by (nonlinear_arith)
            requires
                pow2(0) == 1,
                t == 0,
        ;
        let r = reversed(m, bits) as int;
        crate::butterfly::reversal_is_its_own_inverse(m, bits);
        let p = permuted(x, n_fft);
        assert(source_place(m as int, n_fft) == r);
        assert((2 * m) / 2 == m && (2 * m + 1) / 2 == m);
        assert(complex_at(p, m as int) == complex_at(x, r));
        let f = part_terms(x, w, r, pow2(bits), 0);
        assert(T::valid(x[2 * r]) && T::valid(x[2 * r + 1]));
        assert(0 * 0 * pow2(bits) == 0) by (nonlinear_arith);
        assert(r + 0 * pow2(bits) == r) by (nonlinear_arith);
        assert(f(0) == complex_product(complex_at(x, r), complex_unit()));
        lemma_complex_product_unit(complex_at(x, r));
        lemma_complex_sum_nought(complex_at(x, r));
        assert(complex_total(f, 1) == complex_sum(complex_total(f, 0), f(0))) by {
            reveal_with_fuel(complex_total, 2);
        }
        assert((bits - 0) as nat == bits);
    } else {
        let h = (k - 1) as nat;
        let s = pow2(h);
        lemma_pow2_unfold(k);
        lemma_pow2_pos(h);
        let over = t >= s;
        let u: nat = if over {
            (t - s) as nat
        } else {
            t
        };
        let rest = (bits - k) as nat;
        let d = pow2(rest);
        lemma_pow2_unfold(rest + 1);
        lemma_pow2_adds(h, rest + 1);
        lemma_pow2_adds(h, rest);
        lemma_pow2_unfold(bits);
        assert((bits - h) as nat == rest + 1);
        lemma_stages(x, tw, w, n_fft, h, 2 * m, u);
        lemma_stages(x, tw, w, n_fft, h, 2 * m + 1, u);
        lemma_block_butterfly(m as int, u as int, s as int, over);
        let buf = after_stages(permuted(x, n_fft), tw, n, h);
        let c = m * (2 * s) + t;
        let b = m * s + u;
        assert(m * pow2(k) + t == c) by (nonlinear_arith)
            requires
                pow2(k) == 2 * s,
                c == m * (2 * s) + t,
        ;
        lemma_stride(n_fft, h);
        assert(0 <= c < n && 0 <= b < n / 2) by {
            assert((m + 1) * (2 * s) <= d * (2 * s)) by (nonlinear_arith)
                requires
                    m + 1 <= d,
            ;
            assert((m + 1) * (2 * s) == m * (2 * s) + 2 * s) by (nonlinear_arith);
            assert(d * (2 * s) == 2 * (s * d)) by (nonlinear_arith);
            assert(0 <= m * (2 * s)) by (nonlinear_arith);
            assert((m + 1) * s <= d * s) by (nonlinear_arith)
                requires
                    m + 1 <= d,
            ;
            assert((m + 1) * s == m * s + s) by (nonlinear_arith);
            assert(d * s == s * d) by (nonlinear_arith);
            assert(0 <= m * s) by (nonlinear_arith);
        }
        assert(complex_at(staged(buf, tw, n, h), c as int) == stage_value(
            buf,
            tw,
            n,
            h,
            c as int,
        )) by {
            assert((2 * c) / 2 == c && (2 * c) % 2 == 0);
            assert((2 * c + 1) / 2 == c && (2 * c + 1) % 2 == 1);
        }
        // The twiddle of the butterfly.
        assert(n / (2 * s as int) == d) by {
            assert(n == (2 * s) * d + 0) by (nonlinear_arith)
                requires
                    n == 2 * (s * d),
            ;
            vstd::arithmetic::div_mod::lemma_fundamental_div_mod_converse(
                n,
                (2 * s) as int,
                d as int,
                0,
            );
        }
        let turn = complex_power(w, u * d);
        assert(complex_at(tw, twiddle_place(h as int, b as int, n / 2)) == turn);
        let e = part_sum(x, w, bits, h, 2 * m, u);
        let o = part_sum(x, w, bits, h, 2 * m + 1, u);
        assert(complex_at(buf, upper_place(b as int, s as int)) == e);
        assert(complex_at(buf, upper_place(b as int, s as int) + s) == o);
        lemma_part_joins(x, w, bits, h, m, u, over);
        lemma_block_places(bits, h, 2 * m, x.len() as int);
        lemma_block_places(bits, h, 2 * m + 1, x.len() as int);
        lemma_part_terms_valid(
            x,
            w,
            reversed(2 * m, rest + 1) as int,
            pow2(rest + 1),
            u,
            s,
        );
        lemma_part_terms_valid(
            x,
            w,
            reversed(2 * m + 1, rest + 1) as int,
            pow2(rest + 1),
            u,
            s,
        );
        lemma_total_valid(
            part_terms(x, w, reversed(2 * m, rest + 1) as int, pow2(rest + 1), u),
            s,
        );
        lemma_total_valid(
            part_terms(x, w, reversed(2 * m + 1, rest + 1) as int, pow2(rest + 1), u),
            s,
        );
        lemma_power_valid(w, u * d);
        if over {
            assert((u + s) * d == u * d + s * d) by (nonlinear_arith);
            assert(u * d >= 0 && s * d >= 0) by (nonlinear_arith);
            assert(s * d == n_fft / 2);
            lemma_power_adds(w, (u * d) as nat, (s * d) as nat);
            lemma_complex_product_associates(o, turn, minus_unit());
            lemma_complex_difference(e, complex_product(o, turn));
        }
    }
}

/// With the powers of a root of unity for twiddles, the butterfly transform is the Fourier
/// transform.
pub proof fn butterfly_is_the_fourier_transform<T: Ring>(
    x: Seq<T>,
    tw: Seq<T>,
    w: Complex<T>,
    n_fft: usize,
    c: int,
)
    requires
        power_of_two(n_fft as nat),
        n_fft >= 2,
        x.len() == 2 * n_fft,
        all_valid(x),
        complex_valid(w),
        complex_power(w, (n_fft / 2) as nat) == minus_unit::<T>(),
        exact_twiddles(tw, w, n_fft),
        0 <= c < n_fft,
    ensures
        complex_at(transformed(x, tw, n_fft), c) == fourier_sum(x, w, n_fft as nat, c),
{
    let bits = stages_of(n_fft);
    lemma_complex_closed::<T>();
    twos_of_power(n_fft as nat);
    vstd::arithmetic::power2::lemma2_to64();
    // Twice half the circle is the whole circle.
    let half = (n_fft / 2) as nat;
    assert(bits >= 1) by {
        if bits == 0 {
            assert(pow2(0) == 1);
        }
    }
    lemma_pow2_unfold(bits);
    assert(n_fft == half + half);
    lemma_power_adds(w, half, half);
    T::closed();
    lemma_complex_difference(complex_nought::<T>(), minus_unit::<T>());
    lemma_minus_squared::<T>();
    lemma_stages(x, tw, w, n_fft, bits, 0, c as nat);
    assert(0 * pow2(bits) + c == c) by (nonlinear_arith);
    assert((bits - bits) as nat == 0);
    assert(reversed(0, 0) == 0);
    let f = part_terms(x, w, 0, 1, c as nat);
    assert forall|j: int| 0 <= j < n_fft implies #[trigger] f(j) == fourier_terms(x, w, c)(j) by {
        assert(j * c * 1 == j * c);
        assert(0 + j * 1 == j);
    }
    lemma_total_same(f, fourier_terms(x, w, c), n_fft as nat);
}

/// Minus one times minus one is one.
proof fn lemma_minus_squared<T: Ring>()
    ensures
        complex_product(minus_unit::<T>(), minus_unit::<T>()) == complex_unit::<T>(),
{
    T::closed();
    let one = T::unit();
    let m = T::opposite(one);
    let z = T::nought();
    lemma_product_opposite(m, one);
    T::product_with_unit(m);
    // The opposite of the opposite is the number itself.
    T::opposite_cancels(one);
    T::sum_commutes(one, m);
    lemma_opposite_unique(m, one);
    lemma_product_nought(m);
    lemma_product_nought(z);
    T::product_commutes(z, m);
    lemma_less_nought(one);
    T::sum_with_nought(z);
}

// ---------------------------------------------------------------------------
// The inverse transform
// ---------------------------------------------------------------------------

/// The conjugate of a complex number.
pub open spec fn complex_conj<T: Scalar>(a: Complex<T>) -> Complex<T> {
    Complex { re: a.re, im: T::opposite(a.im) }
}

pub(crate) proof fn lemma_opposite_twice<T: Ring>(a: T)
    requires
        T::valid(a),
    ensures
        T::opposite(T::opposite(a)) == a,
{
    T::closed();
    T::opposite_cancels(a);
    T::sum_commutes(a, T::opposite(a));
    lemma_opposite_unique(T::opposite(a), a);
}

proof fn lemma_conj_valid<T: Ring>()
    ensures
        forall|a: Complex<T>| complex_valid(a) ==> complex_valid(#[trigger] complex_conj(a)),
{
    T::closed();
}

proof fn lemma_conj_sum<T: Ring>(a: Complex<T>, b: Complex<T>)
    requires
        complex_valid(a),
        complex_valid(b),
    ensures
        complex_conj(complex_sum(a, b)) == complex_sum(complex_conj(a), complex_conj(b)),
{
    lemma_opposite_sum(a.im, b.im);
}

proof fn lemma_conj_product<T: Ring>(a: Complex<T>, b: Complex<T>)
    requires
        complex_valid(a),
        complex_valid(b),
    ensures
        complex_conj(complex_product(a, b)) == complex_product(complex_conj(a), complex_conj(b)),
{
    T::closed();
    let oa = T::opposite(a.im);
    let ob = T::opposite(b.im);
    // The product of two opposites is that of the numbers.
    lemma_product_opposite(oa, b.im);
    T::product_commutes(oa, b.im);
    lemma_product_opposite(b.im, a.im);
    T::product_commutes(b.im, a.im);
    lemma_opposite_twice(T::product(a.im, b.im));
    // The imaginary part.
    lemma_opposite_sum(T::product(a.re, b.im), T::product(a.im, b.re));
    lemma_product_opposite(a.re, b.im);
    T::product_commutes(oa, b.re);
    lemma_product_opposite(b.re, a.im);
    T::product_commutes(b.re, a.im);
}

proof fn lemma_conj_unit<T: Ring>()
    ensures
        complex_conj(complex_unit::<T>()) == complex_unit::<T>(),
        complex_conj(minus_unit::<T>()) == minus_unit::<T>(),
        complex_conj(complex_nought::<T>()) == complex_nought::<T>(),
{
    lemma_opposite_nought::<T>();
}

proof fn lemma_conj_power<T: Ring>(w: Complex<T>, k: nat)
    requires
        complex_valid(w),
    ensures
        complex_conj(complex_power(w, k)) == complex_power(complex_conj(w), k),
    decreases k,
{
    lemma_conj_unit::<T>();
    if k > 0 {
        let h = (k - 1) as nat;
        lemma_conj_power(w, h);
        lemma_power_valid(w, h);
        lemma_conj_product(complex_power(w, h), w);
    }
}

/// The conjugates of some terms.
pub open spec fn conj_terms<T: Scalar>(f: spec_fn(int) -> Complex<T>) -> spec_fn(int) -> Complex<T> {
    |i: int| complex_conj(f(i))
}

proof fn lemma_conj_total<T: Ring>(f: spec_fn(int) -> Complex<T>, n: nat)
    requires
        forall|i: int| 0 <= i < n ==> complex_valid(#[trigger] f(i)),
    ensures
        complex_conj(complex_total(f, n)) == complex_total(conj_terms(f), n),
    decreases n,
{
    lemma_conj_unit::<T>();
    if n > 0 {
        let k = (n - 1) as nat;
        lemma_conj_total(f, k);
        lemma_total_valid(f, k);
        assert(complex_valid(f(n - 1)));
        lemma_conj_sum(complex_total(f, k), f(n - 1));
    }
}

/// The powers of a number at the multiples of a frequency.
pub open spec fn circle_terms<T: Scalar>(u: Complex<T>, d: nat) -> spec_fn(int) -> Complex<T> {
    |j: int| complex_power(u, (d * j) as nat)
}

/// Terms from a place on.
spec fn later_terms<T>(f: spec_fn(int) -> Complex<T>, h: nat) -> spec_fn(int) -> Complex<T> {
    |j: int| f(h + j)
}

proof fn lemma_total_halves<T: Ring>(f: spec_fn(int) -> Complex<T>, h: nat, k: nat)
    requires
        forall|i: int| 0 <= i < h + k ==> complex_valid(#[trigger] f(i)),
    ensures
        complex_total(f, h + k) == complex_sum(
            complex_total(f, h),
            complex_total(later_terms(f, h), k),
        ),
    decreases k,
{
    lemma_complex_closed::<T>();
    lemma_total_valid(f, h);
    if k == 0 {
        lemma_complex_sum_nought(complex_total(f, h));
    } else {
        let j = (k - 1) as nat;
        lemma_total_halves(f, h, j);
        assert forall|i: int| 0 <= i < j implies complex_valid(#[trigger] later_terms(f, h)(i)) by {
            assert(complex_valid(f(h + i)));
        }
        lemma_total_valid(later_terms(f, h), j);
        assert(complex_valid(f((h + j) as int)));
        lemma_complex_sum_associates(
            complex_total(f, h),
            complex_total(later_terms(f, h), j),
            f((h + j) as int),
        );
        assert(h + k - 1 == h + j);
    }
}

/// A number plus its product with minus one is zero.
proof fn lemma_complex_cancels<T: Ring>(a: Complex<T>)
    requires
        complex_valid(a),
    ensures
        complex_sum(a, complex_product(a, minus_unit())) == complex_nought::<T>(),
{
    T::closed();
    lemma_complex_difference(a, a);
    T::difference_adds_the_opposite(a.re, a.re);
    T::difference_adds_the_opposite(a.im, a.im);
    T::opposite_cancels(a.re);
    T::opposite_cancels(a.im);
}

proof fn lemma_circle_valid<T: Ring>(u: Complex<T>, d: nat)
    requires
        complex_valid(u),
    ensures
        forall|j: int| 0 <= j ==> complex_valid(#[trigger] circle_terms(u, d)(j)),
{
    assert forall|j: int| 0 <= j implies complex_valid(#[trigger] circle_terms(u, d)(j)) by {
        assert(d * j >= 0) by (nonlinear_arith)
            requires
                j >= 0,
        ;
        lemma_power_valid(u, (d * j) as nat);
    }
}

proof fn lemma_power_product<T: Ring>(w: Complex<T>, v: Complex<T>, k: nat)
    requires
        complex_valid(w),
        complex_valid(v),
        complex_product(w, v) == complex_unit::<T>(),
    ensures
        complex_product(complex_power(w, k), complex_power(v, k)) == complex_unit::<T>(),
    decreases k,
{
    lemma_complex_closed::<T>();
    if k == 0 {
        lemma_complex_product_unit(complex_unit::<T>());
    } else {
        let h = (k - 1) as nat;
        lemma_power_product(w, v, h);
        lemma_power_valid(w, h);
        lemma_power_valid(v, h);
        let a = complex_power(w, h);
        let b = complex_power(v, h);
        // (a w) (b v) is (a b) (w v).
        lemma_complex_product_associates(a, w, complex_product(b, v));
        lemma_complex_product_commutes(b, v);
        lemma_complex_product_associates(w, v, b);
        lemma_complex_product_unit(b);
    }
}

/// The square of a number, raised to a power.
proof fn lemma_power_of_square<T: Ring>(u: Complex<T>, k: nat)
    requires
        complex_valid(u),
    ensures
        complex_power(complex_product(u, u), k) == complex_power(u, 2 * k),
    decreases k,
{
    lemma_complex_closed::<T>();
    if k > 0 {
        let h = (k - 1) as nat;
        lemma_power_of_square(u, h);
        lemma_power_valid(u, 2 * h);
        let p = complex_power(u, 2 * h);
        lemma_complex_product_associates(p, u, u);
        assert(complex_power(u, 2 * h + 1) == complex_product(p, u));
        assert(complex_power(u, 2 * k) == complex_product(complex_power(u, 2 * h + 1), u)) by {
            assert(2 * k - 1 == 2 * h + 1);
        }
    }
}

/// The powers of a root of unity at the multiples of a frequency cancel over the circle.
proof fn lemma_circle_cancels<T: Ring>(u: Complex<T>, bits: nat, d: nat)
    requires
        bits >= 1,
        complex_valid(u),
        complex_power(u, pow2((bits - 1) as nat)) == minus_unit::<T>(),
        0 < d < pow2(bits),
    ensures
        complex_total(circle_terms(u, d), pow2(bits)) == complex_nought::<T>(),
    decreases bits,
{
    lemma_complex_closed::<T>();
    let h = pow2((bits - 1) as nat);
    lemma_pow2_unfold(bits);
    lemma_pow2_pos((bits - 1) as nat);
    let f = circle_terms(u, d);
    lemma_circle_valid(u, d);
    lemma_total_halves(f, h, h);
    let s = complex_total(f, h);
    lemma_total_valid(f, h);
    // The second half is the first, turned by half a circle `d` times.
    let turn = complex_power(u, d * h);
    assert(d * h >= 0) by (nonlinear_arith);
    lemma_power_valid(u, d * h);
    assert forall|j: int| 0 <= j < h implies #[trigger] later_terms(f, h)(j) == scaled_terms(
        f,
        turn,
    )(j) by {
        assert(d * (h + j) == d * j + d * h) by (nonlinear_arith);
        assert(d * j >= 0) by (nonlinear_arith)
            requires
                j >= 0,
        ;
        lemma_power_adds(u, (d * j) as nat, (d * h) as nat);
    }
    lemma_total_same(later_terms(f, h), scaled_terms(f, turn), h);
    lemma_total_scales(f, turn, h);
    assert(pow2(bits) == h + h);
    lemma_half_turns(u, h, d);
    if d % 2 == 1 {
        lemma_complex_cancels(s);
    } else {
        // An even frequency is half of it on the square of the root.
        let q = complex_product(u, u);
        let e = (d / 2) as nat;
        lemma_complex_product_unit(s);
        if bits == 1 {
            vstd::arithmetic::power2::lemma2_to64();
        } else {
            lemma_pow2_unfold((bits - 1) as nat);
            let quarter = pow2((bits - 2) as nat);
            lemma_power_of_square(u, quarter);
            assert forall|j: int| 0 <= j < h implies #[trigger] f(j) == circle_terms(q, e)(j) by {
                assert(e * j >= 0) by (nonlinear_arith)
                    requires
                        j >= 0,
                        e >= 0,
                ;
                assert(2 * (e * j) == d * j) by (nonlinear_arith)
                    requires
                        d == 2 * e,
                ;
                lemma_power_of_square(u, (e * j) as nat);
            }
            lemma_total_same(f, circle_terms(q, e), h);
            assert((bits - 1) as nat - 1 == bits - 2);
            lemma_circle_cancels(q, (bits - 1) as nat, e);
            lemma_complex_sum_nought(complex_nought::<T>());
        }
    }
}

/// Half a circle, `d` times: one for an even `d`, minus one for an odd.
proof fn lemma_half_turns<T: Ring>(u: Complex<T>, h: nat, d: nat)
    requires
        complex_valid(u),
        complex_power(u, h) == minus_unit::<T>(),
    ensures
        complex_power(u, d * h) == if d % 2 == 1 {
            minus_unit::<T>()
        } else {
            complex_unit::<T>()
        },
    decreases d,
{
    lemma_complex_closed::<T>();
    if d == 0 {
        assert(0 * h == 0) by (nonlinear_arith);
    } else {
        let e = (d - 1) as nat;
        lemma_half_turns(u, h, e);
        assert(d * h == e * h + h) by (nonlinear_arith)
            requires
                d == e + 1,
        ;
        assert(e * h >= 0) by (nonlinear_arith);
        lemma_power_adds(u, e * h, h);
        lemma_minus_squared::<T>();
        lemma_complex_product_unit(minus_unit::<T>());
    }
}

// ---------------------------------------------------------------------------
// Double sums
// ---------------------------------------------------------------------------

/// The rows of a table of terms, each summed.
spec fn row_totals<T: Scalar>(f: spec_fn(int, int) -> Complex<T>, n: nat) -> spec_fn(
    int,
) -> Complex<T> {
    |i: int| complex_total(|j: int| f(i, j), n)
}

/// The columns of a table of terms, each summed.
spec fn column_totals<T: Scalar>(f: spec_fn(int, int) -> Complex<T>, n: nat) -> spec_fn(
    int,
) -> Complex<T> {
    |j: int| complex_total(|i: int| f(i, j), n)
}

proof fn lemma_total_of_sums<T: Ring>(
    f: spec_fn(int) -> Complex<T>,
    g: spec_fn(int) -> Complex<T>,
    both: spec_fn(int) -> Complex<T>,
    n: nat,
)
    requires
        forall|i: int| 0 <= i < n ==> complex_valid(#[trigger] f(i)),
        forall|i: int| 0 <= i < n ==> complex_valid(#[trigger] g(i)),
        forall|i: int| 0 <= i < n ==> #[trigger] both(i) == complex_sum(f(i), g(i)),
    ensures
        complex_total(both, n) == complex_sum(complex_total(f, n), complex_total(g, n)),
    decreases n,
{
    lemma_complex_closed::<T>();
    if n == 0 {
        lemma_complex_sum_nought(complex_nought::<T>());
    } else {
        let k = (n - 1) as nat;
        lemma_total_of_sums(f, g, both, k);
        lemma_total_valid(f, k);
        lemma_total_valid(g, k);
        assert(complex_valid(f(n - 1)) && complex_valid(g(n - 1)));
        assert(both(n - 1) == complex_sum(f(n - 1), g(n - 1)));
        lemma_complex_exchange(complex_total(f, k), complex_total(g, k), f(n - 1), g(n - 1));
    }
}

proof fn lemma_total_of_noughts<T: Ring>(f: spec_fn(int) -> Complex<T>, n: nat)
    requires
        forall|i: int| 0 <= i < n ==> #[trigger] f(i) == complex_nought::<T>(),
    ensures
        complex_total(f, n) == complex_nought::<T>(),
    decreases n,
{
    lemma_complex_closed::<T>();
    if n > 0 {
        lemma_total_of_noughts(f, (n - 1) as nat);
        assert(f(n - 1) == complex_nought::<T>());
        lemma_complex_sum_nought(complex_nought::<T>());
    }
}

/// Summing a table by rows or by columns gives the same.
proof fn lemma_sums_exchange<T: Ring>(f: spec_fn(int, int) -> Complex<T>, rows: nat, columns: nat)
    requires
        forall|i: int, j: int|
            0 <= i < rows && 0 <= j < columns ==> complex_valid(#[trigger] f(i, j)),
    ensures
        complex_total(row_totals(f, columns), rows) == complex_total(
            column_totals(f, rows),
            columns,
        ),
    decreases rows,
{
    lemma_complex_closed::<T>();
    if rows == 0 {
        lemma_total_of_noughts(column_totals(f, 0), columns);
    } else {
        let k = (rows - 1) as nat;
        lemma_sums_exchange(f, k, columns);
        let last = |j: int| f(rows - 1, j);
        let before = column_totals(f, k);
        let all = column_totals(f, rows);
        assert forall|j: int| 0 <= j < columns implies complex_valid(#[trigger] before(j)) by {
            let column = |i: int| f(i, j);
            assert forall|i: int| 0 <= i < k implies complex_valid(#[trigger] column(i)) by {
                assert(complex_valid(f(i, j)));
            }
            lemma_total_valid(column, k);
        }
        assert forall|j: int| 0 <= j < columns implies complex_valid(#[trigger] last(j)) by {
            assert(complex_valid(f(rows - 1, j)));
        }
        assert forall|j: int| 0 <= j < columns implies #[trigger] all(j) == complex_sum(
            before(j),
            last(j),
        ) by {
            let column = |i: int| f(i, j);
            assert(complex_total(column, rows) == complex_sum(
                complex_total(column, k),
                column(rows - 1),
            ));
        }
        lemma_total_of_sums(before, last, all, columns);
    }
}

/// A sum with one term that counts is that term.
proof fn lemma_single_term<T: Ring>(f: spec_fn(int) -> Complex<T>, n: nat, c: int)
    requires
        0 <= c,
        c < n ==> complex_valid(f(c)),
        forall|i: int| 0 <= i < n && i != c ==> #[trigger] f(i) == complex_nought::<T>(),
    ensures
        complex_total(f, n) == if c < n {
            f(c)
        } else {
            complex_nought::<T>()
        },
    decreases n,
{
    lemma_complex_closed::<T>();
    if n > 0 {
        let k = (n - 1) as nat;
        lemma_single_term(f, k, c);
        if c == k {
            lemma_complex_sum_nought(f(c));
        } else {
            assert(f(n - 1) == complex_nought::<T>());
            if c < k {
                lemma_complex_sum_nought(f(c));
            } else {
                lemma_complex_sum_nought(complex_nought::<T>());
            }
        }
    }
}

// ---------------------------------------------------------------------------
// The round trip
// ---------------------------------------------------------------------------

/// A count as a complex number: the sum of so many ones.
pub open spec fn complex_count<T: Scalar>(n: nat) -> Complex<T> {
    complex_total(|j: int| complex_unit(), n)
}

/// What the number at `i` adds to the one at `c` by way of frequency `j`.
spec fn trip_term<T: Scalar>(x: Seq<T>, w: Complex<T>, c: int) -> spec_fn(int, int) -> Complex<T> {
    |i: int, j: int|
        complex_product(
            complex_product(complex_at(x, i), complex_power(w, (i * j) as nat)),
            complex_power(complex_conj(w), (j * c) as nat),
        )
}

/// The weight of the number at `i` in the one at `c`, by frequency.
spec fn trip_weights<T: Scalar>(w: Complex<T>, i: int, c: int) -> spec_fn(int) -> Complex<T> {
    |j: int|
        complex_product(
            complex_power(w, (i * j) as nat),
            complex_power(complex_conj(w), (j * c) as nat),
        )
}

/// All frequencies together weigh the number itself by their count and the others by nothing.
proof fn lemma_trip_weights<T: Ring>(w: Complex<T>, bits: nat, i: int, c: int)
    requires
        bits >= 1,
        complex_valid(w),
        complex_power(w, pow2((bits - 1) as nat)) == minus_unit::<T>(),
        complex_product(w, complex_conj(w)) == complex_unit::<T>(),
        0 <= i < pow2(bits),
        0 <= c < pow2(bits),
    ensures
        complex_total(trip_weights(w, i, c), pow2(bits)) == if i == c {
            complex_count::<T>(pow2(bits))
        } else {
            complex_nought::<T>()
        },
{
    lemma_complex_closed::<T>();
    lemma_conj_valid::<T>();
    let v = complex_conj(w);
    let n = pow2(bits);
    let f = trip_weights(w, i, c);
    let low = if i < c {
        i
    } else {
        c
    };
    // Both turn by the lower frequency, one against the other; what is left turns by the rest.
    let rest = if i < c {
        (c - i) as nat
    } else {
        (i - c) as nat
    };
    let u = if i < c {
        v
    } else {
        w
    };
    assert forall|j: int| 0 <= j < n implies #[trigger] f(j) == circle_terms(u, rest)(j) by {
        assert(low * j >= 0 && rest * j >= 0) by (nonlinear_arith)
            requires
                low >= 0,
                j >= 0,
                rest >= 0,
        ;
        let a = (low * j) as nat;
        let b = (rest * j) as nat;
        lemma_power_product(w, v, a);
        lemma_power_valid(w, a);
        lemma_power_valid(v, a);
        lemma_power_valid(u, b);
        if i < c {
            assert(j * c == low * j + rest * j) by (nonlinear_arith)
                requires
                    c == low + rest,
            ;
            assert(i * j == low * j);
            lemma_power_adds(v, a, b);
            lemma_complex_product_associates(
                complex_power(w, a),
                complex_power(v, a),
                complex_power(v, b),
            );
        } else {
            assert(i * j == rest * j + low * j) by (nonlinear_arith)
                requires
                    i == low + rest,
            ;
            assert(j * c == low * j) by (nonlinear_arith)
                requires
                    c == low,
            ;
            lemma_power_adds(w, b, a);
            lemma_complex_product_associates(
                complex_power(w, b),
                complex_power(w, a),
                complex_power(v, a),
            );
        }
        lemma_complex_product_unit(complex_power(u, b));
    }
    lemma_total_same(f, circle_terms(u, rest), n);
    if i == c {
        let ones = |j: int| complex_unit::<T>();
        assert forall|j: int| 0 <= j < n implies #[trigger] f(j) == ones(j) by {
            assert(f(j) == circle_terms(u, rest)(j));
            assert(0 * j == 0) by (nonlinear_arith);
        }
        lemma_total_same(f, ones, n);
    } else {
        if i < c {
            lemma_conj_power(w, pow2((bits - 1) as nat));
            lemma_conj_unit::<T>();
        }
        lemma_circle_cancels(u, bits, rest);
    }
}

/// With the powers of a root of unity on the unit circle for twiddles, the inverse transform gives
/// the input back, times the size.
pub proof fn inverse_gives_the_input_back<T: Ring>(
    x: Seq<T>,
    tw: Seq<T>,
    w: Complex<T>,
    n_fft: usize,
    c: int,
)
    requires
        power_of_two(n_fft as nat),
        n_fft >= 2,
        x.len() == 2 * n_fft,
        all_valid(x),
        complex_valid(w),
        complex_power(w, (n_fft / 2) as nat) == minus_unit::<T>(),
        complex_product(w, complex_conj(w)) == complex_unit::<T>(),
        exact_twiddles(tw, w, n_fft),
        0 <= c < n_fft,
    ensures
        complex_at(inverse_transformed(transformed(x, tw, n_fft), tw, n_fft), c)
            == complex_product(complex_count::<T>(n_fft as nat), complex_at(x, c)),
{
    lemma_complex_closed::<T>();
    lemma_conj_valid::<T>();
    T::closed();
    let n = n_fft as nat;
    let v = complex_conj(w);
    let bits = stages_of(n_fft);
    twos_of_power(n);
    vstd::arithmetic::power2::lemma2_to64();
    assert(bits >= 1) by {
        if bits == 0 {
            assert(pow2(0) == 1);
        }
    }
    lemma_pow2_unfold(bits);
    let y = transformed(x, tw, n_fft);
    crate::butterfly::lemma_transformed_len(x, tw, n_fft);
    // The spectrum is made of numbers.
    assert forall|j: int| 0 <= j < n implies complex_valid(#[trigger] complex_at(y, j))
        && complex_at(y, j) == fourier_sum(x, w, n, j) by {
        butterfly_is_the_fourier_transform(x, tw, w, n_fft, j);
        lemma_fourier_terms_valid(x, w, n, j);
        lemma_total_valid(fourier_terms(x, w, j), n);
    }
    let z = conjugated(y, n_fft as int);
    assert forall|j: int| 0 <= j < n implies #[trigger] complex_at(z, j) == complex_conj(
        complex_at(y, j),
    ) by {
        assert((2 * j) / 2 == j && (2 * j) % 2 == 0);
        assert((2 * j + 1) / 2 == j && (2 * j + 1) % 2 == 1);
    }
    assert forall|i: int| 0 <= i < z.len() implies T::valid(#[trigger] z[i]) by {
        let j = i / 2;
        assert(complex_valid(complex_at(y, j)));
        assert(complex_at(z, j) == complex_conj(complex_at(y, j)));
        assert(i == 2 * j || i == 2 * j + 1);
    }
    butterfly_is_the_fourier_transform(z, tw, w, n_fft, c);
    crate::butterfly::lemma_transformed_len(z, tw, n_fft);
    let t = transformed(z, tw, n_fft);
    assert(complex_at(conjugated(t, n_fft as int), c) == complex_conj(complex_at(t, c))) by {
        assert((2 * c) / 2 == c && (2 * c) % 2 == 0);
        assert((2 * c + 1) / 2 == c && (2 * c + 1) % 2 == 1);
    }
    let f = fourier_terms(z, w, c);
    lemma_fourier_terms_valid(z, w, n, c);
    lemma_conj_total(f, n);
    // Each frequency adds what every number put into it.
    let table = trip_term(x, w, c);
    assert forall|i: int, j: int| 0 <= i < n && 0 <= j < n implies complex_valid(
        #[trigger] table(i, j),
    ) by {
        lemma_trip_valid(x, w, n, c, i, j);
    }
    assert forall|j: int| 0 <= j < n implies #[trigger] conj_terms(f)(j) == column_totals(table, n)(
        j,
    ) by {
        lemma_frequency(x, y, z, w, n, c, j);
    }
    lemma_total_same(conj_terms(f), column_totals(table, n), n);
    lemma_sums_exchange(table, n, n);
    // Each number counts by its weights.
    let rows = row_totals(table, n);
    let count = complex_count::<T>(n);
    let ones = |j: int| complex_unit::<T>();
    lemma_total_valid(ones, n);
    assert forall|i: int| 0 <= i < n implies #[trigger] rows(i) == (if i == c {
        complex_product(count, complex_at(x, c))
    } else {
        complex_nought::<T>()
    }) by {
        lemma_number(x, w, n, bits, c, i);
    }
    assert(T::valid(x[2 * c]) && T::valid(x[2 * c + 1]));
    lemma_single_term(rows, n, c);
}

proof fn lemma_fourier_terms_valid<T: Ring>(x: Seq<T>, w: Complex<T>, n: nat, c: int)
    requires
        all_valid(x),
        x.len() == 2 * n,
        complex_valid(w),
    ensures
        forall|j: int| 0 <= j < n ==> complex_valid(#[trigger] fourier_terms(x, w, c)(j)),
{
    lemma_complex_closed::<T>();
    assert forall|j: int| 0 <= j < n implies complex_valid(#[trigger] fourier_terms(x, w, c)(j)) by {
        assert(T::valid(x[2 * j]) && T::valid(x[2 * j + 1]));
        lemma_power_valid(w, (j * c) as nat);
    }
}

proof fn lemma_trip_valid<T: Ring>(x: Seq<T>, w: Complex<T>, n: nat, c: int, i: int, j: int)
    requires
        all_valid(x),
        x.len() == 2 * n,
        complex_valid(w),
        0 <= i < n,
    ensures
        complex_valid(trip_term(x, w, c)(i, j)),
        complex_valid(complex_at(x, i)),
{
    lemma_complex_closed::<T>();
    lemma_conj_valid::<T>();
    assert(T::valid(x[2 * i]) && T::valid(x[2 * i + 1]));
    lemma_power_valid(w, (i * j) as nat);
    lemma_power_valid(complex_conj(w), (j * c) as nat);
}

/// What a frequency adds to the number at `c`.
proof fn lemma_frequency<T: Ring>(
    x: Seq<T>,
    y: Seq<T>,
    z: Seq<T>,
    w: Complex<T>,
    n: nat,
    c: int,
    j: int,
)
    requires
        all_valid(x),
        x.len() == 2 * n,
        complex_valid(w),
        0 <= j < n,
        0 <= c,
        complex_valid(complex_at(y, j)),
        complex_at(y, j) == fourier_sum(x, w, n, j),
        complex_at(z, j) == complex_conj(complex_at(y, j)),
    ensures
        conj_terms(fourier_terms(z, w, c))(j) == column_totals(trip_term(x, w, c), n)(j),
{
    lemma_complex_closed::<T>();
    lemma_conj_valid::<T>();
    T::closed();
    let v = complex_conj(w);
    let k = (j * c) as nat;
    lemma_power_valid(w, k);
    lemma_power_valid(v, k);
    let a = complex_at(y, j);
    lemma_conj_product(complex_conj(a), complex_power(w, k));
    lemma_opposite_twice(a.im);
    lemma_conj_power(w, k);
    let g = fourier_terms(x, w, j);
    lemma_fourier_terms_valid(x, w, n, j);
    lemma_total_scales(g, complex_power(v, k), n);
    let column = |i: int| trip_term(x, w, c)(i, j);
    assert forall|i: int| 0 <= i < n implies #[trigger] scaled_terms(g, complex_power(v, k))(i)
        == column(i) by {}
    lemma_total_same(scaled_terms(g, complex_power(v, k)), column, n);
}

/// What a number adds to the number at `c` over all frequencies.
proof fn lemma_number<T: Ring>(x: Seq<T>, w: Complex<T>, n: nat, bits: nat, c: int, i: int)
    requires
        all_valid(x),
        x.len() == 2 * n,
        bits >= 1,
        n == pow2(bits),
        complex_valid(w),
        complex_power(w, pow2((bits - 1) as nat)) == minus_unit::<T>(),
        complex_product(w, complex_conj(w)) == complex_unit::<T>(),
        0 <= i < n,
        0 <= c < n,
    ensures
        row_totals(trip_term(x, w, c), n)(i) == if i == c {
            complex_product(complex_count::<T>(n), complex_at(x, c))
        } else {
            complex_nought::<T>()
        },
{
    lemma_complex_closed::<T>();
    lemma_conj_valid::<T>();
    T::closed();
    let v = complex_conj(w);
    let a = complex_at(x, i);
    assert(T::valid(x[2 * i]) && T::valid(x[2 * i + 1]));
    let weights = trip_weights(w, i, c);
    let row = |j: int| trip_term(x, w, c)(i, j);
    assert forall|j: int| 0 <= j < n implies complex_valid(#[trigger] weights(j)) by {
        lemma_power_valid(w, (i * j) as nat);
        lemma_power_valid(v, (j * c) as nat);
    }
    assert forall|j: int| 0 <= j < n implies #[trigger] row(j) == scaled_terms(weights, a)(j) by {
        let p = complex_power(w, (i * j) as nat);
        let q = complex_power(v, (j * c) as nat);
        lemma_power_valid(w, (i * j) as nat);
        lemma_power_valid(v, (j * c) as nat);
        lemma_complex_product_associates(a, p, q);
        lemma_complex_product_commutes(a, complex_product(p, q));
    }
    lemma_total_same(row, scaled_terms(weights, a), n);
    lemma_total_scales(weights, a, n);
    lemma_trip_weights(w, bits, i, c);
    if i != c {
        lemma_product_nought(a.re);
        lemma_product_nought(a.im);
        T::product_commutes(T::nought(), a.re);
        T::product_commutes(T::nought(), a.im);
        lemma_less_nought(T::nought());
        T::sum_with_nought(T::nought());
    }
}

} // verus!

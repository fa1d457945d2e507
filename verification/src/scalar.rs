//! Numbers that transforms compute with, and an exact kind of them.

use vstd::prelude::*;

verus! {

/// A number with sums, differences, products and opposites.
pub trait Scalar: Copy {
    spec fn nought() -> Self;

    spec fn unit() -> Self;

    spec fn sum(a: Self, b: Self) -> Self;

    spec fn difference(a: Self, b: Self) -> Self;

    spec fn product(a: Self, b: Self) -> Self;

    spec fn opposite(a: Self) -> Self;

    fn zero() -> (r: Self)
        ensures
            r == Self::nought(),
    ;

    fn one() -> (r: Self)
        ensures
            r == Self::unit(),
    ;

    fn plus(self, other: Self) -> (r: Self)
        ensures
            r == Self::sum(self, other),
    ;

    fn minus(self, other: Self) -> (r: Self)
        ensures
            r == Self::difference(self, other),
    ;

    fn times(self, other: Self) -> (r: Self)
        ensures
            r == Self::product(self, other),
    ;

    fn negated(self) -> (r: Self)
        ensures
            r == Self::opposite(self),
    ;
}

/// A number that can be divided, and that counts can be turned into.
pub trait Divisible: Scalar {
    spec fn quotient(a: Self, b: Self) -> Self;

    spec fn counted(n: usize) -> Self;

    fn over(self, other: Self) -> (r: Self)
        ensures
            r == Self::quotient(self, other),
    ;

    fn count(n: usize) -> (r: Self)
        ensures
            r == Self::counted(n),
    ;
}

/// A number that can be compared with another, unless it stands for what is not a number.
pub trait Ordered: Scalar {
    spec fn less(a: Self, b: Self) -> bool;

    spec fn number(a: Self) -> bool;

    fn is_number(self) -> (r: bool)
        ensures
            r == Self::number(self),
    ;

    fn is_less(self, other: Self) -> (r: bool)
        ensures
            r == Self::less(self, other),
    ;
}

/// A number held between two bounds.
pub open spec fn held<T: Ordered>(x: T, low: T, high: T) -> T {
    if T::less(x, low) {
        low
    } else if T::less(high, x) {
        high
    } else {
        x
    }
}

/// Holds a number between two bounds.
pub fn hold_within<T: Ordered>(x: T, low: T, high: T) -> (r: T)
    ensures
        r == held(x, low, high),
{
    if x.is_less(low) {
        low
    } else if high.is_less(x) {
        high
    } else {
        x
    }
}

/// Where no number is less than itself and the bounds are in order, a held number is between them.
pub proof fn held_numbers_are_within<T: Ordered>(x: T, low: T, high: T)
    requires
        forall|a: T| !#[trigger] T::less(a, a),
        !T::less(high, low),
    ensures
        !T::less(held(x, low, high), low),
        !T::less(high, held(x, low, high)),
{
}

/// The prime modulus of residues: 15 * 2^27 + 1, so that it has roots of unity of every order up
/// to 2^27.
pub const PRIME: u64 = 2013265921;

/// A residue modulo the prime: transforms of residues are exact.
#[derive(Debug, Clone, Copy, PartialEq, Eq, Structural)]
pub struct Residue {
    pub value: u64,
}

impl Residue {
    /// The residue of a number.
    pub open spec fn of(n: int) -> Residue {
        Residue { value: (n % (PRIME as int)) as u64 }
    }

    /// The residue of a number.
    pub fn new(n: u64) -> (r: Residue)
        ensures
            r == Residue::of(n as int),
            r.value < PRIME,
    {
        Residue { value: n % PRIME }
    }
}

impl Scalar for Residue {
    open spec fn nought() -> Residue {
        Residue { value: 0 }
    }

    open spec fn unit() -> Residue {
        Residue { value: 1 }
    }

    open spec fn sum(a: Residue, b: Residue) -> Residue {
        Residue::of(a.value + b.value)
    }

    open spec fn difference(a: Residue, b: Residue) -> Residue {
        Residue::of(a.value - b.value)
    }

    open spec fn product(a: Residue, b: Residue) -> Residue {
        Residue::of(a.value * b.value)
    }

    open spec fn opposite(a: Residue) -> Residue {
        Residue::of(-a.value)
    }

    fn zero() -> (r: Residue) {
        Residue { value: 0 }
    }

    fn one() -> (r: Residue) {
        Residue { value: 1 }
    }

    fn plus(self, other: Residue) -> (r: Residue) {
        let s: u128 = self.value as u128 + other.value as u128;
        Residue { value: (s % PRIME as u128) as u64 }
    }

    fn minus(self, other: Residue) -> (r: Residue) {
        let b: u128 = PRIME as u128 - (other.value % PRIME) as u128;
        proof {
            let p = PRIME as int;
            let x = self.value as int;
            let y = other.value as int;
            vstd::arithmetic::div_mod::lemma_sub_mod_noop(x, y, p);
            vstd::arithmetic::div_mod::lemma_add_mod_noop(x, p - y % p, p);
            vstd::arithmetic::div_mod::lemma_mod_multiples_vanish(1, x - y % p, p);
            assert(x + (p - y % p) == p * 1 + (x - y % p));
            vstd::arithmetic::div_mod::lemma_sub_mod_noop(x, y % p, p);
            vstd::arithmetic::div_mod::lemma_mod_twice(y, p);
        }
        let s: u128 = self.value as u128 + b;
        Residue { value: (s % PRIME as u128) as u64 }
    }

    fn times(self, other: Residue) -> (r: Residue) {
        assert(self.value * other.value <= 0xffff_ffff_ffff_ffff * 0xffff_ffff_ffff_ffff)
            by (nonlinear_arith)
            requires
                0 <= self.value <= 0xffff_ffff_ffff_ffff,
                0 <= other.value <= 0xffff_ffff_ffff_ffff,
        ;
        let s: u128 = self.value as u128 * other.value as u128;
        Residue { value: (s % PRIME as u128) as u64 }
    }

    fn negated(self) -> (r: Residue) {
        let r = Residue { value: 0 }.minus(self);
        r
    }
}

/// A residue raised to a power.
pub open spec fn raised(b: Residue, e: nat) -> Residue
    decreases e,
{
    if e == 0 {
        Residue { value: 1 }
    } else if e % 2 == 0 {
        let h = raised(b, e / 2);
        Residue::product(h, h)
    } else {
        Residue::product(raised(b, (e - 1) as nat), b)
    }
}

/// Raises a residue to a power.
pub fn raise(b: Residue, e: u64) -> (r: Residue)
    ensures
        r == raised(b, e as nat),
    decreases e,
{
    if e == 0 {
        Residue { value: 1 }
    } else if e % 2 == 0 {
        let h = raise(b, e / 2);
        h.times(h)
    } else {
        raise(b, e - 1).times(b)
    }
}

impl Ordered for Residue {
    open spec fn less(a: Residue, b: Residue) -> bool {
        a.value < b.value
    }

    open spec fn number(a: Residue) -> bool {
        true
    }

    fn is_number(self) -> (r: bool) {
        true
    }

    fn is_less(self, other: Residue) -> (r: bool) {
        self.value < other.value
    }
}

impl Divisible for Residue {
    /// The inverse of a residue is its power with the modulus less two.
    open spec fn quotient(a: Residue, b: Residue) -> Residue {
        Residue::product(a, raised(b, (PRIME - 2) as nat))
    }

    open spec fn counted(n: usize) -> Residue {
        Residue::of(n as int)
    }

    fn over(self, other: Residue) -> (r: Residue) {
        self.times(raise(other, PRIME - 2))
    }

    fn count(n: usize) -> (r: Residue) {
        Residue::new(n as u64)
    }
}

} // verus!

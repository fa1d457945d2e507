//! Powers of two and saturating products.

use vstd::arithmetic::power2::{lemma_pow2_pos, lemma_pow2_unfold, pow2};
use vstd::prelude::*;

verus! {

/// Whether a number is a power of two.
pub open spec fn power_of_two(n: nat) -> bool {
    exists|k: nat| #[trigger] pow2(k) == n
}

/// How often two divides a positive number.
pub open spec fn twos(n: nat) -> nat
    decreases n,
{
    if n == 0 || n % 2 == 1 {
        0
    } else {
        1 + twos(n / 2)
    }
}

/// Halving an even number neither makes nor breaks a power of two; one is the only odd one.
pub proof fn power_of_two_halves(n: nat)
    requires
        n > 0,
    ensures
        n % 2 == 0 ==> power_of_two(n) == power_of_two(n / 2),
        n % 2 == 1 ==> power_of_two(n) == (n == 1),
        power_of_two(1),
        !power_of_two(0),
{
    assert(pow2(0) == 1) by {
        vstd::arithmetic::power2::lemma2_to64();
    }
    assert forall|k: nat| #[trigger] pow2(k) != 0 by {
        lemma_pow2_pos(k);
    }
    if power_of_two(n) {
        let k = choose|k: nat| #[trigger] pow2(k) == n;
        if k > 0 {
            lemma_pow2_unfold(k);
            assert(pow2((k - 1) as nat) == n / 2);
        }
    }
    if n % 2 == 0 && power_of_two(n / 2) {
        let k = choose|k: nat| #[trigger] pow2(k) == n / 2;
        lemma_pow2_unfold(k + 1);
        assert(pow2(k + 1) == n);
    }
}

/// A power of two is two raised to the number of times that two divides it.
pub proof fn twos_of_power(n: nat)
    requires
        power_of_two(n),
    ensures
        n > 0,
        n == pow2(twos(n)),
    decreases n,
{
    power_of_two_halves(if n == 0 { 1 } else { n });
    assert(n > 0);
    if n % 2 == 1 {
        vstd::arithmetic::power2::lemma2_to64();
    } else {
        twos_of_power(n / 2);
        lemma_pow2_unfold(twos(n));
    }
}

/// Two divides `2^k` exactly `k` times.
pub proof fn twos_of_pow2(k: nat)
    ensures
        twos(pow2(k)) == k,
        pow2(k) > 0,
    decreases k,
{
    lemma_pow2_pos(k);
    if k == 0 {
        vstd::arithmetic::power2::lemma2_to64();
    } else {
        lemma_pow2_unfold(k);
        twos_of_pow2((k - 1) as nat);
        assert(pow2(k) / 2 == pow2((k - 1) as nat));
        assert(pow2(k) % 2 == 0);
    }
}

/// `2^k` is at least its exponent plus one.
pub proof fn twos_below(n: nat)
    requires
        n > 0,
    ensures
        twos(n) < n,
    decreases n,
{
    if n % 2 == 0 {
        twos_below(n / 2);
    }
}

/// Whether `n` is a power of two.
pub fn is_power_of_two(n: usize) -> (r: bool)
    ensures
        r == power_of_two(n as nat),
{
    if n == 0 {
        proof {
            power_of_two_halves(1);
        }
        return false;
    }
    let mut m: usize = n;
    while m % 2 == 0
        invariant
            m > 0,
            power_of_two(n as nat) == power_of_two(m as nat),
        decreases m,
    {
        proof {
            power_of_two_halves(m as nat);
        }
        m = m / 2;
    }
    proof {
        power_of_two_halves(m as nat);
    }
    m == 1
}

/// How many trailing zero bits `n` has; all bits of the machine word for zero.
pub fn trailing_zeros(n: usize) -> (r: usize)
    ensures
        r == if n == 0 {
            usize::BITS as nat
        } else {
            twos(n as nat)
        },
{
    if n == 0 {
        return usize::BITS as usize;
    }
    let mut m: usize = n;
    let mut count: usize = 0;
    proof {
        twos_below(n as nat);
    }
    while m % 2 == 0
        invariant
            m > 0,
            twos(n as nat) == count + twos(m as nat),
            twos(n as nat) < n,
        decreases m,
    {
        count += 1;
        m = m / 2;
    }
    count
}

/// The product of two numbers, or the largest `usize` where it does not fit.
pub open spec fn saturated_product(a: nat, b: nat) -> nat {
    if a * b <= usize::MAX {
        a * b
    } else {
        usize::MAX as nat
    }
}

/// Multiplies, saturating at the largest `usize`.
pub fn saturating_mul(a: usize, b: usize) -> (r: usize)
    ensures
        r == saturated_product(a as nat, b as nat),
{
    match a.checked_mul(b) {
        Some(v) => v,
        None => usize::MAX,
    }
}

/// The least of two numbers.
pub open spec fn least(a: int, b: int) -> int {
    if a <= b {
        a
    } else {
        b
    }
}

/// The greatest of two numbers.
pub open spec fn greatest(a: int, b: int) -> int {
    if a >= b {
        a
    } else {
        b
    }
}

/// The smaller of two numbers.
pub fn min_usize(a: usize, b: usize) -> (r: usize)
    ensures
        r == least(a as int, b as int),
{
    if a <= b {
        a
    } else {
        b
    }
}

/// The larger of two numbers.
pub fn max_usize(a: usize, b: usize) -> (r: usize)
    ensures
        r == greatest(a as int, b as int),
{
    if a >= b {
        a
    } else {
        b
    }
}

} // verus!

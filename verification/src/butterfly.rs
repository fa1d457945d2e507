//! The butterfly transform over any scalar: bit reversal, stages, and batches.

use crate::arith::{trailing_zeros, twos};
use crate::scalar::Scalar;
use vstd::arithmetic::power2::{lemma_pow2_adds, lemma_pow2_pos, lemma_pow2_strictly_increases, lemma_pow2_unfold, pow2};
use vstd::prelude::*;

verus! {

/// Butterfly stages of a transform: how often two divides its size.
pub open spec fn stages_of(n_fft: usize) -> nat {
    if n_fft == 0 {
        usize::BITS as nat
    } else {
        twos(n_fft as nat)
    }
}

/// Butterfly stages of a transform.
pub fn num_stages(n_fft: usize) -> (r: usize)
    ensures
        r == stages_of(n_fft),
{
    trailing_zeros(n_fft)
}

// ---------------------------------------------------------------------------
// Bit reversal
// ---------------------------------------------------------------------------

/// The lowest `bits` bits of a number, in reverse.
pub open spec fn reversed(x: nat, bits: nat) -> nat
    decreases bits,
{
    if bits == 0 {
        0
    } else {
        (x % 2) * pow2((bits - 1) as nat) + reversed(x / 2, (bits - 1) as nat)
    }
}

proof fn lemma_reversed_bound(x: nat, bits: nat)
    ensures
        reversed(x, bits) < pow2(bits),
    decreases bits,
{
    lemma_pow2_pos(bits);
    if bits > 0 {
        let b = (bits - 1) as nat;
        lemma_reversed_bound(x / 2, b);
        lemma_pow2_unfold(bits);
        assert((x % 2) * pow2(b) <= pow2(b)) by (nonlinear_arith)
            requires
                x % 2 <= 1,
        ;
    }
}

/// Reversing one more bit puts it at the low end.
proof fn lemma_reversed_step(x: nat, bits: nat)
    ensures
        reversed(x, bits + 1) == 2 * reversed(x, bits) + (x / pow2(bits)) % 2,
    decreases bits,
{
    if bits == 0 {
        vstd::arithmetic::power2::lemma2_to64();
        assert(x / 1 == x);
        assert(reversed(x, 1) == (x % 2) * pow2(0) + reversed(x / 2, 0));
    } else {
        let b = (bits - 1) as nat;
        lemma_reversed_step(x / 2, b);
        lemma_pow2_unfold(bits);
        lemma_pow2_pos(b);
        assert((x / 2) / pow2(b) == x / pow2(bits)) by {
            vstd::arithmetic::div_mod::lemma_div_denominator(x as int, 2, pow2(b) as int);
        }
        assert((x % 2) * pow2(bits) == 2 * ((x % 2) * pow2(b))) by (nonlinear_arith)
            requires
                pow2(bits) == 2 * pow2(b),
        ;
    }
}

/// Reversing the bits of a number below `2^bits` twice gives the number.
pub proof fn reversal_is_its_own_inverse(x: nat, bits: nat)
    requires
        x < pow2(bits),
    ensures
        reversed(x, bits) < pow2(bits),
        reversed(reversed(x, bits), bits) == x,
    decreases bits,
{
    lemma_reversed_bound(x, bits);
    vstd::arithmetic::power2::lemma2_to64();
    if bits > 0 {
        let b = (bits - 1) as nat;
        lemma_pow2_unfold(bits);
        lemma_pow2_pos(b);
        reversal_is_its_own_inverse(x / 2, b);
        let r = reversed(x / 2, b);
        let y = reversed(x, bits);
        lemma_reversed_bound(x / 2, b);
        assert(y == (x % 2) * pow2(b) + r);
        // The high bit of `y` is the low bit of `x`, the rest is the reversal of the rest.
        lemma_reversed_step(y, b);
        assert(y / pow2(b) == x % 2 && y % pow2(b) == r) by {
            vstd::arithmetic::div_mod::lemma_fundamental_div_mod_converse(
                y as int,
                pow2(b) as int,
                (x % 2) as int,
                r as int,
            );
        }
        lemma_reversed_low(y, b);
        assert(reversed(y, b) == reversed(r, b));
    }
}

/// Only the low bits count for a reversal.
proof fn lemma_reversed_low(x: nat, bits: nat)
    ensures
        reversed(x, bits) == reversed(x % pow2(bits), bits),
    decreases bits,
{
    lemma_pow2_pos(bits);
    if bits > 0 {
        let b = (bits - 1) as nat;
        lemma_pow2_unfold(bits);
        lemma_pow2_pos(b);
        let m = x % pow2(bits);
        assert(m % 2 == x % 2) by {
            vstd::arithmetic::div_mod::lemma_mod_mod(x as int, 2, pow2(b) as int);
        }
        assert(m / 2 == (x / 2) % pow2(b)) by {
            vstd::arithmetic::div_mod::lemma_fundamental_div_mod(x as int, pow2(bits) as int);
            let q = x / pow2(bits);
            assert(x == pow2(bits) * q + m);
            assert(x as int / 2 == pow2(b) * q + m / 2) by (nonlinear_arith)
                requires
                    x == pow2(bits) * q + m,
                    pow2(bits) == 2 * pow2(b),
            ;
            assert(m / 2 < pow2(b));
            vstd::arithmetic::div_mod::lemma_fundamental_div_mod_converse(
                (x / 2) as int,
                pow2(b) as int,
                q as int,
                (m / 2) as int,
            );
        }
        lemma_reversed_low(x / 2, b);
        lemma_reversed_low(m / 2, b);
    }
}

/// Reverses the lowest `bits` bits of a number.
pub fn bit_reverse(x: usize, bits: usize) -> (r: usize)
    requires
        bits <= usize::BITS,
    ensures
        r == reversed(x as nat, bits as nat),
{
    let mut rest: usize = x;
    let mut rev: usize = 0;
    let mut i: usize = 0;
    proof {
        vstd::arithmetic::power2::lemma2_to64();
        assert(x as nat / 1 == x as nat);
    }
    while i < bits
        invariant
            i <= bits,
            bits <= usize::BITS,
            rest == x as nat / pow2(i as nat),
            rev == reversed(x as nat, i as nat),
        decreases bits - i,
    {
        proof {
            lemma_reversed_step(x as nat, i as nat);
            lemma_reversed_bound(x as nat, (i + 1) as nat);
            lemma_word((i + 1) as nat);
            lemma_pow2_unfold((i + 1) as nat);
            lemma_pow2_pos(i as nat);
            vstd::arithmetic::div_mod::lemma_div_denominator(x as int, pow2(i as nat) as int, 2);
            assert(pow2(i as nat) * 2 == pow2((i + 1) as nat));
        }
        rev = rev * 2 + rest % 2;
        rest = rest / 2;
        i += 1;
    }
    rev
}

proof fn lemma_word(k: nat)
    requires
        k <= usize::BITS,
    ensures
        pow2(k) <= usize::MAX + 1,
{
    vstd::arithmetic::power2::lemma2_to64();
    vstd::arithmetic::power2::lemma2_to64_rest();
    if k < usize::BITS {
        lemma_pow2_strictly_increases(k, usize::BITS as nat);
    }
}

/// Where the complex number that ends up at `c` comes from.
pub open spec fn source_place(c: int, n_fft: usize) -> int {
    let bits = stages_of(n_fft);
    if 0 <= c < pow2(bits) {
        reversed(c as nat, bits) as int
    } else {
        c
    }
}

/// A buffer of interleaved complex numbers with their places bit-reversed.
pub open spec fn permuted<T>(buf: Seq<T>, n_fft: usize) -> Seq<T> {
    Seq::new(buf.len(), |i: int| buf[source_place(i / 2, n_fft) * 2 + i % 2])
}

pub(crate) proof fn lemma_source_place(c: int, n_fft: usize)
    requires
        0 <= c < n_fft,
    ensures
        0 <= source_place(c, n_fft) < n_fft,
        source_place(source_place(c, n_fft), n_fft) == c,
        source_place(c, n_fft) == c || (c < pow2(stages_of(n_fft)) && source_place(c, n_fft)
            < pow2(stages_of(n_fft))),
{
    let bits = stages_of(n_fft);
    lemma_divides(n_fft as nat);
    if c < pow2(bits) {
        reversal_is_its_own_inverse(c as nat, bits);
    }
}

/// The power of two in a positive number is at most the number.
pub(crate) proof fn lemma_divides(n: nat)
    requires
        n > 0,
    ensures
        pow2(twos(n)) <= n,
        n % pow2(twos(n)) == 0,
    decreases n,
{
    vstd::arithmetic::power2::lemma2_to64();
    if n % 2 == 0 {
        lemma_divides(n / 2);
        let h = n / 2;
        let p = pow2(twos(h));
        lemma_pow2_unfold(twos(n));
        lemma_pow2_pos(twos(h));
        vstd::arithmetic::div_mod::lemma_fundamental_div_mod(h as int, p as int);
        assert(n == (2 * p) * (h / p)) by (nonlinear_arith)
            requires
                n == 2 * h,
                h == p * (h as int / p as int) + 0,
        ;
        vstd::arithmetic::div_mod::lemma_mod_multiples_basic((h / p) as int, (2 * p) as int);
        assert((h / p) * (2 * p) == (2 * p) * (h / p)) by (nonlinear_arith);
    } else {
        assert(pow2(0) == 1);
        assert(n % 1 == 0);
    }
}

/// Permuting twice gives the buffer back.
pub proof fn permuting_twice_changes_nothing<T>(buf: Seq<T>, n_fft: usize)
    requires
        buf.len() == 2 * n_fft,
    ensures
        permuted(permuted(buf, n_fft), n_fft) == buf,
{
    let p = permuted(buf, n_fft);
    assert forall|i: int| 0 <= i < buf.len() implies permuted(p, n_fft)[i] == buf[i] by {
        let c = i / 2;
        lemma_source_place(c, n_fft);
        let s = source_place(c, n_fft);
        assert((s * 2 + i % 2) / 2 == s);
        assert((s * 2 + i % 2) % 2 == i % 2);
        assert(p[s * 2 + i % 2] == buf[source_place(s, n_fft) * 2 + i % 2]);
    }
    assert(permuted(p, n_fft) =~= buf);
}

/// A buffer in which the first `i` places have been exchanged with their sources.
spec fn partly_permuted<T>(buf: Seq<T>, n_fft: usize, i: int) -> Seq<T> {
    Seq::new(
        buf.len(),
        |k: int|
            {
                let c = k / 2;
                let s = source_place(c, n_fft);
                if c < i || s < i {
                    buf[s * 2 + k % 2]
                } else {
                    buf[k]
                }
            },
    )
}

fn swap<T: Copy>(buf: &mut Vec<T>, a: usize, b: usize)
    requires
        a < old(buf).len(),
        b < old(buf).len(),
    ensures
        final(buf)@ == old(buf)@.update(a as int, old(buf)@[b as int]).update(
            b as int,
            old(buf)@[a as int],
        ),
{
    let x = buf[a];
    let y = buf[b];
    buf.set(a, y);
    buf.set(b, x);
}

/// Puts interleaved complex numbers into bit-reversed order.
pub fn bit_reverse_permute<T: Copy>(buf: &mut Vec<T>, n_fft: usize)
    requires
        old(buf).len() == 2 * n_fft,
    ensures
        final(buf)@ == permuted(old(buf)@, n_fft),
{
    let ghost start = buf@;
    let len: usize = buf.len();
    let bits: usize = num_stages(n_fft);
    let mut i: usize = 0;
    proof {
        if n_fft > 0 {
            lemma_stage_bound(n_fft);
        }
        assert(partly_permuted(start, n_fft, 0) =~= start) by {
            assert forall|k: int| 0 <= k < start.len() implies partly_permuted(start, n_fft, 0)[k]
                == start[k] by {
                lemma_source_place(k / 2, n_fft);
            }
        }
    }
    while i < n_fft
        invariant
            i <= n_fft,
            bits == stages_of(n_fft),
            bits <= usize::BITS,
            start.len() == 2 * n_fft,
            len == 2 * n_fft,
            buf@ == partly_permuted(start, n_fft, i as int),
        decreases n_fft - i,
    {
        let j: usize = bit_reverse(i, bits);
        proof {
            lemma_source_place(i as int, n_fft);
            lemma_reversed_bound(i as nat, bits as nat);
            lemma_divides(n_fft as nat);
        }
        let ghost before = buf@;
        if i < j {
            assert(j < n_fft && source_place(i as int, n_fft) == j) by {
                if i >= pow2(bits as nat) {
                    assert(j < pow2(bits as nat));
                }
            }
            assert(before.len() == 2 * n_fft);
            swap(buf, i * 2, j * 2);
            swap(buf, i * 2 + 1, j * 2 + 1);
            proof {
                let now = buf@;
                lemma_source_place(j as int, n_fft);
                assert forall|k: int| 0 <= k < start.len() implies now[k] == partly_permuted(
                    start,
                    n_fft,
                    i + 1,
                )[k] by {
                    let c = k / 2;
                    lemma_source_place(c, n_fft);
                    let s = source_place(c, n_fft);
                    assert(k == 2 * c + k % 2);
                    if c == i {
                        assert(s == j);
                        assert(before[j * 2 + k % 2] == start[j * 2 + k % 2]) by {
                            assert((j * 2 + k % 2) / 2 == j);
                            assert((j * 2 + k % 2) % 2 == k % 2);
                        }
                    } else if c == j {
                        assert(s == i);
                        assert(before[i * 2 + k % 2] == start[i * 2 + k % 2]) by {
                            assert((i * 2 + k % 2) / 2 == i);
                            assert((i * 2 + k % 2) % 2 == k % 2);
                        }
                    } else {
                        assert(now[k] == before[k]);
                        assert(s != i) by {
                            if s == i {
                                assert(source_place(s, n_fft) == c);
                            }
                        }
                    }
                }
                assert(now =~= partly_permuted(start, n_fft, i + 1));
            }
        } else {
            proof {
                assert forall|k: int| 0 <= k < start.len() implies before[k] == partly_permuted(
                    start,
                    n_fft,
                    i + 1,
                )[k] by {
                    let c = k / 2;
                    lemma_source_place(c, n_fft);
                    let s = source_place(c, n_fft);
                    assert(k == 2 * c + k % 2);
                    if c == i {
                        if s > i {
                            assert(s == j);
                        }
                    } else if s == i {
                        assert(source_place(i as int, n_fft) == c);
                        if c > i {
                            assert(c == j);
                        }
                    }
                }
                assert(before =~= partly_permuted(start, n_fft, i + 1));
            }
        }
        i += 1;
    }
    proof {
        assert forall|k: int| 0 <= k < start.len() implies buf@[k] == permuted(start, n_fft)[k] by {
            assert(k / 2 < n_fft);
        }
        assert(buf@ =~= permuted(start, n_fft));
    }
}

pub(crate) proof fn lemma_stage_bound(n_fft: usize)
    requires
        n_fft > 0,
    ensures
        stages_of(n_fft) < usize::BITS,
        pow2(stages_of(n_fft)) <= n_fft,
{
    lemma_divides(n_fft as nat);
    let k = stages_of(n_fft);
    if k >= usize::BITS {
        vstd::arithmetic::power2::lemma2_to64();
        vstd::arithmetic::power2::lemma2_to64_rest();
        if k > usize::BITS {
            lemma_pow2_strictly_increases(usize::BITS as nat, k);
        }
    }
}

// ---------------------------------------------------------------------------
// Stages
// ---------------------------------------------------------------------------

/// A complex number.
pub struct Complex<T> {
    pub re: T,
    pub im: T,
}

/// The complex number at a place of an interleaved buffer.
pub open spec fn complex_at<T>(buf: Seq<T>, c: int) -> Complex<T> {
    Complex { re: buf[2 * c], im: buf[2 * c + 1] }
}

/// The product of two complex numbers.
pub open spec fn complex_product<T: Scalar>(a: Complex<T>, w: Complex<T>) -> Complex<T> {
    Complex {
        re: T::difference(T::product(a.re, w.re), T::product(a.im, w.im)),
        im: T::sum(T::product(a.re, w.im), T::product(a.im, w.re)),
    }
}

/// The sum of two complex numbers.
pub open spec fn complex_sum<T: Scalar>(a: Complex<T>, b: Complex<T>) -> Complex<T> {
    Complex { re: T::sum(a.re, b.re), im: T::sum(a.im, b.im) }
}

/// The difference of two complex numbers.
pub open spec fn complex_difference<T: Scalar>(a: Complex<T>, b: Complex<T>) -> Complex<T> {
    Complex { re: T::difference(a.re, b.re), im: T::difference(a.im, b.im) }
}

/// Which butterfly of a stage touches a place.
pub open spec fn butterfly_of(c: int, stride: int) -> int {
    (c / (2 * stride)) * stride + c % stride
}

/// The upper place of a butterfly; the lower one is a stride further.
pub open spec fn upper_place(b: int, stride: int) -> int {
    (b / stride) * (2 * stride) + b % stride
}

/// Where the twiddle of a butterfly stands: stage by stage, butterfly by butterfly.
pub open spec fn twiddle_place(stage: int, b: int, half: int) -> int {
    stage * half + b
}

/// What a stage leaves at a place: the sum of the upper number and the turned lower one at the
/// upper place, their difference at the lower place.
pub open spec fn stage_value<T: Scalar>(
    buf: Seq<T>,
    twiddles: Seq<T>,
    n_fft: int,
    stage: nat,
    c: int,
) -> Complex<T> {
    let stride = pow2(stage) as int;
    let b = butterfly_of(c, stride);
    let up = upper_place(b, stride);
    let a = complex_at(buf, up);
    let turned = complex_product(
        complex_at(buf, up + stride),
        complex_at(twiddles, twiddle_place(stage as int, b, n_fft / 2)),
    );
    if c % (2 * stride) < stride {
        complex_sum(a, turned)
    } else {
        complex_difference(a, turned)
    }
}

/// A buffer after a stage.
pub open spec fn staged<T: Scalar>(buf: Seq<T>, twiddles: Seq<T>, n_fft: int, stage: nat) -> Seq<T> {
    Seq::new(
        (2 * n_fft) as nat,
        |i: int|
            {
                let v = stage_value(buf, twiddles, n_fft, stage, i / 2);
                if i % 2 == 0 {
                    v.re
                } else {
                    v.im
                }
            },
    )
}

/// A buffer after the first `k` stages.
pub open spec fn after_stages<T: Scalar>(buf: Seq<T>, twiddles: Seq<T>, n_fft: int, k: nat) -> Seq<T>
    decreases k,
{
    if k == 0 {
        buf
    } else {
        staged(
            after_stages(buf, twiddles, n_fft, (k - 1) as nat),
            twiddles,
            n_fft,
            (k - 1) as nat,
        )
    }
}

/// The butterfly transform: bit reversal and all stages.
pub open spec fn transformed<T: Scalar>(input: Seq<T>, twiddles: Seq<T>, n_fft: usize) -> Seq<T> {
    after_stages(permuted(input, n_fft), twiddles, n_fft as int, stages_of(n_fft))
}

/// The two places of a butterfly are its own and no other's.
pub(crate) proof fn lemma_places(b: int, stride: int, half: int)
    requires
        stride > 0,
        0 <= b < half,
        half % stride == 0,
    ensures
        ({
            let up = upper_place(b, stride);
            &&& 0 <= up
            &&& up + stride < 2 * half
            &&& butterfly_of(up, stride) == b
            &&& butterfly_of(up + stride, stride) == b
            &&& up % (2 * stride) < stride
            &&& (up + stride) % (2 * stride) >= stride
        }),
{
    let g = b / stride;
    let k = b % stride;
    let two = 2 * stride;
    vstd::arithmetic::div_mod::lemma_fundamental_div_mod(b, stride);
    vstd::arithmetic::div_mod::lemma_fundamental_div_mod(half, stride);
    let up = g * two + k;
    vstd::arithmetic::div_mod::lemma_fundamental_div_mod_converse(up, two, g, k);
    vstd::arithmetic::div_mod::lemma_fundamental_div_mod_converse(up + stride, two, g, k + stride);
    assert(up == stride * (2 * g) + k) by (nonlinear_arith)
        requires
            up == g * two + k,
            two == 2 * stride,
    ;
    assert(up + stride == stride * (2 * g + 1) + k) by (nonlinear_arith)
        requires
            up == stride * (2 * g) + k,
    ;
    vstd::arithmetic::div_mod::lemma_fundamental_div_mod_converse(up, stride, 2 * g, k);
    vstd::arithmetic::div_mod::lemma_fundamental_div_mod_converse(
        up + stride,
        stride,
        2 * g + 1,
        k,
    );
    assert(g * stride + k == b) by (nonlinear_arith)
        requires
            b == stride * g + k,
    ;
    let q = half / stride;
    assert(g < q) by (nonlinear_arith)
        requires
            stride * g + k < stride * q,
            k >= 0,
            stride > 0,
    ;
    assert(up + stride < 2 * half) by (nonlinear_arith)
        requires
            up == stride * (2 * g) + k,
            half == stride * q,
            g + 1 <= q,
            k < stride,
            stride > 0,
    ;
}

/// Every place belongs to a butterfly of the stage, as its upper or its lower place.
pub(crate) proof fn lemma_place_of(c: int, stride: int, half: int)
    requires
        stride > 0,
        0 <= c < 2 * half,
        half % stride == 0,
    ensures
        ({
            let b = butterfly_of(c, stride);
            &&& 0 <= b < half
            &&& c % (2 * stride) < stride ==> c == upper_place(b, stride)
            &&& c % (2 * stride) >= stride ==> c == upper_place(b, stride) + stride
        }),
{
    let two = 2 * stride;
    let g = c / two;
    let m = c % two;
    let k = c % stride;
    vstd::arithmetic::div_mod::lemma_fundamental_div_mod(c, two);
    vstd::arithmetic::div_mod::lemma_fundamental_div_mod(half, stride);
    let q = half / stride;
    assert(k == if m < stride {
        m
    } else {
        m - stride
    }) by {
        if m < stride {
            assert(c == stride * (2 * g) + m) by (nonlinear_arith)
                requires
                    c == two * g + m,
                    two == 2 * stride,
            ;
            vstd::arithmetic::div_mod::lemma_fundamental_div_mod_converse(c, stride, 2 * g, m);
        } else {
            assert(c == stride * (2 * g + 1) + (m - stride)) by (nonlinear_arith)
                requires
                    c == two * g + m,
                    two == 2 * stride,
            ;
            vstd::arithmetic::div_mod::lemma_fundamental_div_mod_converse(
                c,
                stride,
                2 * g + 1,
                m - stride,
            );
        }
    }
    let b = g * stride + k;
    assert(b == stride * g + k) by (nonlinear_arith)
        requires
            b == g * stride + k,
    ;
    vstd::arithmetic::div_mod::lemma_fundamental_div_mod_converse(b, stride, g, k);
    assert(g >= 0) by (nonlinear_arith)
        requires
            c == two * g + m,
            0 <= c,
            m < two,
            two > 0,
    ;
    assert(0 <= b) by (nonlinear_arith)
        requires
            b == g * stride + k,
            g >= 0,
            stride > 0,
            k >= 0,
    ;
    assert(g < q) by (nonlinear_arith)
        requires
            two * g + m < 2 * (stride * q),
            two == 2 * stride,
            m >= 0,
            stride > 0,
    ;
    assert(b < half) by (nonlinear_arith)
        requires
            b == stride * g + k,
            k < stride,
            g + 1 <= q,
            half == stride * q,
            stride > 0,
    ;
    assert(c == g * two + m) by (nonlinear_arith)
        requires
            c == two * g + m,
    ;
}

/// Every place is the upper or the lower place of exactly one butterfly of a stage.
pub proof fn stage_partitions_places(c: int, stride: int, half: int)
    requires
        stride > 0,
        0 <= c < 2 * half,
        half % stride == 0,
    ensures
        ({
            let b = butterfly_of(c, stride);
            &&& 0 <= b < half
            &&& c == upper_place(b, stride) || c == upper_place(b, stride) + stride
        }),
        forall|b: int|
            0 <= b < half && (c == #[trigger] upper_place(b, stride) || c == upper_place(b, stride)
                + stride) ==> b == butterfly_of(c, stride),
{
    lemma_place_of(c, stride, half);
    assert forall|b: int| 0 <= b < half && (c == #[trigger] upper_place(b, stride) || c
        == upper_place(b, stride) + stride) implies b == butterfly_of(c, stride) by {
        lemma_places(b, stride, half);
    }
}

/// A stride of a stage divides half the size.
pub(crate) proof fn lemma_stride(n_fft: usize, stage: nat)
    requires
        n_fft > 0,
        stage < stages_of(n_fft),
    ensures
        pow2(stage) > 0,
        2 * pow2(stage) <= n_fft,
        n_fft % 2 == 0,
        (n_fft as int / 2) % (pow2(stage) as int) == 0,
{
    let t = stages_of(n_fft);
    let n = n_fft as nat;
    lemma_divides(n);
    lemma_pow2_pos(stage);
    lemma_pow2_unfold(stage + 1);
    let d = (t - stage - 1) as nat;
    lemma_pow2_adds(stage + 1, d);
    lemma_pow2_pos(d);
    let p = pow2(stage) as int;
    let r = pow2(d) as int;
    let q = n as int / pow2(t) as int;
    lemma_pow2_pos(t);
    vstd::arithmetic::div_mod::lemma_fundamental_div_mod(n as int, pow2(t) as int);
    assert(n == (r * q) * p * 2) by (nonlinear_arith)
        requires
            n == pow2(t) * q,
            pow2(t) == (2 * p) * r,
    ;
    let h = (r * q) * p;
    assert(n == h * 2);
    assert(n / 2 == h);
    vstd::arithmetic::div_mod::lemma_mod_multiples_basic(r * q, p);
    assert(2 * p <= n) by (nonlinear_arith)
        requires
            n == (r * q) * p * 2,
            n > 0,
            p > 0,
            r > 0,
    ;
}

/// Why a transform is refused.
#[derive(Debug, Clone, Copy, PartialEq, Eq, Structural)]
pub enum ButterflyError {
    /// The input does not hold as many numbers as it should.
    InputLength { found: usize, expected: usize },
    /// There are fewer twiddles than the stages need.
    TooFewTwiddles,
}

/// How many twiddle numbers a transform needs.
pub open spec fn twiddles_needed(n_fft: usize) -> nat {
    stages_of(n_fft) * ((n_fft / 2) as nat) * 2
}

/// Applies one stage.
pub fn apply_stage<T: Scalar>(buf: &Vec<T>, twiddles: &Vec<T>, n_fft: usize, stage: usize) -> (r: Vec<
    T,
>)
    requires
        n_fft > 0,
        buf.len() == 2 * n_fft,
        stage < stages_of(n_fft),
        twiddles.len() >= twiddles_needed(n_fft),
    ensures
        r@ == staged(buf@, twiddles@, n_fft as int, stage as nat),
{
    let len: usize = buf.len();
    let tw_len: usize = twiddles.len();
    let half: usize = n_fft / 2;
    proof {
        lemma_stride(n_fft, stage as nat);
        lemma_stage_bound(n_fft);
    }
    let stride: usize = power(stage, n_fft);
    let mut next: Vec<T> = Vec::new();
    let mut z: usize = 0;
    while z < len
        invariant
            z <= len,
            next.len() == z,
        decreases len - z,
    {
        next.push(T::zero());
        z += 1;
    }
    let mut b: usize = 0;
    while b < half
        invariant
            b <= half,
            half == n_fft / 2,
            n_fft % 2 == 0,
            len == 2 * n_fft,
            buf.len() == len,
            next.len() == len,
            stride == pow2(stage as nat),
            stride > 0,
            2 * stride <= n_fft,
            half % stride == 0,
            stage < stages_of(n_fft),
            tw_len == twiddles.len(),
            tw_len >= twiddles_needed(n_fft),
            forall|c: int|
                0 <= c < n_fft && butterfly_of(c, stride as int) < b ==> complex_at(
                    next@,
                    c,
                ) == #[trigger] stage_value(buf@, twiddles@, n_fft as int, stage as nat, c),
        decreases half - b,
    {
        proof {
            lemma_places(b as int, stride as int, half as int);
            lemma_twiddle_fits(stage as int, b as int, half as int, stages_of(n_fft) as int);
        }
        let group: usize = b / stride;
        let k: usize = b % stride;
        let ghost up = upper_place(b as int, stride as int);
        proof {
            assert(group * 2 * stride == group * (2 * stride)) by (nonlinear_arith);
            assert(group * 2 <= group * 2 * stride) by (nonlinear_arith)
                requires
                    group >= 0,
                    stride >= 1,
            ;
            assert(stage * half <= stage * half + b);
            assert(0 <= stage * half) by (nonlinear_arith)
                requires
                    stage >= 0,
                    half >= 0,
            ;
        }
        let i0: usize = (group * 2 * stride + k) * 2;
        let i1: usize = i0 + stride * 2;
        let w: usize = (stage * half + b) * 2;
        let b_re = buf[i1].times(twiddles[w]).minus(buf[i1 + 1].times(twiddles[w + 1]));
        let b_im = buf[i1].times(twiddles[w + 1]).plus(buf[i1 + 1].times(twiddles[w]));
        let ghost before = next@;
        next.set(i0, buf[i0].plus(b_re));
        next.set(i0 + 1, buf[i0 + 1].plus(b_im));
        next.set(i1, buf[i0].minus(b_re));
        next.set(i1 + 1, buf[i0 + 1].minus(b_im));
        proof {
            assert(i0 == 2 * up);
            assert(i1 == 2 * (up + stride));
            assert(w == 2 * twiddle_place(stage as int, b as int, half as int));
            assert forall|c: int| 0 <= c < n_fft && butterfly_of(c, stride as int) < b + 1 implies complex_at(
                next@,
                c,
            ) == #[trigger] stage_value(buf@, twiddles@, n_fft as int, stage as nat, c) by {
                lemma_place_of(c, stride as int, half as int);
                if butterfly_of(c, stride as int) == b {
                    assert(c == up || c == up + stride);
                } else {
                    assert(c != up && c != up + stride);
                    assert(complex_at(next@, c) == complex_at(before, c));
                }
            }
        }
        b += 1;
    }
    proof {
        let s = staged(buf@, twiddles@, n_fft as int, stage as nat);
        assert forall|i: int| 0 <= i < s.len() implies next@[i] == s[i] by {
            let c = i / 2;
            lemma_place_of(c, stride as int, half as int);
            assert(complex_at(next@, c) == stage_value(
                buf@,
                twiddles@,
                n_fft as int,
                stage as nat,
                c,
            ));
            assert(i == 2 * c + i % 2);
        }
        assert(next@ =~= s);
    }
    next
}

pub(crate) proof fn lemma_twiddle_fits(stage: int, b: int, half: int, stages: int)
    requires
        0 <= stage < stages,
        0 <= b < half,
    ensures
        0 <= stage * half + b,
        (stage * half + b) * 2 + 1 < stages * half * 2,
{
    assert(stage * half + half <= stages * half) by (nonlinear_arith)
        requires
            stage + 1 <= stages,
            half >= 0,
    ;
    assert(0 <= stage * half) by (nonlinear_arith)
        requires
            stage >= 0,
            half >= 0,
    ;
}

/// Two raised to a stage.
pub(crate) fn power(stage: usize, n_fft: usize) -> (r: usize)
    requires
        2 * pow2(stage as nat) <= n_fft,
    ensures
        r == pow2(stage as nat),
{
    let mut r: usize = 1;
    let mut i: usize = 0;
    proof {
        vstd::arithmetic::power2::lemma2_to64();
    }
    while i < stage
        invariant
            i <= stage,
            r == pow2(i as nat),
            2 * pow2(stage as nat) <= n_fft,
        decreases stage - i,
    {
        proof {
            lemma_pow2_unfold((i + 1) as nat);
            if i + 1 < stage {
                lemma_pow2_strictly_increases((i + 1) as nat, stage as nat);
            }
        }
        r = r * 2;
        i += 1;
    }
    r
}

/// What a transform of some lengths is refused for.
pub open spec fn transform_fault(input: nat, twiddles: nat, n_fft: usize) -> Option<ButterflyError> {
    if input != 2 * n_fft {
        Some(ButterflyError::InputLength { found: input as usize, expected: (2 * n_fft) as usize })
    } else if twiddles < twiddles_needed(n_fft) {
        Some(ButterflyError::TooFewTwiddles)
    } else {
        None
    }
}

/// The forward transform of interleaved complex numbers.
pub fn butterfly_forward_eager<T: Scalar>(input: &Vec<T>, twiddles: &Vec<T>, n_fft: usize) -> (r: Result<
    Vec<T>,
    ButterflyError,
>)
    requires
        2 * n_fft <= usize::MAX,
        twiddles_needed(n_fft) <= usize::MAX,
    ensures
        match transform_fault(input@.len(), twiddles@.len(), n_fft) {
            Some(e) => r == Err::<Vec<T>, ButterflyError>(e),
            None => r matches Ok(v) && v@ == transformed(input@, twiddles@, n_fft),
        },
{
    if input.len() != n_fft * 2 {
        return Err(ButterflyError::InputLength { found: input.len(), expected: n_fft * 2 });
    }
    let half: usize = n_fft / 2;
    let stages: usize = num_stages(n_fft);
    proof {
        assert(stages * half <= stages * half * 2) by (nonlinear_arith)
            requires
                stages >= 0,
                half >= 0,
        ;
    }
    if twiddles.len() < stages * half * 2 {
        return Err(ButterflyError::TooFewTwiddles);
    }
    let mut buf: Vec<T> = Vec::new();
    let mut i: usize = 0;
    while i < input.len()
        invariant
            i <= input.len(),
            buf@ == input@.take(i as int),
        decreases input.len() - i,
    {
        buf.push(input[i]);
        assert(buf@ =~= input@.take(i + 1));
        i += 1;
    }
    assert(buf@ =~= input@);
    bit_reverse_permute(&mut buf, n_fft);
    let ghost start = buf@;
    if n_fft == 0 {
        proof {
            lemma_empty_stages(start, twiddles@, stages as nat);
        }
        return Ok(buf);
    }
    let mut s: usize = 0;
    while s < stages
        invariant
            s <= stages,
            n_fft > 0,
            stages == stages_of(n_fft),
            twiddles.len() >= twiddles_needed(n_fft),
            buf.len() == 2 * n_fft,
            buf@ == after_stages(start, twiddles@, n_fft as int, s as nat),
        decreases stages - s,
    {
        buf = apply_stage(&buf, twiddles, n_fft, s);
        s += 1;
    }
    Ok(buf)
}

pub(crate) proof fn lemma_empty_stages<T: Scalar>(buf: Seq<T>, twiddles: Seq<T>, k: nat)
    requires
        buf.len() == 0,
    ensures
        after_stages(buf, twiddles, 0, k) == buf,
    decreases k,
{
    if k > 0 {
        lemma_empty_stages(buf, twiddles, (k - 1) as nat);
        assert(staged(buf, twiddles, 0, (k - 1) as nat) =~= buf);
    }
}

/// A buffer with the imaginary parts of its first `n_fft` numbers turned around.
pub open spec fn conjugated<T: Scalar>(buf: Seq<T>, n_fft: int) -> Seq<T> {
    Seq::new(
        buf.len(),
        |i: int|
            if i % 2 == 1 && i / 2 < n_fft {
                T::opposite(buf[i])
            } else {
                buf[i]
            },
    )
}

/// Turns the imaginary parts of a buffer around.
pub fn apply_conj<T: Scalar>(buf: &mut Vec<T>, n_fft: usize)
    requires
        old(buf).len() >= 2 * n_fft,
    ensures
        final(buf)@ == conjugated(old(buf)@, n_fft as int),
{
    let ghost start = buf@;
    let len: usize = buf.len();
    let mut i: usize = 0;
    assert(buf@ =~= conjugated(start, 0));
    while i < n_fft
        invariant
            i <= n_fft,
            len == start.len(),
            len >= 2 * n_fft,
            buf@ == conjugated(start, i as int),
        decreases n_fft - i,
    {
        let v = buf[i * 2 + 1];
        buf.set(i * 2 + 1, v.negated());
        assert(buf@ =~= conjugated(start, i + 1)) by {
            assert forall|k: int| 0 <= k < start.len() implies buf@[k] == conjugated(
                start,
                i + 1,
            )[k] by {
                assert(k == 2 * (k / 2) + k % 2);
            }
        }
        i += 1;
    }
}

/// The inverse transform, without scaling: the conjugate of the transform of the conjugate.
pub open spec fn inverse_transformed<T: Scalar>(input: Seq<T>, twiddles: Seq<T>, n_fft: usize) -> Seq<T> {
    conjugated(
        transformed(conjugated(input, n_fft as int), twiddles, n_fft),
        n_fft as int,
    )
}

pub(crate) proof fn lemma_transformed_len<T: Scalar>(input: Seq<T>, twiddles: Seq<T>, n_fft: usize)
    requires
        input.len() == 2 * n_fft,
    ensures
        transformed(input, twiddles, n_fft).len() == 2 * n_fft,
{
}

/// The inverse transform of interleaved complex numbers.
pub fn butterfly_inverse_eager<T: Scalar>(input: &Vec<T>, twiddles: &Vec<T>, n_fft: usize) -> (r: Result<
    Vec<T>,
    ButterflyError,
>)
    requires
        2 * n_fft <= input.len(),
        2 * n_fft <= usize::MAX,
        twiddles_needed(n_fft) <= usize::MAX,
    ensures
        match transform_fault(input@.len(), twiddles@.len(), n_fft) {
            Some(e) => r == Err::<Vec<T>, ButterflyError>(e),
            None => r matches Ok(v) && v@ == inverse_transformed(input@, twiddles@, n_fft),
        },
{
    let mut conj: Vec<T> = Vec::new();
    let mut i: usize = 0;
    while i < input.len()
        invariant
            i <= input.len(),
            conj@ == input@.take(i as int),
        decreases input.len() - i,
    {
        conj.push(input[i]);
        assert(conj@ =~= input@.take(i + 1));
        i += 1;
    }
    assert(conj@ =~= input@);
    apply_conj(&mut conj, n_fft);
    match butterfly_forward_eager(&conj, twiddles, n_fft) {
        Err(e) => Err(e),
        Ok(y) => {
            let mut out = y;
            proof {
                lemma_transformed_len(conj@, twiddles@, n_fft);
            }
            apply_conj(&mut out, n_fft);
            Ok(out)
        },
    }
}

// ---------------------------------------------------------------------------
// Batches
// ---------------------------------------------------------------------------

/// A row of real numbers as interleaved complex numbers.
pub open spec fn as_complex<T: Scalar>(signal: Seq<T>, start: int, n_fft: int) -> Seq<T> {
    Seq::new(
        (2 * n_fft) as nat,
        |i: int|
            if i % 2 == 0 {
                signal[start + i / 2]
            } else {
                T::nought()
            },
    )
}

/// The forward transforms of the first `k` rows, one after the other.
pub open spec fn forward_rows<T: Scalar>(
    signal: Seq<T>,
    twiddles: Seq<T>,
    n_fft: usize,
    k: nat,
) -> Seq<T>
    decreases k,
{
    if k == 0 {
        Seq::empty()
    } else {
        forward_rows(signal, twiddles, n_fft, (k - 1) as nat) + transformed(
            as_complex(signal, (k - 1) * n_fft, n_fft as int),
            twiddles,
            n_fft,
        )
    }
}

/// The inverse transforms of the first `k` rows, one after the other.
pub open spec fn inverse_rows<T: Scalar>(
    spectrum: Seq<T>,
    twiddles: Seq<T>,
    n_fft: usize,
    k: nat,
) -> Seq<T>
    decreases k,
{
    if k == 0 {
        Seq::empty()
    } else {
        inverse_rows(spectrum, twiddles, n_fft, (k - 1) as nat) + inverse_transformed(
            spectrum.subrange((k - 1) * (2 * n_fft), k * (2 * n_fft)),
            twiddles,
            n_fft,
        )
    }
}

/// What a batch of some lengths is refused for.
pub open spec fn batch_fault(
    input: nat,
    expected: nat,
    twiddles: nat,
    batch: usize,
    n_fft: usize,
) -> Option<ButterflyError> {
    if input != expected {
        Some(ButterflyError::InputLength { found: input as usize, expected: expected as usize })
    } else if batch > 0 && twiddles < twiddles_needed(n_fft) {
        Some(ButterflyError::TooFewTwiddles)
    } else {
        None
    }
}

/// Whether the lengths of a batch can be counted.
pub open spec fn countable_batch(batch: usize, n_fft: usize) -> bool {
    batch * n_fft * 2 <= usize::MAX && 2 * n_fft <= usize::MAX && twiddles_needed(n_fft)
        <= usize::MAX
}

pub(crate) fn push_all<T: Copy>(out: &mut Vec<T>, more: &Vec<T>)
    ensures
        final(out)@ == old(out)@ + more@,
{
    let ghost start = out@;
    let mut i: usize = 0;
    assert(start + more@.take(0) =~= start);
    while i < more.len()
        invariant
            i <= more.len(),
            out@ == start + more@.take(i as int),
        decreases more.len() - i,
    {
        out.push(more[i]);
        assert(out@ =~= start + more@.take(i + 1));
        i += 1;
    }
    assert(more@.take(more@.len() as int) =~= more@);
}

/// The forward transforms of a batch of real rows.
pub fn butterfly_forward_real_batch<T: Scalar>(
    signal: &Vec<T>,
    twiddles: &Vec<T>,
    batch: usize,
    n_fft: usize,
) -> (r: Result<Vec<T>, ButterflyError>)
    requires
        countable_batch(batch, n_fft),
    ensures
        match batch_fault(
            signal@.len(),
            (batch * n_fft) as nat,
            twiddles@.len(),
            batch,
            n_fft,
        ) {
            Some(e) => r == Err::<Vec<T>, ButterflyError>(e),
            None => r matches Ok(v) && v@ == forward_rows(
                signal@,
                twiddles@,
                n_fft,
                batch as nat,
            ),
        },
{
    proof {
        assert(batch * n_fft <= batch * n_fft * 2) by (nonlinear_arith)
            requires
                batch >= 0,
                n_fft >= 0,
        ;
    }
    let expected: usize = batch * n_fft;
    if signal.len() != expected {
        return Err(ButterflyError::InputLength { found: signal.len(), expected });
    }
    let mut out: Vec<T> = Vec::new();
    let mut b: usize = 0;
    while b < batch
        invariant
            b <= batch,
            countable_batch(batch, n_fft),
            signal@.len() == batch * n_fft,
            out@ == forward_rows(signal@, twiddles@, n_fft, b as nat),
            b > 0 ==> twiddles@.len() >= twiddles_needed(n_fft),
        decreases batch - b,
    {
        proof {
            assert(b * n_fft + n_fft <= batch * n_fft) by (nonlinear_arith)
                requires
                    b + 1 <= batch,
                    n_fft >= 0,
            ;
            assert(batch * n_fft <= batch * n_fft * 2) by (nonlinear_arith)
                requires
                    batch >= 0,
                    n_fft >= 0,
            ;
            assert(0 <= b * n_fft) by (nonlinear_arith)
                requires
                    b >= 0,
                    n_fft >= 0,
            ;
        }
        let start: usize = b * n_fft;
        let mut complex: Vec<T> = Vec::new();
        let ghost row = as_complex(signal@, start as int, n_fft as int);
        let mut i: usize = 0;
        while i < n_fft
            invariant
                i <= n_fft,
                start + n_fft <= signal.len(),
                2 * n_fft <= usize::MAX,
                row == as_complex(signal@, start as int, n_fft as int),
                complex@ == row.take(2 * i),
            decreases n_fft - i,
        {
            complex.push(signal[start + i]);
            complex.push(T::zero());
            assert(complex@ =~= row.take(2 * (i + 1))) by {
                assert(row[2 * i] == signal@[start + i]);
                assert(row[2 * i + 1] == T::nought());
            }
            i += 1;
        }
        assert(complex@ =~= row);
        match butterfly_forward_eager(&complex, twiddles, n_fft) {
            Err(e) => {
                return Err(e);
            },
            Ok(y) => {
                push_all(&mut out, &y);
            },
        }
        b += 1;
    }
    Ok(out)
}

/// The inverse transforms of a batch of complex rows.
pub fn butterfly_inverse_complex_batch<T: Scalar>(
    spectrum: &Vec<T>,
    twiddles: &Vec<T>,
    batch: usize,
    n_fft: usize,
) -> (r: Result<Vec<T>, ButterflyError>)
    requires
        countable_batch(batch, n_fft),
    ensures
        match batch_fault(
            spectrum@.len(),
            (batch * n_fft * 2) as nat,
            twiddles@.len(),
            batch,
            n_fft,
        ) {
            Some(e) => r == Err::<Vec<T>, ButterflyError>(e),
            None => r matches Ok(v) && v@ == inverse_rows(
                spectrum@,
                twiddles@,
                n_fft,
                batch as nat,
            ),
        },
{
    proof {
        assert(batch * n_fft <= batch * n_fft * 2) by (nonlinear_arith)
            requires
                batch >= 0,
                n_fft >= 0,
        ;
    }
    let expected: usize = batch * n_fft * 2;
    if spectrum.len() != expected {
        return Err(ButterflyError::InputLength { found: spectrum.len(), expected });
    }
    let width: usize = n_fft * 2;
    let mut out: Vec<T> = Vec::new();
    let mut b: usize = 0;
    while b < batch
        invariant
            b <= batch,
            width == 2 * n_fft,
            countable_batch(batch, n_fft),
            spectrum@.len() == batch * n_fft * 2,
            out@ == inverse_rows(spectrum@, twiddles@, n_fft, b as nat),
            b > 0 ==> twiddles@.len() >= twiddles_needed(n_fft),
        decreases batch - b,
    {
        proof {
            assert(b * width + width <= batch * n_fft * 2) by (nonlinear_arith)
                requires
                    b + 1 <= batch,
                    width == 2 * n_fft,
                    n_fft >= 0,
            ;
            assert(0 <= b * width) by (nonlinear_arith)
                requires
                    b >= 0,
                    width >= 0,
            ;
            assert((b + 1) * width == b * width + width) by (nonlinear_arith);
        }
        let start: usize = b * width;
        let ghost row = spectrum@.subrange(start as int, start + width);
        let mut chunk: Vec<T> = Vec::new();
        let mut i: usize = 0;
        while i < width
            invariant
                i <= width,
                start + width <= spectrum.len(),
                row == spectrum@.subrange(start as int, start + width),
                chunk@ == row.take(i as int),
            decreases width - i,
        {
            chunk.push(spectrum[start + i]);
            assert(chunk@ =~= row.take(i + 1));
            i += 1;
        }
        assert(chunk@ =~= row);
        match butterfly_inverse_eager(&chunk, twiddles, n_fft) {
            Err(e) => {
                return Err(e);
            },
            Ok(y) => {
                push_all(&mut out, &y);
            },
        }
        b += 1;
    }
    Ok(out)
}

proof fn lemma_forward_len<T: Scalar>(signal: Seq<T>, twiddles: Seq<T>, n_fft: usize, k: nat)
    ensures
        forward_rows(signal, twiddles, n_fft, k).len() == k * n_fft * 2,
    decreases k,
{
    if k == 0 {
        assert(0 * n_fft * 2 == 0) by (nonlinear_arith);
    } else {
        lemma_forward_len(signal, twiddles, n_fft, (k - 1) as nat);
        assert(k * n_fft * 2 == (k - 1) * n_fft * 2 + 2 * n_fft) by (nonlinear_arith)
            requires
                k >= 1,
        ;
    }
}

/// The inverse transform, with one set of twiddles, of the forward transform with another.
pub fn butterfly_encdec_roundtrip_batch<T: Scalar>(
    signal: &Vec<T>,
    encoder_tw: &Vec<T>,
    decoder_tw: &Vec<T>,
    batch: usize,
    n_fft: usize,
) -> (r: Result<Vec<T>, ButterflyError>)
    requires
        countable_batch(batch, n_fft),
    ensures
        match batch_fault(
            signal@.len(),
            (batch * n_fft) as nat,
            encoder_tw@.len(),
            batch,
            n_fft,
        ) {
            Some(e) => r == Err::<Vec<T>, ButterflyError>(e),
            None => if batch > 0 && decoder_tw@.len() < twiddles_needed(n_fft) {
                r == Err::<Vec<T>, ButterflyError>(ButterflyError::TooFewTwiddles)
            } else {
                r matches Ok(v) && v@ == inverse_rows(
                    forward_rows(signal@, encoder_tw@, n_fft, batch as nat),
                    decoder_tw@,
                    n_fft,
                    batch as nat,
                )
            },
        },
{
    match butterfly_forward_real_batch(signal, encoder_tw, batch, n_fft) {
        Err(e) => Err(e),
        Ok(spectrum) => {
            proof {
                lemma_forward_len(signal@, encoder_tw@, n_fft, batch as nat);
            }
            butterfly_inverse_complex_batch(&spectrum, decoder_tw, batch, n_fft)
        },
    }
}

// ---------------------------------------------------------------------------
// Layouts
// ---------------------------------------------------------------------------

/// Interleaved complex numbers as a plane of real and a plane of imaginary parts.
pub open spec fn as_planes<T>(v: Seq<T>, n_fft: int) -> Seq<T> {
    Seq::new(
        (2 * n_fft) as nat,
        |i: int|
            if i < n_fft {
                v[2 * i]
            } else {
                v[2 * (i - n_fft) + 1]
            },
    )
}

/// Two planes as interleaved complex numbers.
pub open spec fn as_interleaved<T>(v: Seq<T>, n_fft: int) -> Seq<T> {
    Seq::new(
        (2 * n_fft) as nat,
        |i: int|
            if i % 2 == 0 {
                v[i / 2]
            } else {
                v[n_fft + i / 2]
            },
    )
}

/// The two layouts undo each other.
pub proof fn layouts_undo_each_other<T>(v: Seq<T>, n_fft: int)
    requires
        n_fft >= 0,
        v.len() == 2 * n_fft,
    ensures
        as_interleaved(as_planes(v, n_fft), n_fft) == v,
        as_planes(as_interleaved(v, n_fft), n_fft) == v,
{
    let p = as_planes(v, n_fft);
    let q = as_interleaved(v, n_fft);
    assert forall|i: int| 0 <= i < v.len() implies #[trigger] as_interleaved(p, n_fft)[i]
        == v[i] by {
        let h = i / 2;
        assert(i == 2 * h + i % 2);
        if i % 2 == 0 {
            assert(p[h] == v[2 * h]);
        } else {
            assert(p[n_fft + h] == v[2 * h + 1]);
        }
    }
    assert(as_interleaved(p, n_fft) =~= v);
    assert forall|i: int| 0 <= i < v.len() implies #[trigger] as_planes(q, n_fft)[i] == v[i] by {
        if i < n_fft {
            assert((2 * i) / 2 == i && (2 * i) % 2 == 0);
        } else {
            let h = i - n_fft;
            assert((2 * h + 1) / 2 == h && (2 * h + 1) % 2 == 1);
        }
    }
    assert(as_planes(q, n_fft) =~= v);
}

/// Puts interleaved numbers into planes.
pub fn interleaved_to_planes<T: Copy>(v: &Vec<T>, n_fft: usize) -> (r: Vec<T>)
    requires
        v.len() >= 2 * n_fft,
    ensures
        r@ == as_planes(v@, n_fft as int),
{
    let len: usize = v.len();
    let ghost planes = as_planes(v@, n_fft as int);
    let mut out: Vec<T> = Vec::new();
    let mut i: usize = 0;
    while i < n_fft
        invariant
            i <= n_fft,
            len == v.len(),
            len >= 2 * n_fft,
            planes == as_planes(v@, n_fft as int),
            out@ == planes.take(i as int),
        decreases n_fft - i,
    {
        out.push(v[2 * i]);
        assert(out@ =~= planes.take(i + 1));
        i += 1;
    }
    let mut k: usize = 0;
    while k < n_fft
        invariant
            k <= n_fft,
            len == v.len(),
            len >= 2 * n_fft,
            planes == as_planes(v@, n_fft as int),
            out@ == planes.take(n_fft + k),
        decreases n_fft - k,
    {
        out.push(v[2 * k + 1]);
        assert(out@ =~= planes.take(n_fft + k + 1));
        k += 1;
    }
    assert(out@ =~= planes);
    out
}

/// Puts the gain and the bias of an interleaved correction into planes.
pub fn block_affine_params<T: Copy>(gain: &Vec<T>, bias: &Vec<T>, n_fft: usize) -> (r: (
    Vec<T>,
    Vec<T>,
))
    requires
        gain.len() >= 2 * n_fft,
        bias.len() >= 2 * n_fft,
    ensures
        r.0@ == as_planes(gain@, n_fft as int),
        r.1@ == as_planes(bias@, n_fft as int),
{
    (interleaved_to_planes(gain, n_fft), interleaved_to_planes(bias, n_fft))
}

} // verus!

//! Training of butterfly transforms: traces, gradients and update steps.

use crate::butterfly::{
    after_stages, apply_conj, apply_stage, as_complex, bit_reverse_permute, butterfly_of,
    complex_at, conjugated, lemma_place_of, lemma_places, lemma_stage_bound, lemma_stride,
    lemma_twiddle_fits, num_stages, permuted, power, stages_of, twiddle_place, twiddles_needed,
    upper_place, ButterflyError, Complex,
};
use crate::config::TransformDir;
use crate::scalar::{Divisible, Scalar};
use vstd::arithmetic::power2::pow2;
use vstd::prelude::*;

verus! {

// ---------------------------------------------------------------------------
// Traces
// ---------------------------------------------------------------------------

/// What a transform computed: the buffer before each stage, and the result.
#[derive(Debug)]
pub struct ButterflyTrace<T> {
    pub stage_inputs: Vec<Vec<T>>,
    pub output: Vec<T>,
}

/// The buffer that the stages start from.
pub open spec fn stage_start<T>(buf: Seq<T>, n_fft: usize, bit_reverse_input: bool) -> Seq<T> {
    if bit_reverse_input {
        permuted(buf, n_fft)
    } else {
        buf
    }
}

/// The contents of some buffers.
pub open spec fn buffers<T>(v: Seq<Vec<T>>) -> Seq<Seq<T>> {
    v.map_values(|b: Vec<T>| b@)
}

/// The buffers before each stage.
pub open spec fn stage_buffers<T: Scalar>(start: Seq<T>, twiddles: Seq<T>, n_fft: usize) -> Seq<Seq<T>> {
    Seq::new(
        stages_of(n_fft),
        |s: int| after_stages(start, twiddles, n_fft as int, s as nat),
    )
}

impl<T: Scalar> ButterflyTrace<T> {
    /// Whether the trace is that of the stages from a buffer on.
    pub open spec fn traces(&self, start: Seq<T>, twiddles: Seq<T>, n_fft: usize) -> bool {
        &&& buffers(self.stage_inputs@) == stage_buffers(start, twiddles, n_fft)
        &&& self.output@ == after_stages(start, twiddles, n_fft as int, stages_of(n_fft))
    }

    /// Whether the trace holds a buffer of the right length for each stage.
    pub open spec fn fits(&self, n_fft: usize) -> bool {
        &&& self.stage_inputs@.len() == stages_of(n_fft)
        &&& forall|s: int|
            0 <= s < self.stage_inputs@.len() ==> (#[trigger] self.stage_inputs@[s]).len() == 2
                * n_fft
    }
}

/// A copy of a buffer.
pub fn copy_buffer<T: Copy>(v: &Vec<T>) -> (r: Vec<T>)
    ensures
        r@ == v@,
{
    let mut out: Vec<T> = Vec::new();
    let mut i: usize = 0;
    while i < v.len()
        invariant
            i <= v.len(),
            out@ == v@.take(i as int),
        decreases v.len() - i,
    {
        out.push(v[i]);
        assert(out@ =~= v@.take(i + 1));
        i += 1;
    }
    assert(out@ =~= v@);
    out
}

/// A buffer of zeros.
pub fn zeros<T: Scalar>(len: usize) -> (r: Vec<T>)
    ensures
        r@ == Seq::new(len as nat, |i: int| T::nought()),
{
    let mut out: Vec<T> = Vec::new();
    let mut i: usize = 0;
    while i < len
        invariant
            i <= len,
            out.len() == i,
            forall|k: int| 0 <= k < i ==> (#[trigger] out@[k]) == T::nought(),
        decreases len - i,
    {
        out.push(T::zero());
        i += 1;
    }
    assert(out@ =~= Seq::new(len as nat, |i: int| T::nought()));
    out
}

/// Runs a transform and keeps the buffer before each stage.
pub fn forward_butterfly_traced<T: Scalar>(
    buf: Vec<T>,
    twiddles: &Vec<T>,
    n_fft: usize,
    bit_reverse_input: bool,
) -> (r: Result<ButterflyTrace<T>, ButterflyError>)
    requires
        0 < n_fft,
        2 * n_fft <= usize::MAX,
        twiddles.len() >= twiddles_needed(n_fft),
    ensures
        if buf@.len() != 2 * n_fft {
            r matches Err(e) && e == (ButterflyError::InputLength {
                found: buf@.len() as usize,
                expected: (2 * n_fft) as usize,
            })
        } else {
            r matches Ok(t) && t.fits(n_fft) && t.output.len() == 2 * n_fft && t.traces(
                stage_start(buf@, n_fft, bit_reverse_input),
                twiddles@,
                n_fft,
            )
        },
{
    if buf.len() != n_fft * 2 {
        return Err(ButterflyError::InputLength { found: buf.len(), expected: n_fft * 2 });
    }
    let ghost given = buf@;
    let mut state = buf;
    if bit_reverse_input {
        bit_reverse_permute(&mut state, n_fft);
    }
    let ghost start = state@;
    let stages: usize = num_stages(n_fft);
    let mut stage_inputs: Vec<Vec<T>> = Vec::new();
    let mut s: usize = 0;
    while s < stages
        invariant
            s <= stages,
            0 < n_fft,
            stages == stages_of(n_fft),
            twiddles.len() >= twiddles_needed(n_fft),
            state.len() == 2 * n_fft,
            state@ == after_stages(start, twiddles@, n_fft as int, s as nat),
            stage_inputs.len() == s,
            forall|k: int|
                0 <= k < s ==> (#[trigger] stage_inputs@[k]).len() == 2 * n_fft
                    && stage_inputs@[k]@ == after_stages(
                    start,
                    twiddles@,
                    n_fft as int,
                    k as nat,
                ),
        decreases stages - s,
    {
        stage_inputs.push(copy_buffer(&state));
        state = apply_stage(&state, twiddles, n_fft, s);
        s += 1;
    }
    assert(buffers(stage_inputs@) =~= stage_buffers(start, twiddles@, n_fft));
    Ok(ButterflyTrace { stage_inputs, output: state })
}

// ---------------------------------------------------------------------------
// Gradients
// ---------------------------------------------------------------------------

/// The gradient of a product's first factor: the gradient times the conjugate of the second.
pub open spec fn factor_gradient<T: Scalar>(d: Complex<T>, w: Complex<T>) -> Complex<T> {
    Complex {
        re: T::sum(T::product(d.re, w.re), T::product(d.im, w.im)),
        im: T::difference(T::product(d.im, w.re), T::product(d.re, w.im)),
    }
}

/// The gradient of a twiddle: the gradient of the turned number times the conjugate of what it turns.
pub open spec fn twiddle_gradient<T: Scalar>(d: Complex<T>, a: Complex<T>) -> Complex<T> {
    Complex {
        re: T::sum(T::product(d.re, a.re), T::product(d.im, a.im)),
        im: T::difference(T::product(d.im, a.re), T::product(d.re, a.im)),
    }
}

/// The gradient of what a butterfly adds and subtracts: that at its upper place less that at its
/// lower one.
pub open spec fn turned_gradient<T: Scalar>(grad: Seq<T>, b: int, stride: int) -> Complex<T> {
    let up = upper_place(b, stride);
    Complex {
        re: T::difference(complex_at(grad, up).re, complex_at(grad, up + stride).re),
        im: T::difference(complex_at(grad, up).im, complex_at(grad, up + stride).im),
    }
}

/// The gradient that a stage passes to a place of its input.
pub open spec fn input_gradient<T: Scalar>(
    grad: Seq<T>,
    twiddles: Seq<T>,
    n_fft: int,
    stage: nat,
    c: int,
) -> Complex<T> {
    let stride = pow2(stage) as int;
    let b = butterfly_of(c, stride);
    let up = upper_place(b, stride);
    if c % (2 * stride) < stride {
        Complex {
            re: T::sum(
                T::nought(),
                T::sum(complex_at(grad, up).re, complex_at(grad, up + stride).re),
            ),
            im: T::sum(
                T::nought(),
                T::sum(complex_at(grad, up).im, complex_at(grad, up + stride).im),
            ),
        }
    } else {
        let d = factor_gradient(
            turned_gradient(grad, b, stride),
            complex_at(twiddles, twiddle_place(stage as int, b, n_fft / 2)),
        );
        Complex { re: T::sum(T::nought(), d.re), im: T::sum(T::nought(), d.im) }
    }
}

/// The gradient that a stage passes to its input.
pub open spec fn stage_gradient<T: Scalar>(
    grad: Seq<T>,
    twiddles: Seq<T>,
    n_fft: int,
    stage: nat,
) -> Seq<T> {
    Seq::new(
        (2 * n_fft) as nat,
        |i: int|
            {
                let v = input_gradient(grad, twiddles, n_fft, stage, i / 2);
                if i % 2 == 0 {
                    v.re
                } else {
                    v.im
                }
            },
    )
}

/// The gradients of the twiddles with those of a stage added.
pub open spec fn twiddle_gradients<T: Scalar>(
    sums: Seq<T>,
    grad: Seq<T>,
    input: Seq<T>,
    n_fft: int,
    stage: nat,
) -> Seq<T> {
    let half = n_fft / 2;
    let stride = pow2(stage) as int;
    Seq::new(
        sums.len(),
        |i: int|
            {
                let b = i / 2 - stage * half;
                if 0 <= b < half {
                    let d = twiddle_gradient(
                        turned_gradient(grad, b, stride),
                        complex_at(input, upper_place(b, stride) + stride),
                    );
                    T::sum(
                        sums[i],
                        if i % 2 == 0 {
                            d.re
                        } else {
                            d.im
                        },
                    )
                } else {
                    sums[i]
                }
            },
    )
}

/// The gradients that the first `k` stages leave, last stage first: that of the input, and the
/// sums of those of the twiddles.
pub open spec fn backward<T: Scalar>(
    grad: Seq<T>,
    sums: Seq<T>,
    inputs: Seq<Seq<T>>,
    twiddles: Seq<T>,
    n_fft: int,
    k: nat,
) -> (Seq<T>, Seq<T>)
    decreases k,
{
    if k == 0 {
        (grad, sums)
    } else {
        let stage = (k - 1) as nat;
        backward(
            stage_gradient(grad, twiddles, n_fft, stage),
            twiddle_gradients(sums, grad, inputs[stage as int], n_fft, stage),
            inputs,
            twiddles,
            n_fft,
            stage,
        )
    }
}

/// The spec of a partly added stage of twiddle gradients: only the first butterflies.
spec fn partly_added<T: Scalar>(
    sums: Seq<T>,
    grad: Seq<T>,
    input: Seq<T>,
    n_fft: int,
    stage: nat,
    done: int,
) -> Seq<T> {
    let half = n_fft / 2;
    Seq::new(
        sums.len(),
        |i: int|
            if i / 2 - stage * half < done {
                twiddle_gradients(sums, grad, input, n_fft, stage)[i]
            } else {
                sums[i]
            },
    )
}

/// One stage of the gradients.
fn backward_stage<T: Scalar>(
    grad: &Vec<T>,
    input: &Vec<T>,
    twiddles: &Vec<T>,
    n_fft: usize,
    stage: usize,
    sums: &mut Vec<T>,
) -> (r: Vec<T>)
    requires
        0 < n_fft,
        grad.len() == 2 * n_fft,
        input.len() == 2 * n_fft,
        stage < stages_of(n_fft),
        twiddles.len() >= twiddles_needed(n_fft),
        old(sums).len() >= twiddles_needed(n_fft),
    ensures
        r@ == stage_gradient(grad@, twiddles@, n_fft as int, stage as nat),
        final(sums)@ == twiddle_gradients(
            old(sums)@,
            grad@,
            input@,
            n_fft as int,
            stage as nat,
        ),
{
    let len: usize = grad.len();
    let tw_len: usize = twiddles.len();
    let sum_len: usize = sums.len();
    let half: usize = n_fft / 2;
    let ghost given = sums@;
    proof {
        lemma_stride(n_fft, stage as nat);
        lemma_stage_bound(n_fft);
        assert(0 <= stage * half) by (nonlinear_arith)
            requires
                stage >= 0,
                half >= 0,
        ;
    }
    let stride: usize = power(stage, n_fft);
    let mut next: Vec<T> = zeros(len);
    let mut b: usize = 0;
    proof {
        assert(sums@ =~= partly_added(given, grad@, input@, n_fft as int, stage as nat, 0));
    }
    while b < half
        invariant
            b <= half,
            0 < n_fft,
            half == n_fft / 2,
            n_fft % 2 == 0,
            len == 2 * n_fft,
            grad.len() == len,
            input.len() == len,
            next.len() == len,
            stride == pow2(stage as nat),
            stride > 0,
            2 * stride <= n_fft,
            half % stride == 0,
            stage < stages_of(n_fft),
            tw_len == twiddles.len(),
            tw_len >= twiddles_needed(n_fft),
            sum_len == sums.len(),
            sum_len >= twiddles_needed(n_fft),
            given.len() == sum_len,
            sums@ == partly_added(given, grad@, input@, n_fft as int, stage as nat, b as int),
            forall|c: int|
                0 <= c < n_fft && butterfly_of(c, stride as int) < b ==> complex_at(next@, c)
                    == #[trigger] input_gradient(
                    grad@,
                    twiddles@,
                    n_fft as int,
                    stage as nat,
                    c,
                ),
            forall|c: int|
                0 <= c < n_fft && butterfly_of(c, stride as int) >= b ==> (#[trigger] complex_at(
                    next@,
                    c,
                )) == (Complex { re: T::nought(), im: T::nought() }),
        decreases half - b,
    {
        proof {
            lemma_places(b as int, stride as int, half as int);
            lemma_twiddle_fits(stage as int, b as int, half as int, stages_of(n_fft) as int);
        }
        let group: usize = b / stride;
        let k: usize = b % stride;
        let ghost up = upper_place(b as int, stride as int);
        proof {
            assert(group * 2 * stride == group * (2 * stride)) by (nonlinear_arith);
            assert(group * 2 <= group * 2 * stride) by (nonlinear_arith)
                requires
                    group >= 0,
                    stride >= 1,
            ;
            assert(stage * half <= stage * half + b);
            assert(0 <= stage * half) by (nonlinear_arith)
                requires
                    stage >= 0,
                    half >= 0,
            ;
        }
        let i0: usize = (group * 2 * stride + k) * 2;
        let i1: usize = i0 + stride * 2;
        let w: usize = (stage * half + b) * 2;
        let w_re = twiddles[w];
        let w_im = twiddles[w + 1];
        let d_re = grad[i0].minus(grad[i1]);
        let d_im = grad[i0 + 1].minus(grad[i1 + 1]);
        let ghost before = next@;
        let ghost sums_before = sums@;
        proof {
            assert(i0 == 2 * up);
            assert(i1 == 2 * (up + stride));
            assert(w == 2 * twiddle_place(stage as int, b as int, half as int));
            assert(complex_at(before, up) == (Complex { re: T::nought(), im: T::nought() }));
            assert(complex_at(before, up + stride) == (Complex {
                re: T::nought(),
                im: T::nought(),
            }));
        }
        let a_re = next[i0].plus(grad[i0].plus(grad[i1]));
        let a_im = next[i0 + 1].plus(grad[i0 + 1].plus(grad[i1 + 1]));
        let b_re = next[i1].plus(d_re.times(w_re).plus(d_im.times(w_im)));
        let b_im = next[i1 + 1].plus(d_im.times(w_re).minus(d_re.times(w_im)));
        next.set(i0, a_re);
        next.set(i0 + 1, a_im);
        next.set(i1, b_re);
        next.set(i1 + 1, b_im);
        let g_re = d_re.times(input[i1]).plus(d_im.times(input[i1 + 1]));
        let g_im = d_im.times(input[i1]).minus(d_re.times(input[i1 + 1]));
        let s_re = sums[w].plus(g_re);
        let s_im = sums[w + 1].plus(g_im);
        sums.set(w, s_re);
        sums.set(w + 1, s_im);
        proof {
            assert forall|c: int| 0 <= c < n_fft && butterfly_of(c, stride as int) < b + 1 implies complex_at(
                next@,
                c,
            ) == #[trigger] input_gradient(
                grad@,
                twiddles@,
                n_fft as int,
                stage as nat,
                c,
            ) by {
                lemma_place_of(c, stride as int, half as int);
                if butterfly_of(c, stride as int) == b {
                    assert(c == up || c == up + stride);
                } else {
                    assert(c != up && c != up + stride);
                    assert(complex_at(next@, c) == complex_at(before, c));
                }
            }
            assert forall|c: int| 0 <= c < n_fft && butterfly_of(c, stride as int) >= b + 1 implies (
            #[trigger] complex_at(next@, c)) == (Complex {
                re: T::nought(),
                im: T::nought(),
            }) by {
                lemma_place_of(c, stride as int, half as int);
                assert(c != up && c != up + stride);
                assert(complex_at(next@, c) == complex_at(before, c));
            }
            let target = partly_added(
                given,
                grad@,
                input@,
                n_fft as int,
                stage as nat,
                b + 1,
            );
            assert forall|i: int| 0 <= i < given.len() implies sums@[i] == target[i] by {
                let at = i / 2 - stage * half;
                assert(i == 2 * (i / 2) + i % 2);
                if at == b {
                    assert(i == w || i == w + 1);
                    assert(sums_before[i] == given[i]);
                } else {
                    assert(i != w && i != w + 1);
                    assert(sums@[i] == sums_before[i]);
                }
            }
            assert(sums@ =~= target);
        }
        b += 1;
    }
    proof {
        let g = stage_gradient(grad@, twiddles@, n_fft as int, stage as nat);
        assert forall|i: int| 0 <= i < g.len() implies next@[i] == g[i] by {
            let c = i / 2;
            lemma_place_of(c, stride as int, half as int);
            assert(complex_at(next@, c) == input_gradient(
                grad@,
                twiddles@,
                n_fft as int,
                stage as nat,
                c,
            ));
            assert(i == 2 * c + i % 2);
        }
        assert(next@ =~= g);
        assert(sums@ =~= twiddle_gradients(given, grad@, input@, n_fft as int, stage as nat));
    }
    next
}

/// The gradient that a transform starts its way back from.
pub open spec fn gradient_start<T: Scalar>(grad: Seq<T>, n_fft: int, conj_output: bool) -> Seq<T> {
    if conj_output {
        conjugated(grad, n_fft)
    } else {
        grad
    }
}

/// Goes back through a traced transform: adds the gradients of the twiddles to `tw_grad` and returns
/// that of the buffer that the stages started from.
pub fn backward_butterfly_twiddles<T: Scalar>(
    grad: Vec<T>,
    trace: &ButterflyTrace<T>,
    twiddles: &Vec<T>,
    n_fft: usize,
    tw_grad: &mut Vec<T>,
    conj_output: bool,
) -> (r: Vec<T>)
    requires
        0 < n_fft,
        2 * n_fft <= usize::MAX,
        grad.len() == 2 * n_fft,
        trace.fits(n_fft),
        twiddles.len() >= twiddles_needed(n_fft),
        old(tw_grad).len() >= twiddles_needed(n_fft),
    ensures
        (r@, final(tw_grad)@) == backward(
            gradient_start(grad@, n_fft as int, conj_output),
            old(tw_grad)@,
            buffers(trace.stage_inputs@),
            twiddles@,
            n_fft as int,
            stages_of(n_fft),
        ),
{
    let ghost given = tw_grad@;
    let ghost inputs = buffers(trace.stage_inputs@);
    let ghost first = gradient_start(grad@, n_fft as int, conj_output);
    let mut g = grad;
    if conj_output {
        apply_conj(&mut g, n_fft);
    }
    let mut s: usize = trace.stage_inputs.len();
    while s > 0
        invariant
            s <= stages_of(n_fft),
            0 < n_fft,
            g.len() == 2 * n_fft,
            trace.fits(n_fft),
            inputs == buffers(trace.stage_inputs@),
            twiddles.len() >= twiddles_needed(n_fft),
            tw_grad.len() >= twiddles_needed(n_fft),
            backward(first, given, inputs, twiddles@, n_fft as int, stages_of(n_fft)) == backward(
                g@,
                tw_grad@,
                inputs,
                twiddles@,
                n_fft as int,
                s as nat,
            ),
        decreases s,
    {
        s -= 1;
        assert(inputs[s as int] == trace.stage_inputs@[s as int]@);
        g = backward_stage(&g, &trace.stage_inputs[s], twiddles, n_fft, s, tw_grad);
    }
    g
}

// ---------------------------------------------------------------------------
// Update steps
// ---------------------------------------------------------------------------

/// A loss with the squares of some differences added: of the first `k` numbers of a buffer and those
/// of a target from `from` on.
pub open spec fn squared_error<T: Scalar>(
    loss: T,
    buf: Seq<T>,
    target: Seq<T>,
    from: int,
    k: nat,
) -> T
    decreases k,
{
    if k == 0 {
        loss
    } else {
        let d = T::difference(buf[k - 1], target[from + k - 1]);
        T::sum(squared_error(loss, buf, target, from, (k - 1) as nat), T::product(d, d))
    }
}

/// The gradient of the mean of squared differences.
pub open spec fn error_gradient<T: Divisible>(
    buf: Seq<T>,
    target: Seq<T>,
    from: int,
    norm: T,
) -> Seq<T> {
    Seq::new(
        buf.len(),
        |i: int|
            T::quotient(
                T::product(T::counted(2), T::difference(buf[i], target[from + i])),
                norm,
            ),
    )
}

/// Numbers after a step down their gradients; those without a gradient stay.
pub open spec fn descended<T: Scalar>(v: Seq<T>, grad: Seq<T>, lr: T) -> Seq<T> {
    Seq::new(
        v.len(),
        |i: int|
            if i < grad.len() {
                T::difference(v[i], T::product(lr, grad[i]))
            } else {
                v[i]
            },
    )
}

pub(crate) fn add_squares<T: Scalar>(loss: T, buf: &Vec<T>, target: &Vec<T>, from: usize) -> (r: T)
    requires
        from + buf.len() <= target.len(),
    ensures
        r == squared_error(loss, buf@, target@, from as int, buf@.len()),
{
    let mut sum = loss;
    let size: usize = target.len();
    let mut i: usize = 0;
    while i < buf.len()
        invariant
            i <= buf.len(),
            size == target.len(),
            from + buf.len() <= size,
            sum == squared_error(loss, buf@, target@, from as int, i as nat),
        decreases buf.len() - i,
    {
        let d = buf[i].minus(target[from + i]);
        sum = sum.plus(d.times(d));
        i += 1;
    }
    sum
}

pub(crate) fn make_error_gradient<T: Divisible>(buf: &Vec<T>, target: &Vec<T>, from: usize, norm: T) -> (r: Vec<
    T,
>)
    requires
        from + buf.len() <= target.len(),
    ensures
        r@ == error_gradient(buf@, target@, from as int, norm),
{
    let mut out: Vec<T> = Vec::new();
    let size: usize = target.len();
    let two = T::count(2);
    let mut i: usize = 0;
    while i < buf.len()
        invariant
            i <= buf.len(),
            size == target.len(),
            from + buf.len() <= size,
            two == T::counted(2),
            out.len() == i,
            forall|k: int|
                0 <= k < i ==> (#[trigger] out@[k]) == error_gradient(
                    buf@,
                    target@,
                    from as int,
                    norm,
                )[k],
        decreases buf.len() - i,
    {
        out.push(two.times(buf[i].minus(target[from + i])).over(norm));
        i += 1;
    }
    assert(out@ =~= error_gradient(buf@, target@, from as int, norm));
    out
}

/// Takes a step down the gradients.
pub fn descend<T: Scalar>(v: &mut Vec<T>, grad: &Vec<T>, lr: T)
    ensures
        final(v)@ == descended(old(v)@, grad@, lr),
{
    let ghost given = v@;
    let mut i: usize = 0;
    assert(v@ =~= descended(given, grad@.take(0), lr));
    while i < v.len() && i < grad.len()
        invariant
            i <= v.len(),
            i <= grad.len(),
            v@ == descended(given, grad@.take(i as int), lr),
        decreases v.len() - i,
    {
        let x = v[i].minus(lr.times(grad[i]));
        v.set(i, x);
        assert(v@ =~= descended(given, grad@.take(i + 1), lr));
        i += 1;
    }
    assert(v@ =~= descended(given, grad@, lr));
}

/// What training on rows accumulates: the loss and the gradients of the twiddles.
pub struct Progress<T> {
    pub loss: T,
    pub grads: Seq<T>,
}

/// The result of a row, its loss and its gradients added to what came before.
pub open spec fn row_progress<T: Divisible>(
    before: Progress<T>,
    input: Seq<T>,
    targets: Seq<T>,
    from: int,
    twiddles: Seq<T>,
    n_fft: usize,
    norm: T,
    conj_output: bool,
) -> Progress<T> {
    let start = permuted(input, n_fft);
    let n = n_fft as int;
    let out = gradient_start(
        after_stages(start, twiddles, n, stages_of(n_fft)),
        n,
        conj_output,
    );
    let grad = gradient_start(error_gradient(out, targets, from, norm), n, conj_output);
    Progress {
        loss: squared_error(before.loss, out, targets, from, out.len()),
        grads: backward(
            grad,
            before.grads,
            stage_buffers(start, twiddles, n_fft),
            twiddles,
            n,
            stages_of(n_fft),
        ).1,
    }
}

/// The loss and the gradients of the first `k` rows of some inputs.
pub open spec fn rows_progress<T: Divisible>(
    inputs: spec_fn(int) -> Seq<T>,
    targets: Seq<T>,
    twiddles: Seq<T>,
    n_fft: usize,
    norm: T,
    conj_output: bool,
    k: nat,
) -> Progress<T>
    decreases k,
{
    if k == 0 {
        Progress {
            loss: T::nought(),
            grads: Seq::new(twiddles_needed(n_fft), |i: int| T::nought()),
        }
    } else {
        row_progress(
            rows_progress(inputs, targets, twiddles, n_fft, norm, conj_output, (k - 1) as nat),
            inputs(k - 1),
            targets,
            (k - 1) * (2 * n_fft),
            twiddles,
            n_fft,
            norm,
            conj_output,
        )
    }
}

/// The rows of a real signal.
pub open spec fn signal_rows<T: Scalar>(signal: Seq<T>, n_fft: int) -> spec_fn(int) -> Seq<T> {
    |b: int| as_complex(signal, b * n_fft, n_fft)
}

/// The rows of a spectrum, conjugated.
pub open spec fn spectrum_rows<T: Scalar>(spectrum: Seq<T>, n_fft: int) -> spec_fn(int) -> Seq<T> {
    |b: int|
        conjugated(spectrum.subrange(b * (2 * n_fft), (b + 1) * (2 * n_fft)), n_fft)
}

/// Whether the lengths of a training step can be counted.
pub open spec fn countable_step(batch: usize, n_fft: usize) -> bool {
    0 < n_fft && batch * n_fft * 2 <= usize::MAX && 2 * n_fft <= usize::MAX && twiddles_needed(
        n_fft,
    ) <= usize::MAX
}

/// One row of a training step.
fn train_row<T: Divisible>(
    input: Vec<T>,
    targets: &Vec<T>,
    from: usize,
    twiddles: &Vec<T>,
    n_fft: usize,
    norm: T,
    conj_output: bool,
    loss: T,
    grads: &mut Vec<T>,
) -> (r: T)
    requires
        0 < n_fft,
        2 * n_fft <= usize::MAX,
        input.len() == 2 * n_fft,
        from + 2 * n_fft <= targets.len(),
        twiddles.len() >= twiddles_needed(n_fft),
        old(grads).len() == twiddles_needed(n_fft),
    ensures
        final(grads).len() == twiddles_needed(n_fft),
        (Progress { loss: r, grads: final(grads)@ }) == row_progress(
            Progress { loss, grads: old(grads)@ },
            input@,
            targets@,
            from as int,
            twiddles@,
            n_fft,
            norm,
            conj_output,
        ),
{
    let ghost n = n_fft as int;
    let ghost start = permuted(input@, n_fft);
    let ghost given = grads@;
    match forward_butterfly_traced(input, twiddles, n_fft, true) {
        Err(_) => loss,
        Ok(trace) => {
            let mut buf = copy_buffer(&trace.output);
            if conj_output {
                apply_conj(&mut buf, n_fft);
            }
            let sum = add_squares(loss, &buf, targets, from);
            let mut grad = make_error_gradient(&buf, targets, from, norm);
            if conj_output {
                apply_conj(&mut grad, n_fft);
            }
            proof {
                lemma_backward_len(
                    grad@,
                    given,
                    buffers(trace.stage_inputs@),
                    twiddles@,
                    n,
                    stages_of(n_fft),
                );
            }
            let _rest = backward_butterfly_twiddles(grad, &trace, twiddles, n_fft, grads, false);
            sum
        },
    }
}

pub(crate) proof fn lemma_backward_len<T: Scalar>(
    grad: Seq<T>,
    sums: Seq<T>,
    inputs: Seq<Seq<T>>,
    twiddles: Seq<T>,
    n_fft: int,
    k: nat,
)
    ensures
        backward(grad, sums, inputs, twiddles, n_fft, k).1.len() == sums.len(),
        grad.len() == 2 * n_fft ==> backward(grad, sums, inputs, twiddles, n_fft, k).0.len() == 2
            * n_fft,
    decreases k,
{
    if k > 0 {
        let stage = (k - 1) as nat;
        lemma_backward_len(
            stage_gradient(grad, twiddles, n_fft, stage),
            twiddle_gradients(sums, grad, inputs[stage as int], n_fft, stage),
            inputs,
            twiddles,
            n_fft,
            stage,
        );
    }
}

proof fn lemma_row_bounds(b: int, batch: int, n_fft: int)
    requires
        0 <= b < batch,
        n_fft >= 0,
    ensures
        0 <= b * n_fft,
        b * n_fft + n_fft <= batch * n_fft,
        b * (2 * n_fft) == b * n_fft * 2,
        (b + 1) * (2 * n_fft) == b * (2 * n_fft) + 2 * n_fft,
        b * (2 * n_fft) + 2 * n_fft <= batch * n_fft * 2,
{
    assert(0 <= b * n_fft) by (nonlinear_arith)
        requires
            0 <= b,
            n_fft >= 0,
    ;
    assert(b * n_fft + n_fft <= batch * n_fft) by (nonlinear_arith)
        requires
            b + 1 <= batch,
            n_fft >= 0,
    ;
    assert(b * (2 * n_fft) == b * n_fft * 2) by (nonlinear_arith);
    assert((b + 1) * (2 * n_fft) == b * (2 * n_fft) + 2 * n_fft) by (nonlinear_arith);
}

/// A row of real numbers as interleaved complex numbers.
pub fn complex_row<T: Scalar>(signal: &Vec<T>, start: usize, n_fft: usize) -> (r: Vec<T>)
    requires
        start + n_fft <= signal.len(),
        2 * n_fft <= usize::MAX,
    ensures
        r@ == as_complex(signal@, start as int, n_fft as int),
{
    let size: usize = signal.len();
    let mut out: Vec<T> = Vec::new();
    let mut i: usize = 0;
    while i < n_fft
        invariant
            i <= n_fft,
            size == signal.len(),
            start + n_fft <= size,
            out.len() == 2 * i,
            forall|k: int|
                0 <= k < 2 * i ==> (#[trigger] out@[k]) == as_complex(
                    signal@,
                    start as int,
                    n_fft as int,
                )[k],
        decreases n_fft - i,
    {
        out.push(signal[start + i]);
        out.push(T::zero());
        i += 1;
    }
    assert(out@ =~= as_complex(signal@, start as int, n_fft as int));
    out
}

/// A part of a buffer.
pub fn part_of<T: Copy>(v: &Vec<T>, from: usize, to: usize) -> (r: Vec<T>)
    requires
        from <= to <= v.len(),
    ensures
        r@ == v@.subrange(from as int, to as int),
{
    let mut out: Vec<T> = Vec::new();
    let mut i: usize = from;
    while i < to
        invariant
            from <= i <= to,
            to <= v.len(),
            out@ == v@.subrange(from as int, i as int),
        decreases to - i,
    {
        out.push(v[i]);
        assert(out@ =~= v@.subrange(from as int, i + 1));
        i += 1;
    }
    out
}

/// One step of training a forward transform on real rows, against their target spectra. Returns the
/// mean loss of a row.
pub fn butterfly_train_step<T: Divisible>(
    signal: &Vec<T>,
    targets: &Vec<T>,
    twiddles: &mut Vec<T>,
    batch: usize,
    n_fft: usize,
    lr: T,
) -> (r: T)
    requires
        countable_step(batch, n_fft),
        signal.len() >= batch * n_fft,
        targets.len() >= batch * n_fft * 2,
        old(twiddles).len() >= twiddles_needed(n_fft),
    ensures
        ({
            let p = rows_progress(
                signal_rows(signal@, n_fft as int),
                targets@,
                old(twiddles)@,
                n_fft,
                T::counted((batch * n_fft * 2) as usize),
                false,
                batch as nat,
            );
            &&& final(twiddles)@ == descended(old(twiddles)@, p.grads, lr)
            &&& r == T::quotient(p.loss, T::counted(batch))
        }),
{
    let half: usize = n_fft / 2;
    let stages: usize = num_stages(n_fft);
    proof {
        assert(stages * half <= stages * half * 2) by (nonlinear_arith)
            requires
                stages >= 0,
                half >= 0,
        ;
        assert(batch * n_fft <= batch * n_fft * 2) by (nonlinear_arith)
            requires
                batch >= 0,
                n_fft >= 0,
        ;
    }
    let norm = T::count(batch * n_fft * 2);
    let ghost rows = signal_rows(signal@, n_fft as int);
    let ghost tw = twiddles@;
    let mut grads: Vec<T> = zeros(stages * half * 2);
    let mut loss = T::zero();
    let mut b: usize = 0;
    while b < batch
        invariant
            b <= batch,
            countable_step(batch, n_fft),
            signal.len() >= batch * n_fft,
            targets.len() >= batch * n_fft * 2,
            twiddles.len() >= twiddles_needed(n_fft),
            twiddles@ == tw,
            rows == signal_rows(signal@, n_fft as int),
            norm == T::counted((batch * n_fft * 2) as usize),
            grads.len() == twiddles_needed(n_fft),
            (Progress { loss, grads: grads@ }) == rows_progress(
                rows,
                targets@,
                tw,
                n_fft,
                norm,
                false,
                b as nat,
            ),
        decreases batch - b,
    {
        proof {
            lemma_row_bounds(b as int, batch as int, n_fft as int);
        }
        let input = complex_row(signal, b * n_fft, n_fft);
        loss = train_row(
            input,
            targets,
            b * n_fft * 2,
            twiddles,
            n_fft,
            norm,
            false,
            loss,
            &mut grads,
        );
        b += 1;
    }
    descend(twiddles, &grads, lr);
    loss.over(T::count(batch))
}

/// One step of training an inverse transform on complex rows, against their target signals. Returns
/// the mean loss of a row.
pub fn butterfly_train_step_inverse<T: Divisible>(
    spectrum: &Vec<T>,
    targets: &Vec<T>,
    twiddles: &mut Vec<T>,
    batch: usize,
    n_fft: usize,
    lr: T,
) -> (r: Result<T, ButterflyError>)
    requires
        countable_step(batch, n_fft),
        targets.len() >= batch * n_fft * 2,
        old(twiddles).len() >= twiddles_needed(n_fft),
    ensures
        if spectrum@.len() != batch * n_fft * 2 {
            final(twiddles)@ == old(twiddles)@ && r == Err::<T, ButterflyError>(
                ButterflyError::InputLength {
                    found: spectrum@.len() as usize,
                    expected: (batch * n_fft * 2) as usize,
                },
            )
        } else {
            let p = rows_progress(
                spectrum_rows(spectrum@, n_fft as int),
                targets@,
                old(twiddles)@,
                n_fft,
                T::counted((batch * n_fft * 2) as usize),
                true,
                batch as nat,
            );
            &&& final(twiddles)@ == descended(old(twiddles)@, p.grads, lr)
            &&& r == Ok::<T, ButterflyError>(T::quotient(p.loss, T::counted(batch)))
        },
{
    let half: usize = n_fft / 2;
    let stages: usize = num_stages(n_fft);
    proof {
        assert(stages * half <= stages * half * 2) by (nonlinear_arith)
            requires
                stages >= 0,
                half >= 0,
        ;
        assert(batch * n_fft <= batch * n_fft * 2) by (nonlinear_arith)
            requires
                batch >= 0,
                n_fft >= 0,
        ;
    }
    let expected: usize = batch * n_fft * 2;
    if spectrum.len() != expected {
        return Err(ButterflyError::InputLength { found: spectrum.len(), expected });
    }
    let norm = T::count(expected);
    let ghost rows = spectrum_rows(spectrum@, n_fft as int);
    let ghost tw = twiddles@;
    let mut grads: Vec<T> = zeros(stages * half * 2);
    let mut loss = T::zero();
    let mut b: usize = 0;
    while b < batch
        invariant
            b <= batch,
            countable_step(batch, n_fft),
            spectrum.len() == batch * n_fft * 2,
            targets.len() >= batch * n_fft * 2,
            twiddles.len() >= twiddles_needed(n_fft),
            twiddles@ == tw,
            rows == spectrum_rows(spectrum@, n_fft as int),
            norm == T::counted((batch * n_fft * 2) as usize),
            grads.len() == twiddles_needed(n_fft),
            (Progress { loss, grads: grads@ }) == rows_progress(
                rows,
                targets@,
                tw,
                n_fft,
                norm,
                true,
                b as nat,
            ),
        decreases batch - b,
    {
        proof {
            lemma_row_bounds(b as int, batch as int, n_fft as int);
        }
        let from: usize = b * n_fft * 2;
        let mut input = part_of(spectrum, from, from + n_fft * 2);
        apply_conj(&mut input, n_fft);
        loss = train_row(input, targets, from, twiddles, n_fft, norm, true, loss, &mut grads);
        b += 1;
    }
    descend(twiddles, &grads, lr);
    Ok(loss.over(T::count(batch)))
}

/// One step of training a transform in a direction. The rows of a forward transform are real, those
/// of an inverse one complex.
pub fn butterfly_train_step_dir<T: Divisible>(
    rows: &Vec<T>,
    targets: &Vec<T>,
    twiddles: &mut Vec<T>,
    batch: usize,
    n_fft: usize,
    lr: T,
    dir: TransformDir,
) -> (r: Result<T, ButterflyError>)
    requires
        countable_step(batch, n_fft),
        dir is Forward ==> rows.len() >= batch * n_fft,
        targets.len() >= batch * n_fft * 2,
        old(twiddles).len() >= twiddles_needed(n_fft),
    ensures
        if dir is Inverse && rows@.len() != batch * n_fft * 2 {
            final(twiddles)@ == old(twiddles)@ && r == Err::<T, ButterflyError>(
                ButterflyError::InputLength {
                    found: rows@.len() as usize,
                    expected: (batch * n_fft * 2) as usize,
                },
            )
        } else {
            let inputs = if dir is Forward {
                signal_rows(rows@, n_fft as int)
            } else {
                spectrum_rows(rows@, n_fft as int)
            };
            let p = rows_progress(
                inputs,
                targets@,
                old(twiddles)@,
                n_fft,
                T::counted((batch * n_fft * 2) as usize),
                dir is Inverse,
                batch as nat,
            );
            &&& final(twiddles)@ == descended(old(twiddles)@, p.grads, lr)
            &&& r == Ok::<T, ButterflyError>(T::quotient(p.loss, T::counted(batch)))
        },
{
    match dir {
        TransformDir::Forward => Ok(
            butterfly_train_step(rows, targets, twiddles, batch, n_fft, lr),
        ),
        TransformDir::Inverse => butterfly_train_step_inverse(
            rows,
            targets,
            twiddles,
            batch,
            n_fft,
            lr,
        ),
    }
}

// ---------------------------------------------------------------------------
// Encoder and decoder
// ---------------------------------------------------------------------------

/// What training an encoder and a decoder accumulates: the losses of the reconstruction and of the
/// spectrum, and the gradients of both sets of twiddles.
pub struct EncDecProgress<T> {
    pub reconstruction: T,
    pub spectrum: T,
    pub encoder: Seq<T>,
    pub decoder: Seq<T>,
}

/// The losses of a step, each a mean over numbers.
#[derive(Debug, Clone, Copy)]
pub struct EncDecStepLoss<T> {
    pub reconstruction: T,
    pub spectrum: T,
}

/// How far a recovered real number is from the signal, which the round trip scales.
pub open spec fn recovery_error<T: Scalar>(
    recovered: Seq<T>,
    signal: Seq<T>,
    from: int,
    scale: T,
    i: int,
) -> T {
    T::difference(recovered[2 * i], T::product(signal[from + i], scale))
}

/// A reconstruction loss with that of the first `k` numbers of a row added.
pub open spec fn recovery_loss<T: Scalar>(
    loss: T,
    recovered: Seq<T>,
    signal: Seq<T>,
    from: int,
    scale: T,
    k: nat,
) -> T
    decreases k,
{
    if k == 0 {
        loss
    } else {
        let i = k - 1;
        let re = recovery_error(recovered, signal, from, scale, i);
        let im = recovered[2 * i + 1];
        T::sum(
            recovery_loss(loss, recovered, signal, from, scale, (k - 1) as nat),
            T::sum(T::product(re, re), T::product(im, im)),
        )
    }
}

/// The gradient of the reconstruction.
pub open spec fn recovery_gradient<T: Divisible>(
    recovered: Seq<T>,
    signal: Seq<T>,
    from: int,
    scale: T,
    norm: T,
) -> Seq<T> {
    Seq::new(
        recovered.len(),
        |i: int|
            T::quotient(
                T::product(
                    T::counted(2),
                    if i % 2 == 0 {
                        recovery_error(recovered, signal, from, scale, i / 2)
                    } else {
                        recovered[i]
                    },
                ),
                norm,
            ),
    )
}

/// A gradient of the spectrum with that of its own loss added.
pub open spec fn with_spectrum_gradient<T: Divisible>(
    grad: Seq<T>,
    spectrum: Seq<T>,
    reference: Seq<T>,
    from: int,
    weight: T,
    norm: T,
) -> Seq<T> {
    Seq::new(
        grad.len(),
        |i: int|
            T::sum(
                grad[i],
                T::quotient(
                    T::product(
                        T::product(T::counted(2), weight),
                        T::difference(spectrum[i], reference[from + i]),
                    ),
                    norm,
                ),
            ),
    )
}

/// The losses and gradients of a row, added to what came before. The loss of the spectrum counts
/// where it has a weight.
pub open spec fn encdec_row<T: Divisible>(
    before: EncDecProgress<T>,
    signal: Seq<T>,
    reference: Seq<T>,
    b: int,
    encoder: Seq<T>,
    decoder: Seq<T>,
    n_fft: usize,
    weight: Option<T>,
    scale: T,
    norm: T,
) -> EncDecProgress<T> {
    let n = n_fft as int;
    let stages = stages_of(n_fft);
    let enc_start = permuted(as_complex(signal, b * n, n), n_fft);
    let spectrum = after_stages(enc_start, encoder, n, stages);
    let dec_start = permuted(conjugated(spectrum, n), n_fft);
    let recovered = conjugated(after_stages(dec_start, decoder, n, stages), n);
    let back = backward(
        conjugated(recovery_gradient(recovered, signal, b * n, scale, norm), n),
        before.decoder,
        stage_buffers(dec_start, decoder, n_fft),
        decoder,
        n,
        stages,
    );
    let grad = match weight {
        Some(w) => with_spectrum_gradient(
            conjugated(back.0, n),
            spectrum,
            reference,
            b * (2 * n),
            w,
            norm,
        ),
        None => conjugated(back.0, n),
    };
    EncDecProgress {
        reconstruction: recovery_loss(
            before.reconstruction,
            recovered,
            signal,
            b * n,
            scale,
            n_fft as nat,
        ),
        spectrum: match weight {
            Some(w) => squared_error(
                before.spectrum,
                spectrum,
                reference,
                b * (2 * n),
                spectrum.len(),
            ),
            None => before.spectrum,
        },
        encoder: backward(
            grad,
            before.encoder,
            stage_buffers(enc_start, encoder, n_fft),
            encoder,
            n,
            stages,
        ).1,
        decoder: back.1,
    }
}

/// The losses and gradients of the first `k` rows.
pub open spec fn encdec_rows<T: Divisible>(
    signal: Seq<T>,
    reference: Seq<T>,
    encoder: Seq<T>,
    decoder: Seq<T>,
    n_fft: usize,
    weight: Option<T>,
    scale: T,
    norm: T,
    k: nat,
) -> EncDecProgress<T>
    decreases k,
{
    if k == 0 {
        let none = Seq::new(twiddles_needed(n_fft), |i: int| T::nought());
        EncDecProgress {
            reconstruction: T::nought(),
            spectrum: T::nought(),
            encoder: none,
            decoder: none,
        }
    } else {
        encdec_row(
            encdec_rows(
                signal,
                reference,
                encoder,
                decoder,
                n_fft,
                weight,
                scale,
                norm,
                (k - 1) as nat,
            ),
            signal,
            reference,
            k - 1,
            encoder,
            decoder,
            n_fft,
            weight,
            scale,
            norm,
        )
    }
}

/// The losses and gradients of a batch.
pub open spec fn encdec_batch<T: Divisible>(
    signal: Seq<T>,
    reference: Seq<T>,
    encoder: Seq<T>,
    decoder: Seq<T>,
    batch: usize,
    n_fft: usize,
    weight: Option<T>,
) -> EncDecProgress<T> {
    encdec_rows(
        signal,
        reference,
        encoder,
        decoder,
        n_fft,
        weight,
        T::counted(n_fft),
        T::counted((batch * n_fft * 2) as usize),
        batch as nat,
    )
}

/// The losses of a batch as means over its numbers.
pub open spec fn encdec_losses<T: Divisible>(
    p: EncDecProgress<T>,
    batch: usize,
    n_fft: usize,
    weight: Option<T>,
) -> EncDecStepLoss<T> {
    EncDecStepLoss {
        reconstruction: T::quotient(p.reconstruction, T::counted((batch * n_fft) as usize)),
        spectrum: match weight {
            Some(w) => T::quotient(p.spectrum, T::counted((batch * n_fft * 2) as usize)),
            None => T::nought(),
        },
    }
}

fn add_recovery<T: Divisible>(
    loss: T,
    recovered: &Vec<T>,
    signal: &Vec<T>,
    from: usize,
    scale: T,
    n_fft: usize,
) -> (r: T)
    requires
        recovered.len() == 2 * n_fft,
        from + n_fft <= signal.len(),
    ensures
        r == recovery_loss(loss, recovered@, signal@, from as int, scale, n_fft as nat),
{
    let size: usize = signal.len();
    let len: usize = recovered.len();
    let mut sum = loss;
    let mut i: usize = 0;
    while i < n_fft
        invariant
            i <= n_fft,
            len == recovered.len(),
            len == 2 * n_fft,
            size == signal.len(),
            from + n_fft <= size,
            sum == recovery_loss(loss, recovered@, signal@, from as int, scale, i as nat),
        decreases n_fft - i,
    {
        let re = recovered[i * 2].minus(signal[from + i].times(scale));
        let im = recovered[i * 2 + 1];
        sum = sum.plus(re.times(re).plus(im.times(im)));
        i += 1;
    }
    sum
}

fn make_recovery_gradient<T: Divisible>(
    recovered: &Vec<T>,
    signal: &Vec<T>,
    from: usize,
    scale: T,
    norm: T,
    n_fft: usize,
) -> (r: Vec<T>)
    requires
        recovered.len() == 2 * n_fft,
        from + n_fft <= signal.len(),
    ensures
        r@ == recovery_gradient(recovered@, signal@, from as int, scale, norm),
{
    let size: usize = signal.len();
    let len: usize = recovered.len();
    let two = T::count(2);
    let mut out: Vec<T> = Vec::new();
    let mut i: usize = 0;
    while i < n_fft
        invariant
            i <= n_fft,
            len == recovered.len(),
            len == 2 * n_fft,
            size == signal.len(),
            from + n_fft <= size,
            two == T::counted(2),
            out.len() == 2 * i,
            forall|k: int|
                0 <= k < 2 * i ==> (#[trigger] out@[k]) == recovery_gradient(
                    recovered@,
                    signal@,
                    from as int,
                    scale,
                    norm,
                )[k],
        decreases n_fft - i,
    {
        let re = recovered[i * 2].minus(signal[from + i].times(scale));
        out.push(two.times(re).over(norm));
        out.push(two.times(recovered[i * 2 + 1]).over(norm));
        proof {
            assert((2 * i + 1) / 2 == i);
            assert((2 * i) / 2 == i);
        }
        i += 1;
    }
    assert(out@ =~= recovery_gradient(recovered@, signal@, from as int, scale, norm));
    out
}

fn add_spectrum_gradient<T: Divisible>(
    grad: &mut Vec<T>,
    spectrum: &Vec<T>,
    reference: &Vec<T>,
    from: usize,
    weight: T,
    norm: T,
)
    requires
        old(grad).len() == spectrum.len(),
        from + spectrum.len() <= reference.len(),
    ensures
        final(grad)@ == with_spectrum_gradient(
            old(grad)@,
            spectrum@,
            reference@,
            from as int,
            weight,
            norm,
        ),
{
    let ghost given = grad@;
    let ghost target = with_spectrum_gradient(
        given,
        spectrum@,
        reference@,
        from as int,
        weight,
        norm,
    );
    let size: usize = reference.len();
    let len: usize = spectrum.len();
    let factor = T::count(2).times(weight);
    let mut i: usize = 0;
    while i < len
        invariant
            i <= len,
            len == spectrum.len(),
            grad.len() == len,
            given.len() == len,
            size == reference.len(),
            from + len <= size,
            factor == T::product(T::counted(2), weight),
            target == with_spectrum_gradient(
                given,
                spectrum@,
                reference@,
                from as int,
                weight,
                norm,
            ),
            forall|k: int| 0 <= k < i ==> (#[trigger] grad@[k]) == target[k],
            forall|k: int| i <= k < len ==> (#[trigger] grad@[k]) == given[k],
        decreases len - i,
    {
        let d = spectrum[i].minus(reference[from + i]);
        let x = grad[i].plus(factor.times(d).over(norm));
        grad.set(i, x);
        i += 1;
    }
    assert(grad@ =~= target);
}

/// The gradients and losses of an encoder and a decoder on a batch of real rows: the decoder is to
/// give the rows back, scaled, and the encoder's spectra are to be near the reference where
/// `weight` says so. The gradients are added to `enc_grad` and `dec_grad`, the sums of the squared
/// errors are returned.
fn encdec_gradients<T: Divisible>(
    signal: &Vec<T>,
    reference: &Vec<T>,
    encoder_tw: &Vec<T>,
    decoder_tw: &Vec<T>,
    batch: usize,
    n_fft: usize,
    weight: Option<T>,
    enc_grad: &mut Vec<T>,
    dec_grad: &mut Vec<T>,
) -> (r: EncDecStepLoss<T>)
    requires
        countable_step(batch, n_fft),
        signal.len() == batch * n_fft,
        reference.len() >= batch * n_fft * 2,
        encoder_tw.len() >= twiddles_needed(n_fft),
        decoder_tw.len() >= twiddles_needed(n_fft),
        old(enc_grad)@ == Seq::new(twiddles_needed(n_fft), |i: int| T::nought()),
        old(dec_grad)@ == Seq::new(twiddles_needed(n_fft), |i: int| T::nought()),
    ensures
        (EncDecProgress {
            reconstruction: r.reconstruction,
            spectrum: r.spectrum,
            encoder: final(enc_grad)@,
            decoder: final(dec_grad)@,
        }) == encdec_batch(
            signal@,
            reference@,
            encoder_tw@,
            decoder_tw@,
            batch,
            n_fft,
            weight,
        ),
{
    let scale = T::count(n_fft);
    let norm = T::count(batch * n_fft * 2);
    let mut reconstruction = T::zero();
    let mut spectrum_loss = T::zero();
    let ghost n = n_fft as int;
    let ghost stages = stages_of(n_fft);
    let mut b: usize = 0;
    while b < batch
        invariant
            b <= batch,
            n == n_fft,
            stages == stages_of(n_fft),
            countable_step(batch, n_fft),
            signal.len() == batch * n_fft,
            reference.len() >= batch * n_fft * 2,
            encoder_tw.len() >= twiddles_needed(n_fft),
            decoder_tw.len() >= twiddles_needed(n_fft),
            enc_grad.len() == twiddles_needed(n_fft),
            dec_grad.len() == twiddles_needed(n_fft),
            scale == T::counted(n_fft),
            norm == T::counted((batch * n_fft * 2) as usize),
            (EncDecProgress {
                reconstruction,
                spectrum: spectrum_loss,
                encoder: enc_grad@,
                decoder: dec_grad@,
            }) == encdec_rows(
                signal@,
                reference@,
                encoder_tw@,
                decoder_tw@,
                n_fft,
                weight,
                scale,
                norm,
                b as nat,
            ),
        decreases batch - b,
    {
        proof {
            lemma_row_bounds(b as int, batch as int, n);
        }
        let at: usize = b * n_fft;
        let from: usize = b * n_fft * 2;
        let enc_in = complex_row(signal, at, n_fft);
        if let Ok(enc_trace) = forward_butterfly_traced(enc_in, encoder_tw, n_fft, true) {
            let spectrum = copy_buffer(&enc_trace.output);
            let mut dec_in = copy_buffer(&spectrum);
            apply_conj(&mut dec_in, n_fft);
            if let Ok(dec_trace) = forward_butterfly_traced(dec_in, decoder_tw, n_fft, true) {
                let mut recovered = copy_buffer(&dec_trace.output);
                apply_conj(&mut recovered, n_fft);
                reconstruction = add_recovery(
                    reconstruction,
                    &recovered,
                    signal,
                    at,
                    scale,
                    n_fft,
                );
                let grad_rec = make_recovery_gradient(
                    &recovered,
                    signal,
                    at,
                    scale,
                    norm,
                    n_fft,
                );
                proof {
                    lemma_backward_len(
                        conjugated(grad_rec@, n),
                        dec_grad@,
                        buffers(dec_trace.stage_inputs@),
                        decoder_tw@,
                        n,
                        stages,
                    );
                }
                let mut grad_spec = backward_butterfly_twiddles(
                    grad_rec,
                    &dec_trace,
                    decoder_tw,
                    n_fft,
                    dec_grad,
                    true,
                );
                apply_conj(&mut grad_spec, n_fft);
                if let Some(w) = weight {
                    spectrum_loss = add_squares(spectrum_loss, &spectrum, reference, from);
                    add_spectrum_gradient(&mut grad_spec, &spectrum, reference, from, w, norm);
                }
                proof {
                    lemma_backward_len(
                        grad_spec@,
                        enc_grad@,
                        buffers(enc_trace.stage_inputs@),
                        encoder_tw@,
                        n,
                        stages,
                    );
                }
                let _rest = backward_butterfly_twiddles(
                    grad_spec,
                    &enc_trace,
                    encoder_tw,
                    n_fft,
                    enc_grad,
                    false,
                );
            }
        }
        b += 1;
    }
    EncDecStepLoss { reconstruction, spectrum: spectrum_loss }
}

/// One step of training an encoder and a decoder on a batch of real rows, with the reference spectra
/// of the rows. The loss of the spectrum counts where it has a weight.
pub fn butterfly_train_step_encdec<T: Divisible>(
    signal: &Vec<T>,
    reference: &Vec<T>,
    encoder_tw: &mut Vec<T>,
    decoder_tw: &mut Vec<T>,
    batch: usize,
    n_fft: usize,
    lr: T,
    weight: Option<T>,
) -> (r: Result<EncDecStepLoss<T>, ButterflyError>)
    requires
        countable_step(batch, n_fft),
        reference.len() >= batch * n_fft * 2,
        old(encoder_tw).len() >= twiddles_needed(n_fft),
        old(decoder_tw).len() >= twiddles_needed(n_fft),
    ensures
        if signal@.len() != batch * n_fft {
            &&& final(encoder_tw)@ == old(encoder_tw)@
            &&& final(decoder_tw)@ == old(decoder_tw)@
            &&& r == Err::<EncDecStepLoss<T>, ButterflyError>(
                ButterflyError::InputLength {
                    found: signal@.len() as usize,
                    expected: (batch * n_fft) as usize,
                },
            )
        } else {
            let p = encdec_batch(
                signal@,
                reference@,
                old(encoder_tw)@,
                old(decoder_tw)@,
                batch,
                n_fft,
                weight,
            );
            &&& final(encoder_tw)@ == descended(old(encoder_tw)@, p.encoder, lr)
            &&& final(decoder_tw)@ == descended(old(decoder_tw)@, p.decoder, lr)
            &&& r == Ok::<EncDecStepLoss<T>, ButterflyError>(
                encdec_losses(p, batch, n_fft, weight),
            )
        },
{
    proof {
        assert(batch * n_fft <= batch * n_fft * 2) by (nonlinear_arith)
            requires
                batch >= 0,
                n_fft >= 0,
        ;
    }
    let expected: usize = batch * n_fft;
    if signal.len() != expected {
        return Err(ButterflyError::InputLength { found: signal.len(), expected });
    }
    let (step, enc_grad, dec_grad) = encdec_step(
        signal,
        reference,
        encoder_tw,
        decoder_tw,
        batch,
        n_fft,
        weight,
    );
    descend(encoder_tw, &enc_grad, lr);
    descend(decoder_tw, &dec_grad, lr);
    Ok(step)
}

/// The losses and the gradients of an encoder and a decoder on a batch, before any update.
pub fn encdec_step<T: Divisible>(
    signal: &Vec<T>,
    reference: &Vec<T>,
    encoder_tw: &Vec<T>,
    decoder_tw: &Vec<T>,
    batch: usize,
    n_fft: usize,
    weight: Option<T>,
) -> (r: (EncDecStepLoss<T>, Vec<T>, Vec<T>))
    requires
        countable_step(batch, n_fft),
        signal.len() == batch * n_fft,
        reference.len() >= batch * n_fft * 2,
        encoder_tw.len() >= twiddles_needed(n_fft),
        decoder_tw.len() >= twiddles_needed(n_fft),
    ensures
        ({
            let p = encdec_batch(
                signal@,
                reference@,
                encoder_tw@,
                decoder_tw@,
                batch,
                n_fft,
                weight,
            );
            &&& r.0 == encdec_losses(p, batch, n_fft, weight)
            &&& r.1@ == p.encoder
            &&& r.2@ == p.decoder
        }),
{
    let half: usize = n_fft / 2;
    let stages: usize = num_stages(n_fft);
    proof {
        assert(stages * half <= stages * half * 2) by (nonlinear_arith)
            requires
                stages >= 0,
                half >= 0,
        ;
        assert(batch * n_fft <= batch * n_fft * 2) by (nonlinear_arith)
            requires
                batch >= 0,
                n_fft >= 0,
        ;
    }
    let mut enc_grad: Vec<T> = zeros(stages * half * 2);
    let mut dec_grad: Vec<T> = zeros(stages * half * 2);
    let sums = encdec_gradients(
        signal,
        reference,
        encoder_tw,
        decoder_tw,
        batch,
        n_fft,
        weight,
        &mut enc_grad,
        &mut dec_grad,
    );
    let reconstruction = sums.reconstruction.over(T::count(batch * n_fft));
    let spectrum = match weight {
        Some(_) => sums.spectrum.over(T::count(batch * n_fft * 2)),
        None => T::zero(),
    };
    (EncDecStepLoss { reconstruction, spectrum }, enc_grad, dec_grad)
}

} // verus!

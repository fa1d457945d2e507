//! What training leaves alone: a transform or a correction that already gives its targets.

use crate::band_correct::{corrected, BandedCorrector};
use crate::band_train::{
    bias_gradient, bias_gradients, differences, mean_descended, square_sum, weight_gradient,
    weight_gradients,
};
use crate::butterfly::{
    after_stages, as_complex, butterfly_of, complex_at, complex_difference, complex_product,
    complex_sum, forward_rows, lemma_place_of, lemma_places, lemma_source_place, lemma_stride,
    lemma_twiddle_fits, permuted, stage_value, staged, stages_of, twiddle_place, twiddles_needed,
    upper_place,
};
use crate::butterfly_graph::lemma_forward_at;
use crate::butterfly_train::{
    backward, descended, error_gradient, rows_progress, signal_rows, squared_error, stage_buffers,
    stage_gradient, twiddle_gradients,
};
use crate::fourier::{
    all_valid, complex_valid, lemma_complex_closed, lemma_less_nought, lemma_product_nought, Ring,
};
use crate::scalar::{Divisible, Scalar};
use vstd::arithmetic::power2::pow2;
use vstd::prelude::*;

verus! {

/// Whether a buffer holds nothing but zeros.
pub open spec fn all_nought<T: Scalar>(v: Seq<T>) -> bool {
    forall|i: int| 0 <= i < v.len() ==> #[trigger] v[i] == T::nought()
}

proof fn lemma_nought_times<T: Ring>(a: T)
    requires
        T::valid(a),
    ensures
        T::product(T::nought(), a) == T::nought(),
{
    T::closed();
    T::product_commutes(T::nought(), a);
    lemma_product_nought(a);
}

proof fn lemma_noughts<T: Ring>()
    ensures
        T::sum(T::nought(), T::nought()) == T::nought(),
        T::difference(T::nought(), T::nought()) == T::nought(),
{
    T::closed();
    T::sum_with_nought(T::nought());
    lemma_less_nought(T::nought());
}

proof fn lemma_less_itself<T: Ring>(a: T)
    requires
        T::valid(a),
    ensures
        T::difference(a, a) == T::nought(),
{
    T::difference_adds_the_opposite(a, a);
    T::opposite_cancels(a);
}

/// A stage of valid numbers gives valid numbers.
pub(crate) proof fn lemma_staged_valid<T: Ring>(buf: Seq<T>, tw: Seq<T>, n_fft: usize, stage: nat)
    requires
        n_fft > 0,
        stage < stages_of(n_fft),
        buf.len() == 2 * n_fft,
        all_valid(buf),
        tw.len() >= twiddles_needed(n_fft),
        all_valid(tw),
    ensures
        all_valid(staged(buf, tw, n_fft as int, stage)),
{
    let n = n_fft as int;
    let half = n / 2;
    let stride = pow2(stage) as int;
    let out = staged(buf, tw, n, stage);
    lemma_stride(n_fft, stage);
    lemma_complex_closed::<T>();
    assert forall|i: int| 0 <= i < out.len() implies T::valid(#[trigger] out[i]) by {
        let c = i / 2;
        lemma_place_of(c, stride, half);
        let b = butterfly_of(c, stride);
        lemma_places(b, stride, half);
        lemma_twiddle_fits(stage as int, b, half, stages_of(n_fft) as int);
        let up = upper_place(b, stride);
        let low = up + stride;
        let at = twiddle_place(stage as int, b, half);
        assert(T::valid(buf[2 * up]) && T::valid(buf[2 * up + 1]));
        assert(T::valid(buf[2 * low]) && T::valid(buf[2 * low + 1]));
        assert(T::valid(tw[2 * at]) && T::valid(tw[2 * at + 1]));
        assert(complex_valid(complex_at(buf, up)));
        assert(complex_valid(complex_at(buf, low)));
        assert(complex_valid(complex_at(tw, at)));
        let a = complex_at(buf, up);
        let turned = complex_product(complex_at(buf, low), complex_at(tw, at));
        assert(complex_valid(turned));
        assert(complex_valid(complex_sum(a, turned)));
        assert(complex_valid(complex_difference(a, turned))) by {
            T::closed();
            assert(T::valid(T::difference(a.re, turned.re)));
            assert(T::valid(T::difference(a.im, turned.im)));
        }
        assert(complex_valid(stage_value(buf, tw, n, stage, c)));
    }
}

pub(crate) proof fn lemma_after_valid<T: Ring>(buf: Seq<T>, tw: Seq<T>, n_fft: usize, k: nat)
    requires
        n_fft > 0,
        k <= stages_of(n_fft),
        buf.len() == 2 * n_fft,
        all_valid(buf),
        tw.len() >= twiddles_needed(n_fft),
        all_valid(tw),
    ensures
        after_stages(buf, tw, n_fft as int, k).len() == 2 * n_fft,
        all_valid(after_stages(buf, tw, n_fft as int, k)),
    decreases k,
{
    if k > 0 {
        lemma_after_valid(buf, tw, n_fft, (k - 1) as nat);
        lemma_staged_valid(
            after_stages(buf, tw, n_fft as int, (k - 1) as nat),
            tw,
            n_fft,
            (k - 1) as nat,
        );
    }
}

/// No gradient behind a stage leaves none before it, and adds nothing to those of its twiddles.
proof fn lemma_stage_at_rest<T: Ring>(
    grad: Seq<T>,
    sums: Seq<T>,
    input: Seq<T>,
    tw: Seq<T>,
    n_fft: usize,
    stage: nat,
)
    requires
        n_fft > 0,
        stage < stages_of(n_fft),
        grad.len() == 2 * n_fft,
        all_nought(grad),
        input.len() == 2 * n_fft,
        all_valid(input),
        all_valid(sums),
        tw.len() >= twiddles_needed(n_fft),
        all_valid(tw),
    ensures
        all_nought(stage_gradient(grad, tw, n_fft as int, stage)),
        twiddle_gradients(sums, grad, input, n_fft as int, stage) == sums,
{
    let n = n_fft as int;
    let half = n / 2;
    let stride = pow2(stage) as int;
    lemma_stride(n_fft, stage);
    lemma_noughts::<T>();
    let passed = stage_gradient(grad, tw, n, stage);
    assert forall|i: int| 0 <= i < passed.len() implies #[trigger] passed[i] == T::nought() by {
        let c = i / 2;
        lemma_place_of(c, stride, half);
        let b = butterfly_of(c, stride);
        lemma_places(b, stride, half);
        lemma_twiddle_fits(stage as int, b, half, stages_of(n_fft) as int);
        let up = upper_place(b, stride);
        let low = up + stride;
        let at = twiddle_place(stage as int, b, half);
        assert(grad[2 * up] == T::nought() && grad[2 * up + 1] == T::nought());
        assert(grad[2 * low] == T::nought() && grad[2 * low + 1] == T::nought());
        assert(T::valid(tw[2 * at]) && T::valid(tw[2 * at + 1]));
        lemma_nought_times(tw[2 * at]);
        lemma_nought_times(tw[2 * at + 1]);
    }
    let added = twiddle_gradients(sums, grad, input, n, stage);
    assert forall|i: int| 0 <= i < sums.len() implies added[i] == sums[i] by {
        let b = i / 2 - stage * half;
        if 0 <= b < half {
            lemma_places(b, stride, half);
            let up = upper_place(b, stride);
            let low = up + stride;
            assert(grad[2 * up] == T::nought() && grad[2 * up + 1] == T::nought());
            assert(grad[2 * low] == T::nought() && grad[2 * low + 1] == T::nought());
            assert(T::valid(input[2 * low]) && T::valid(input[2 * low + 1]));
            lemma_nought_times(input[2 * low]);
            lemma_nought_times(input[2 * low + 1]);
            assert(T::valid(sums[i]));
            T::sum_with_nought(sums[i]);
        }
    }
    assert(added =~= sums);
}

proof fn lemma_backward_at_rest<T: Ring>(
    grad: Seq<T>,
    sums: Seq<T>,
    inputs: Seq<Seq<T>>,
    tw: Seq<T>,
    n_fft: usize,
    k: nat,
)
    requires
        n_fft > 0,
        k <= stages_of(n_fft),
        inputs.len() == stages_of(n_fft),
        forall|s: int|
            0 <= s < inputs.len() ==> (#[trigger] inputs[s]).len() == 2 * n_fft && all_valid(
                inputs[s],
            ),
        grad.len() == 2 * n_fft,
        all_nought(grad),
        all_valid(sums),
        tw.len() >= twiddles_needed(n_fft),
        all_valid(tw),
    ensures
        backward(grad, sums, inputs, tw, n_fft as int, k).1 == sums,
    decreases k,
{
    if k > 0 {
        let stage = (k - 1) as nat;
        assert(inputs[stage as int].len() == 2 * n_fft);
        lemma_stage_at_rest(grad, sums, inputs[stage as int], tw, n_fft, stage);
        lemma_backward_at_rest(
            stage_gradient(grad, tw, n_fft as int, stage),
            sums,
            inputs,
            tw,
            n_fft,
            stage,
        );
    }
}

/// Errors that are all nothing add nothing to a loss.
proof fn lemma_no_loss<T: Ring>(loss: T, buf: Seq<T>, target: Seq<T>, from: int, k: nat)
    requires
        T::valid(loss),
        k <= buf.len(),
        all_valid(buf),
        forall|i: int| 0 <= i < buf.len() ==> #[trigger] target[from + i] == buf[i],
    ensures
        squared_error(loss, buf, target, from, k) == loss,
    decreases k,
{
    if k > 0 {
        lemma_no_loss(loss, buf, target, from, (k - 1) as nat);
        assert(target[from + (k - 1)] == buf[k - 1]);
        assert(T::valid(buf[k - 1]));
        lemma_less_itself(buf[k - 1]);
        T::closed();
        lemma_nought_times(T::nought());
        T::sum_with_nought(loss);
    }
}

/// A training step of a transform that already gives its targets finds no loss and leaves the
/// twiddles as they are: trained from exact twiddles, a transform stays exact.
pub proof fn exact_transforms_stay<T: Ring + Divisible>(
    signal: Seq<T>,
    tw: Seq<T>,
    n_fft: usize,
    batch: usize,
    lr: T,
    norm: T,
    k: nat,
)
    requires
        n_fft > 0,
        signal.len() == batch * n_fft,
        all_valid(signal),
        tw.len() == twiddles_needed(n_fft),
        all_valid(tw),
        T::valid(lr),
        T::valid(T::counted(2)),
        T::quotient(T::nought(), norm) == T::nought(),
        k <= batch,
    ensures
        ({
            let p = rows_progress(
                signal_rows(signal, n_fft as int),
                forward_rows(signal, tw, n_fft, batch as nat),
                tw,
                n_fft,
                norm,
                false,
                k,
            );
            &&& p.loss == T::nought()
            &&& all_nought(p.grads)
            &&& p.grads.len() == twiddles_needed(n_fft)
            &&& descended(tw, p.grads, lr) == tw
        }),
    decreases k,
{
    let n = n_fft as int;
    let targets = forward_rows(signal, tw, n_fft, batch as nat);
    let inputs = signal_rows(signal, n);
    let p = rows_progress(inputs, targets, tw, n_fft, norm, false, k);
    T::closed();
    lemma_product_nought(lr);
    if k > 0 {
        let h = (k - 1) as nat;
        exact_transforms_stay(signal, tw, n_fft, batch, lr, norm, h);
        let before = rows_progress(inputs, targets, tw, n_fft, norm, false, h);
        let input = inputs(k - 1);
        assert((k - 1) * n + n <= batch * n) by (nonlinear_arith)
            requires
                k <= batch,
                n >= 0,
        ;
        assert(0 <= (k - 1) * n) by (nonlinear_arith)
            requires
                k >= 1,
                n >= 0,
        ;
        assert(all_valid(input)) by {
            assert forall|i: int| 0 <= i < input.len() implies T::valid(#[trigger] input[i]) by {
                if i % 2 == 0 {
                    assert(T::valid(signal[(k - 1) * n + i / 2]));
                }
            }
        }
        let start = permuted(input, n_fft);
        assert(all_valid(start)) by {
            assert forall|i: int| 0 <= i < start.len() implies T::valid(#[trigger] start[i]) by {
                lemma_source_place(i / 2, n_fft);
                assert(T::valid(input[crate::butterfly::source_place(i / 2, n_fft) * 2 + i % 2]));
            }
        }
        let out = after_stages(start, tw, n, stages_of(n_fft));
        lemma_after_valid(start, tw, n_fft, stages_of(n_fft));
        let from = (k - 1) * (2 * n);
        let two = 2 * n;
        assert forall|i: int| 0 <= i < out.len() implies #[trigger] targets[from + i] == out[i] by {
            let at = from + i;
            assert(at == two * (k - 1) + i) by (nonlinear_arith)
                requires
                    at == (k - 1) * two + i,
            ;
            vstd::arithmetic::div_mod::lemma_fundamental_div_mod_converse(at, two, k - 1, i);
            assert((k - 1) * two + two <= batch * two) by (nonlinear_arith)
                requires
                    k <= batch,
                    two >= 0,
            ;
            assert(0 <= at) by (nonlinear_arith)
                requires
                    at == (k - 1) * two + i,
                    i >= 0,
                    k >= 1,
                    two >= 0,
            ;
            lemma_forward_at(signal, tw, n_fft, batch as nat, at);
            assert(input == as_complex(signal, (k - 1) * n, n));
        }
        lemma_no_loss(before.loss, out, targets, from, out.len());
        let grad = error_gradient(out, targets, from, norm);
        assert forall|i: int| 0 <= i < grad.len() implies #[trigger] grad[i] == T::nought() by {
            assert(targets[from + i] == out[i]);
            assert(T::valid(out[i]));
            lemma_less_itself(out[i]);
            lemma_product_nought(T::counted(2));
        }
        let held = stage_buffers(start, tw, n_fft);
        assert forall|s: int| 0 <= s < held.len() implies (#[trigger] held[s]).len() == 2 * n_fft
            && all_valid(held[s]) by {
            lemma_after_valid(start, tw, n_fft, s as nat);
        }
        assert(all_valid(before.grads)) by {
            assert forall|i: int| 0 <= i < before.grads.len() implies T::valid(
                #[trigger] before.grads[i],
            ) by {
                assert(before.grads[i] == T::nought());
            }
        }
        lemma_backward_at_rest(grad, before.grads, held, tw, n_fft, stages_of(n_fft));
    }
    assert forall|i: int| 0 <= i < tw.len() implies descended(tw, p.grads, lr)[i] == tw[i] by {
        assert(p.grads[i] == T::nought());
        assert(T::valid(tw[i]));
        lemma_less_nought(tw[i]);
    }
    assert(descended(tw, p.grads, lr) =~= tw);
}

/// A training step of a band that already gives its targets finds no error and leaves the band as it
/// is.
pub proof fn fitted_bands_stay<T: Ring + Divisible>(
    c: BandedCorrector<T>,
    x: Seq<T>,
    batch: nat,
    lr: T,
    norm: T,
)
    requires
        c.well_formed(),
        all_valid(c.weights@),
        all_valid(c.bias@),
        x.len() == batch * c.n_bins,
        all_valid(x),
        all_valid(corrected(c, x)),
        T::valid(lr),
        T::valid(T::counted(2)),
        T::quotient(T::nought(), norm) == T::nought(),
    ensures
        ({
            let errors = differences(corrected(c, x), corrected(c, x));
            &&& square_sum(errors, errors.len()) == T::nought()
            &&& mean_descended(
                c.bias@,
                bias_gradients(errors, c.n_bins as int, batch),
                lr,
                norm,
            ) == c.bias@
            &&& mean_descended(c.weights@, weight_gradients(c, x, errors, batch), lr, norm)
                == c.weights@
        }),
{
    let out = corrected(c, x);
    let errors = differences(out, out);
    let n = c.n_bins as int;
    T::closed();
    assert forall|p: int| 0 <= p < errors.len() implies #[trigger] errors[p] == T::nought() by {
        assert(T::valid(out[p]));
        lemma_less_itself(out[p]);
    }
    lemma_no_squares(errors, errors.len());
    let rate = T::product(lr, T::counted(2));
    lemma_product_nought(rate);
    let bias = mean_descended(c.bias@, bias_gradients(errors, n, batch), lr, norm);
    assert forall|i: int| 0 <= i < c.bias@.len() implies bias[i] == c.bias@[i] by {
        lemma_no_bias_gradient(errors, n, i, batch, batch);
        assert(T::valid(c.bias@[i]));
        lemma_less_nought(c.bias@[i]);
    }
    assert(bias =~= c.bias@);
    let weights = mean_descended(c.weights@, weight_gradients(c, x, errors, batch), lr, norm);
    assert forall|w: int| 0 <= w < c.weights@.len() implies weights[w] == c.weights@[w] by {
        lemma_no_weight_gradient(c, x, errors, w, batch, batch);
        assert(T::valid(c.weights@[w]));
        lemma_less_nought(c.weights@[w]);
    }
    assert(weights =~= c.weights@);
}

proof fn lemma_no_squares<T: Ring>(e: Seq<T>, k: nat)
    requires
        all_nought(e),
        k <= e.len(),
    ensures
        square_sum(e, k) == T::nought(),
    decreases k,
{
    T::closed();
    if k > 0 {
        lemma_no_squares(e, (k - 1) as nat);
        assert(e[k - 1] == T::nought());
        lemma_nought_times(T::nought());
        lemma_noughts::<T>();
    }
}

proof fn lemma_no_bias_gradient<T: Ring>(e: Seq<T>, n: int, i: int, k: nat, batch: nat)
    requires
        all_nought(e),
        0 <= i < n,
        e.len() == batch * n,
        k <= batch,
    ensures
        bias_gradient(e, n, i, k) == T::nought(),
    decreases k,
{
    if k > 0 {
        lemma_no_bias_gradient(e, n, i, (k - 1) as nat, batch);
        let at = (k - 1) * n + i;
        assert(0 <= at < batch * n) by (nonlinear_arith)
            requires
                at == (k - 1) * n + i,
                1 <= k <= batch,
                0 <= i < n,
        ;
        assert(e[at] == T::nought());
        lemma_noughts::<T>();
    }
}

proof fn lemma_no_weight_gradient<T: Ring>(
    c: BandedCorrector<T>,
    x: Seq<T>,
    e: Seq<T>,
    w: int,
    k: nat,
    batch: nat,
)
    requires
        c.well_formed(),
        all_nought(e),
        all_valid(x),
        e.len() == batch * c.n_bins,
        x.len() == batch * c.n_bins,
        0 <= w < c.weights@.len(),
        k <= batch,
    ensures
        weight_gradient(c, x, e, w, k) == T::nought(),
    decreases k,
{
    if k > 0 {
        let n = c.n_bins as int;
        let bw = c.band_width as int;
        lemma_no_weight_gradient(c, x, e, w, (k - 1) as nat, batch);
        vstd::arithmetic::div_mod::lemma_fundamental_div_mod(w, bw);
        vstd::arithmetic::div_mod::lemma_mod_bound(w, bw);
        let i = w / bw;
        assert(0 <= i < n) by (nonlinear_arith)
            requires
                w == bw * i + w % bw,
                0 <= w % bw < bw,
                0 <= w < n * bw,
        ;
        match crate::band_correct::tap(n, c.radius as int, i, w % bw) {
            Some(j) => {
                let at = (k - 1) * n + i;
                let from = (k - 1) * n + j;
                assert(0 <= at < batch * n) by (nonlinear_arith)
                    requires
                        at == (k - 1) * n + i,
                        1 <= k <= batch,
                        0 <= i < n,
                ;
                assert(0 <= from < batch * n) by (nonlinear_arith)
                    requires
                        from == (k - 1) * n + j,
                        1 <= k <= batch,
                        0 <= j < n,
                ;
                assert(e[at] == T::nought());
                assert(T::valid(x[from]));
                lemma_nought_times(x[from]);
                lemma_noughts::<T>();
            },
            None => {},
        }
    }
}

} // verus!

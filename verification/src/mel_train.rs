//! Training towards mel energies: gradients of a batch, column by column, and the steps they make.

use crate::band_train::bias_gradient;
use crate::butterfly::{as_interleaved, as_planes};
use crate::butterfly_graph::{by_rows, complex_row, lemma_row_place};
use crate::deploy_graph::{interleave_map, planes_map};
use crate::scalar::{held, hold_within, Divisible, Ordered, Scalar};
use crate::spectral::SpectrumDenoiser;
use vstd::prelude::*;

verus! {

// ---------------------------------------------------------------------------
// Layouts of a batch
// ---------------------------------------------------------------------------

/// Puts every row of interleaved complex numbers into two planes.
pub fn interleaved_to_block<T: Scalar>(v: &Vec<T>, batch: usize, n_fft: usize) -> (r: Vec<T>)
    requires
        n_fft > 0,
        2 * n_fft <= usize::MAX,
        v@.len() == batch * (2 * n_fft),
    ensures
        r@ == by_rows(v@, n_fft as int, planes_map(n_fft as int)),
{
    let two: usize = 2 * n_fft;
    let ghost want = by_rows(v@, n_fft as int, planes_map(n_fft as int));
    let mut out: Vec<T> = Vec::new();
    let mut p: usize = 0;
    while p < v.len()
        invariant
            p <= v.len(),
            n_fft > 0,
            two == 2 * n_fft,
            v.len() == batch * two,
            want == by_rows(v@, n_fft as int, planes_map(n_fft as int)),
            out@.len() == p,
            forall|k: int| 0 <= k < p ==> #[trigger] out@[k] == want[k],
        decreases v.len() - p,
    {
        let len: usize = v.len();
        proof {
            lemma_row_place(p as int, n_fft as int, batch as int);
        }
        let i: usize = p % two;
        let base: usize = p - i;
        assert(want[p as int] == as_planes(
            complex_row(v@, p as int / two as int, n_fft as int),
            n_fft as int,
        )[i as int]);
        if i < n_fft {
            out.push(v[base + 2 * i]);
        } else {
            out.push(v[base + (2 * (i - n_fft) + 1)]);
        }
        p += 1;
    }
    assert(out@ =~= want);
    out
}

/// Puts every row of two planes into interleaved complex numbers.
pub fn block_to_interleaved<T: Scalar>(v: &Vec<T>, batch: usize, n_fft: usize) -> (r: Vec<T>)
    requires
        n_fft > 0,
        2 * n_fft <= usize::MAX,
        v@.len() == batch * (2 * n_fft),
    ensures
        r@ == by_rows(v@, n_fft as int, interleave_map(n_fft as int)),
{
    let two: usize = 2 * n_fft;
    let ghost want = by_rows(v@, n_fft as int, interleave_map(n_fft as int));
    let mut out: Vec<T> = Vec::new();
    let mut p: usize = 0;
    while p < v.len()
        invariant
            p <= v.len(),
            n_fft > 0,
            two == 2 * n_fft,
            v.len() == batch * two,
            want == by_rows(v@, n_fft as int, interleave_map(n_fft as int)),
            out@.len() == p,
            forall|k: int| 0 <= k < p ==> #[trigger] out@[k] == want[k],
        decreases v.len() - p,
    {
        let len: usize = v.len();
        proof {
            lemma_row_place(p as int, n_fft as int, batch as int);
        }
        let i: usize = p % two;
        let base: usize = p - i;
        assert(want[p as int] == as_interleaved(
            complex_row(v@, p as int / two as int, n_fft as int),
            n_fft as int,
        )[i as int]);
        if i % 2 == 0 {
            out.push(v[base + i / 2]);
        } else {
            out.push(v[base + (n_fft + i / 2)]);
        }
        p += 1;
    }
    assert(out@ =~= want);
    out
}

/// A batch in planes and back is the batch.
pub proof fn batch_layouts_undo_each_other<T: Scalar>(v: Seq<T>, n_fft: int, batch: nat)
    requires
        n_fft > 0,
        v.len() == batch * (2 * n_fft),
    ensures
        by_rows(by_rows(v, n_fft, planes_map(n_fft)), n_fft, interleave_map(n_fft)) == v,
        by_rows(by_rows(v, n_fft, interleave_map(n_fft)), n_fft, planes_map(n_fft)) == v,
{
    let a = by_rows(v, n_fft, planes_map(n_fft));
    let b = by_rows(v, n_fft, interleave_map(n_fft));
    let x = by_rows(a, n_fft, interleave_map(n_fft));
    let y = by_rows(b, n_fft, planes_map(n_fft));
    let two = 2 * n_fft;
    assert forall|p: int| 0 <= p < v.len() implies x[p] == v[p] && y[p] == v[p] by {
        lemma_row_place(p, n_fft, batch as int);
        let row = p / two;
        let line = complex_row(v, row, n_fft);
        lemma_row_of_rows(v, n_fft, planes_map(n_fft), row, batch as int);
        lemma_row_of_rows(v, n_fft, interleave_map(n_fft), row, batch as int);
        crate::butterfly::layouts_undo_each_other(line, n_fft);
    }
    assert(x =~= v);
    assert(y =~= v);
}

/// A row of a batch whose rows went through a map is that row through the map.
proof fn lemma_row_of_rows<T>(
    v: Seq<T>,
    n: int,
    map: spec_fn(Seq<T>) -> Seq<T>,
    row: int,
    rows: int,
)
    requires
        n > 0,
        0 <= row < rows,
        v.len() == rows * (2 * n),
        map(complex_row(v, row, n)).len() == 2 * n,
    ensures
        complex_row(by_rows(v, n, map), row, n) == map(complex_row(v, row, n)),
{
    let two = 2 * n;
    let out = complex_row(by_rows(v, n, map), row, n);
    let want = map(complex_row(v, row, n));
    assert(row * two + two <= rows * two) by (nonlinear_arith)
        requires
            row + 1 <= rows,
            two >= 0,
    ;
    assert((row + 1) * two == row * two + two) by (nonlinear_arith);
    assert(0 <= row * two) by (nonlinear_arith)
        requires
            row >= 0,
            two >= 0,
    ;
    assert forall|q: int| 0 <= q < two implies out[q] == want[q] by {
        let at = row * two + q;
        assert(at == two * row + q) by (nonlinear_arith)
            requires
                at == row * two + q,
        ;
        vstd::arithmetic::div_mod::lemma_fundamental_div_mod_converse(at, two, row, q);
    }
    assert(out =~= want);
}

// ---------------------------------------------------------------------------
// Gradients
// ---------------------------------------------------------------------------

/// The gradient of the mean squared error of a batch of mel energies.
pub open spec fn mel_gradient<T: Divisible>(pred: Seq<T>, target: Seq<T>, count: usize) -> Seq<T> {
    Seq::new(
        pred.len(),
        |p: int|
            T::quotient(
                T::product(T::counted(2), T::difference(pred[p], target[p])),
                T::counted(count),
            ),
    )
}

/// The gradient of the mean squared error of a batch of mel energies.
pub fn mel_loss_gradient<T: Divisible>(
    pred: &Vec<T>,
    target: &Vec<T>,
    batch: usize,
    n_mels: usize,
) -> (r: Vec<T>)
    requires
        batch * n_mels <= usize::MAX,
        pred@.len() == batch * n_mels,
        target@.len() == batch * n_mels,
    ensures
        r@ == mel_gradient(pred@, target@, (batch * n_mels) as usize),
{
    let count: usize = batch * n_mels;
    let two = T::count(2);
    let norm = T::count(count);
    let ghost want = mel_gradient(pred@, target@, count);
    let mut out: Vec<T> = Vec::new();
    let mut p: usize = 0;
    while p < count
        invariant
            p <= count,
            pred@.len() == count,
            target@.len() == count,
            two == T::counted(2),
            norm == T::counted(count),
            want == mel_gradient(pred@, target@, count),
            out@.len() == p,
            forall|k: int| 0 <= k < p ==> #[trigger] out@[k] == want[k],
        decreases count - p,
    {
        out.push(two.times(pred[p].minus(target[p])).over(norm));
        p += 1;
    }
    assert(out@ =~= want);
    out
}

/// The numbers of a batch, at least one.
pub open spec fn at_least_one(n: int) -> usize {
    if n < 1 {
        1
    } else {
        n as usize
    }
}

/// A column of a batch, summed.
fn column_sum<T: Scalar>(v: &Vec<T>, n: usize, i: usize, batch: usize) -> (r: T)
    requires
        i < n,
        v@.len() == batch * n,
    ensures
        r == bias_gradient(v@, n as int, i as int, batch as nat),
{
    let mut acc = T::zero();
    let mut b: usize = 0;
    let mut at: usize = i;
    assert(0 * n == 0) by (nonlinear_arith);
    while b < batch
        invariant
            b <= batch,
            i < n,
            v.len() == batch * n,
            b < batch ==> at == b * n + i,
            acc == bias_gradient(v@, n as int, i as int, b as nat),
        decreases batch - b,
    {
        proof {
            assert(b * n + n <= batch * n) by (nonlinear_arith)
                requires
                    b + 1 <= batch,
                    n >= 0,
            ;
            assert((b + 1) * n == b * n + n) by (nonlinear_arith);
        }
        let len: usize = v.len();
        acc = acc.plus(v[at]);
        b += 1;
        if b < batch {
            proof {
                assert(b * n + n <= batch * n) by (nonlinear_arith)
                    requires
                        b + 1 <= batch,
                        n >= 0,
                ;
            }
            at = at + n;
        }
    }
    acc
}

/// The mean of a column of a batch of gradients.
pub open spec fn column_mean<T: Divisible>(grad: Seq<T>, n: int, i: int, batch: nat) -> T {
    T::quotient(bias_gradient(grad, n, i, batch), T::counted(at_least_one(batch * n)))
}

/// The scales after a step: each less the rate times its mean gradient and the spectrum's first row.
pub open spec fn stepped_scale<T: Divisible>(
    scale: Seq<T>,
    spectrum: Seq<T>,
    grad: Seq<T>,
    batch: nat,
    lr: T,
) -> Seq<T> {
    Seq::new(
        scale.len(),
        |i: int|
            T::difference(
                scale[i],
                T::product(
                    T::product(lr, column_mean(grad, scale.len() as int, i, batch)),
                    spectrum[i],
                ),
            ),
    )
}

/// The biases after a step.
pub open spec fn stepped_bias<T: Divisible>(bias: Seq<T>, grad: Seq<T>, batch: nat, lr: T) -> Seq<T> {
    Seq::new(
        bias.len(),
        |i: int|
            T::difference(
                bias[i],
                T::product(lr, column_mean(grad, bias.len() as int, i, batch)),
            ),
    )
}

/// The largest number of a distilled model's mask.
pub const DISTILLED_MASK_TOP: usize = 2;

/// The largest number of a routed model's mask.
pub const ROUTED_MASK_TOP: usize = 4;

/// The share of the rate that masks learn at: a twentieth.
pub open spec fn mask_share<T: Divisible>() -> T {
    T::quotient(T::counted(1), T::counted(20))
}

/// A number of a mask within its bounds: from nought to its top.
pub open spec fn mask_held<T: Divisible + Ordered>(x: T, top: usize) -> T {
    held(x, T::nought(), T::counted(top))
}

/// The mask after a step: each number less its gradient, at the share of the rate that masks learn
/// at, within its bounds.
pub open spec fn stepped_mask<T: Divisible + Ordered>(
    mask: Seq<T>,
    spectrum: Seq<T>,
    grad: Seq<T>,
    batch: nat,
    lr: T,
) -> Seq<T> {
    Seq::new(
        mask.len(),
        |i: int|
            mask_held(
                T::difference(
                    mask[i],
                    T::product(
                        T::product(
                            T::product(lr, mask_share()),
                            column_mean(grad, mask.len() as int, i, batch),
                        ),
                        spectrum[i],
                    ),
                ),
                DISTILLED_MASK_TOP,
            ),
    )
}

/// A step of a distilled model towards mel energies, given the gradient of its spectrum: the
/// denoiser moves, and the new mask is returned.
pub fn train_step_mel<T: Divisible + Ordered>(
    denoiser: &mut SpectrumDenoiser<T>,
    mask: &Vec<T>,
    spectrum: &Vec<T>,
    grad: &Vec<T>,
    batch: usize,
    lr: T,
) -> (r: Vec<T>)
    requires
        old(denoiser).well_formed(),
        mask@.len() == old(denoiser).scale@.len(),
        spectrum@.len() == batch * mask@.len(),
        grad@.len() == batch * mask@.len(),
        batch > 0,
    ensures
        final(denoiser).well_formed(),
        final(denoiser).scale@ == stepped_scale(
            old(denoiser).scale@,
            spectrum@,
            grad@,
            batch as nat,
            lr,
        ),
        final(denoiser).bias@ == stepped_bias(old(denoiser).bias@, grad@, batch as nat, lr),
        r@ == stepped_mask(mask@, spectrum@, grad@, batch as nat, lr),
{
    let n: usize = mask.len();
    let ghost scale0 = denoiser.scale@;
    let ghost bias0 = denoiser.bias@;
    let ghost want_scale = stepped_scale(scale0, spectrum@, grad@, batch as nat, lr);
    let ghost want_bias = stepped_bias(bias0, grad@, batch as nat, lr);
    let ghost want_mask = stepped_mask(mask@, spectrum@, grad@, batch as nat, lr);
    proof {
        assert(1 * n <= batch * n) by (nonlinear_arith)
            requires
                1 <= batch,
                n >= 0,
        ;
    }
    let total: usize = grad.len();
    let norm = T::count(total);
    let share = T::count(1).over(T::count(20));
    let low = T::zero();
    let high = T::count(DISTILLED_MASK_TOP);
    let mut scale: Vec<T> = Vec::new();
    let mut bias: Vec<T> = Vec::new();
    let mut out: Vec<T> = Vec::new();
    let mut i: usize = 0;
    while i < n
        invariant
            i <= n,
            n == mask@.len(),
            n <= spectrum@.len(),
            grad@.len() == batch * n,
            total == grad@.len(),
            total >= 1,
            norm == T::counted(total),
            share == mask_share::<T>(),
            low == T::nought(),
            high == T::counted(DISTILLED_MASK_TOP),
            denoiser.scale@ == scale0,
            denoiser.bias@ == bias0,
            scale0.len() == n,
            bias0.len() == n,
            want_scale == stepped_scale(scale0, spectrum@, grad@, batch as nat, lr),
            want_bias == stepped_bias(bias0, grad@, batch as nat, lr),
            want_mask == stepped_mask(mask@, spectrum@, grad@, batch as nat, lr),
            scale@.len() == i,
            bias@.len() == i,
            out@.len() == i,
            forall|k: int| 0 <= k < i ==> #[trigger] scale@[k] == want_scale[k],
            forall|k: int| 0 <= k < i ==> #[trigger] bias@[k] == want_bias[k],
            forall|k: int| 0 <= k < i ==> #[trigger] out@[k] == want_mask[k],
        decreases n - i,
    {
        let gs = column_sum(grad, n, i, batch).over(norm);
        assert(gs == column_mean(grad@, n as int, i as int, batch as nat));
        scale.push(denoiser.scale[i].minus(lr.times(gs).times(spectrum[i])));
        bias.push(denoiser.bias[i].minus(lr.times(gs)));
        let moved = mask[i].minus(lr.times(share).times(gs).times(spectrum[i]));
        out.push(hold_within(moved, low, high));
        i += 1;
    }
    assert(scale@ =~= want_scale);
    assert(bias@ =~= want_bias);
    assert(out@ =~= want_mask);
    denoiser.scale = scale;
    denoiser.bias = bias;
    out
}

/// Two batches, number by number.
pub open spec fn products<T: Scalar>(a: Seq<T>, b: Seq<T>) -> Seq<T> {
    Seq::new(a.len(), |p: int| T::product(a[p], b[p]))
}

/// The mask of a routed model after a step, within its bounds.
pub open spec fn routed_mask<T: Divisible + Ordered>(
    mask: Seq<T>,
    masked: Seq<T>,
    grad: Seq<T>,
    batch: nat,
    lr: T,
) -> Seq<T> {
    Seq::new(
        mask.len(),
        |i: int|
            mask_held(
                T::difference(
                    mask[i],
                    T::quotient(
                        T::product(
                            T::product(lr, mask_share()),
                            bias_gradient(products(grad, masked), mask.len() as int, i, batch),
                        ),
                        T::counted(at_least_one((batch * mask.len()) as int)),
                    ),
                ),
                ROUTED_MASK_TOP,
            ),
    )
}

/// A step of the mask of a routed model, given the gradient of its spectrum and the masked spectrum.
pub fn step_routed_mask<T: Divisible + Ordered>(
    mask: &Vec<T>,
    masked: &Vec<T>,
    grad: &Vec<T>,
    batch: usize,
    lr: T,
) -> (r: Vec<T>)
    requires
        masked@.len() == batch * mask@.len(),
        grad@.len() == batch * mask@.len(),
    ensures
        r@ == routed_mask(mask@, masked@, grad@, batch as nat, lr),
{
    let n: usize = mask.len();
    let total: usize = grad.len();
    let norm = T::count(
        if total < 1 {
            1
        } else {
            total
        },
    );
    let share = T::count(1).over(T::count(20));
    let low = T::zero();
    let high = T::count(ROUTED_MASK_TOP);
    let mut both: Vec<T> = Vec::new();
    let mut p: usize = 0;
    while p < total
        invariant
            p <= total,
            total == grad@.len(),
            total == masked@.len(),
            both@.len() == p,
            forall|k: int| 0 <= k < p ==> #[trigger] both@[k] == products(grad@, masked@)[k],
        decreases total - p,
    {
        both.push(grad[p].times(masked[p]));
        p += 1;
    }
    assert(both@ =~= products(grad@, masked@));
    let ghost want = routed_mask(mask@, masked@, grad@, batch as nat, lr);
    let mut out: Vec<T> = Vec::new();
    let mut i: usize = 0;
    while i < n
        invariant
            i <= n,
            n == mask@.len(),
            both@ == products(grad@, masked@),
            both@.len() == batch * n,
            norm == T::counted(at_least_one(batch * n)),
            share == mask_share::<T>(),
            low == T::nought(),
            high == T::counted(ROUTED_MASK_TOP),
            want == routed_mask(mask@, masked@, grad@, batch as nat, lr),
            out@.len() == i,
            forall|k: int| 0 <= k < i ==> #[trigger] out@[k] == want[k],
        decreases n - i,
    {
        let gm = column_sum(&both, n, i, batch);
        let moved = mask[i].minus(lr.times(share).times(gm).over(norm));
        out.push(hold_within(moved, low, high));
        i += 1;
    }
    assert(out@ =~= want);
    out
}

/// The gradient that reaches the numbers of a transform through the middle of a band and the mask.
pub open spec fn middle_gradient<T: Divisible>(
    grad: Seq<T>,
    weights: Seq<T>,
    band_width: int,
    radius: int,
    mask: Seq<T>,
) -> Seq<T> {
    Seq::new(
        grad.len(),
        |p: int|
            {
                let i = p % (mask.len() as int);
                T::quotient(
                    T::product(
                        T::product(grad[p], weights[i * band_width + radius]),
                        mask[i],
                    ),
                    T::counted(at_least_one(grad.len() as int)),
                )
            },
    )
}

/// The gradient that reaches the numbers of a routed transform through the middle of its band and
/// its mask.
pub fn gradient_through_band<T: Divisible>(
    grad: &Vec<T>,
    band: &crate::band_correct::BandedCorrector<T>,
    mask: &Vec<T>,
) -> (r: Vec<T>)
    requires
        band.well_formed(),
        mask@.len() == band.n_bins,
        band.n_bins > 0,
    ensures
        r@ == middle_gradient(
            grad@,
            band.weights@,
            band.band_width as int,
            band.radius as int,
            mask@,
        ),
{
    let total: usize = grad.len();
    let n: usize = mask.len();
    let bw: usize = band.band_width;
    let radius: usize = band.radius;
    let weight_count: usize = band.weights.len();
    let norm = T::count(
        if total < 1 {
            1
        } else {
            total
        },
    );
    let ghost want = middle_gradient(grad@, band.weights@, bw as int, radius as int, mask@);
    let mut out: Vec<T> = Vec::new();
    let mut p: usize = 0;
    while p < total
        invariant
            p <= total,
            total == grad@.len(),
            n == mask@.len(),
            n > 0,
            n == band.n_bins,
            bw == band.band_width,
            radius == band.radius,
            band.well_formed(),
            weight_count == band.weights@.len(),
            norm == T::counted(at_least_one(total as int)),
            want == middle_gradient(grad@, band.weights@, bw as int, radius as int, mask@),
            out@.len() == p,
            forall|k: int| 0 <= k < p ==> #[trigger] out@[k] == want[k],
        decreases total - p,
    {
        let i: usize = p % n;
        proof {
            assert(i * bw + bw <= n * bw) by (nonlinear_arith)
                requires
                    i + 1 <= n,
                    bw >= 0,
            ;
            assert(0 <= i * bw) by (nonlinear_arith)
                requires
                    i >= 0,
                    bw >= 0,
            ;
        }
        out.push(grad[p].times(band.weights[i * bw + radius]).times(mask[i]).over(norm));
        p += 1;
    }
    assert(out@ =~= want);
    out
}

} // verus!

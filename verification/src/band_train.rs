//! Training of banded corrections: errors, gradients and update steps.

use crate::band_correct::{corrected, tap, BandedCorrector};
use crate::butterfly_train::zeros;
use crate::scalar::{Divisible, Scalar};
use vstd::prelude::*;

verus! {

/// The differences of two buffers.
pub open spec fn differences<T: Scalar>(a: Seq<T>, b: Seq<T>) -> Seq<T> {
    Seq::new(a.len(), |p: int| T::difference(a[p], b[p]))
}

/// The sum of the squares of the first `k` numbers.
pub open spec fn square_sum<T: Scalar>(e: Seq<T>, k: nat) -> T
    decreases k,
{
    if k == 0 {
        T::nought()
    } else {
        T::sum(square_sum(e, (k - 1) as nat), T::product(e[k - 1], e[k - 1]))
    }
}

/// The gradient of a bias over the first `k` rows: the sum of its errors.
pub open spec fn bias_gradient<T: Scalar>(e: Seq<T>, n: int, i: int, k: nat) -> T
    decreases k,
{
    if k == 0 {
        T::nought()
    } else {
        T::sum(bias_gradient(e, n, i, (k - 1) as nat), e[(k - 1) * n + i])
    }
}

/// The gradient of a weight over the first `k` rows: the sum of its errors times what its tap reads.
pub open spec fn weight_gradient<T: Scalar>(
    c: BandedCorrector<T>,
    x: Seq<T>,
    e: Seq<T>,
    w: int,
    k: nat,
) -> T
    decreases k,
{
    if k == 0 {
        T::nought()
    } else {
        let n = c.n_bins as int;
        let bw = c.band_width as int;
        let before = weight_gradient(c, x, e, w, (k - 1) as nat);
        match tap(n, c.radius as int, w / bw, w % bw) {
            Some(j) => T::sum(
                before,
                T::product(e[(k - 1) * n + w / bw], x[(k - 1) * n + j]),
            ),
            None => before,
        }
    }
}

/// The gradients of the biases.
pub open spec fn bias_gradients<T: Scalar>(e: Seq<T>, n: int, batch: nat) -> Seq<T> {
    Seq::new(n as nat, |i: int| bias_gradient(e, n, i, batch))
}

/// The gradients of the weights.
pub open spec fn weight_gradients<T: Scalar>(
    c: BandedCorrector<T>,
    x: Seq<T>,
    e: Seq<T>,
    batch: nat,
) -> Seq<T> {
    Seq::new(c.weights@.len(), |w: int| weight_gradient(c, x, e, w, batch))
}

proof fn lemma_band_index(i: int, t: int, n: int, bw: int)
    requires
        0 <= i < n,
        0 <= t < bw,
    ensures
        0 <= i * bw + t < n * bw,
        (i * bw + t) / bw == i,
        (i * bw + t) % bw == t,
        (i + 1) * bw == i * bw + bw,
{
    assert(i * bw == bw * i) by (nonlinear_arith);
    vstd::arithmetic::div_mod::lemma_fundamental_div_mod_converse(i * bw + t, bw, i, t);
    assert(0 <= i * bw) by (nonlinear_arith)
        requires
            0 <= i,
            0 <= bw,
    ;
    assert((i + 1) * bw == i * bw + bw) by (nonlinear_arith);
    assert((i + 1) * bw <= n * bw) by (nonlinear_arith)
        requires
            i + 1 <= n,
            0 <= bw,
    ;
}

proof fn lemma_row(b: int, batch: int, n: int)
    requires
        0 <= b < batch,
        0 <= n,
    ensures
        0 <= b * n,
        b * n + n <= batch * n,
{
    assert(0 <= b * n) by (nonlinear_arith)
        requires
            0 <= b,
            0 <= n,
    ;
    assert(b * n + n <= batch * n) by (nonlinear_arith)
        requires
            b + 1 <= batch,
            0 <= n,
    ;
}

/// The gradients of the weights and of the biases from the errors of a batch.
pub fn band_gradients<T: Scalar>(
    c: &BandedCorrector<T>,
    x: &Vec<T>,
    e: &Vec<T>,
    batch: usize,
) -> (r: (Vec<T>, Vec<T>))
    requires
        c.well_formed(),
        x.len() >= batch * c.n_bins,
        e.len() >= batch * c.n_bins,
    ensures
        r.0@ == weight_gradients(*c, x@, e@, batch as nat),
        r.1@ == bias_gradients(e@, c.n_bins as int, batch as nat),
{
    let n: usize = c.n_bins;
    let bw: usize = c.band_width;
    let count: usize = c.weights.len();
    let x_len: usize = x.len();
    let mut dw: Vec<T> = zeros(count);
    let mut db: Vec<T> = zeros(n);
    let mut b: usize = 0;
    while b < batch
        invariant
            b <= batch,
            c.well_formed(),
            n == c.n_bins,
            bw == c.band_width,
            count == c.weights.len(),
            x_len == x.len(),
            x_len >= batch * n,
            e.len() >= batch * n,
            dw.len() == count,
            db.len() == n,
            forall|i: int|
                0 <= i < n ==> (#[trigger] db@[i]) == bias_gradient(e@, n as int, i, b as nat),
            forall|w: int|
                0 <= w < count ==> (#[trigger] dw@[w]) == weight_gradient(*c, x@, e@, w, b as nat),
        decreases batch - b,
    {
        proof {
            lemma_row(b as int, batch as int, n as int);
        }
        let base: usize = b * n;
        let mut i: usize = 0;
        proof {
            assert(0 * bw == 0) by (nonlinear_arith);
        }
        while i < n
            invariant
                i <= n,
                b < batch,
                c.well_formed(),
                n == c.n_bins,
                bw == c.band_width,
                count == c.weights.len(),
                x_len == x.len(),
                x_len >= base + n,
                e.len() >= base + n,
                base == b * n,
                dw.len() == count,
                db.len() == n,
                forall|k: int|
                    0 <= k < n ==> (#[trigger] db@[k]) == bias_gradient(
                        e@,
                        n as int,
                        k,
                        if k < i {
                            (b + 1) as nat
                        } else {
                            b as nat
                        },
                    ),
                forall|w: int|
                    0 <= w < count ==> (#[trigger] dw@[w]) == weight_gradient(
                        *c,
                        x@,
                        e@,
                        w,
                        if w < i * bw {
                            (b + 1) as nat
                        } else {
                            b as nat
                        },
                    ),
            decreases n - i,
        {
            let d = e[base + i];
            let sum = db[i].plus(d);
            db.set(i, sum);
            proof {
                lemma_band_index(i as int, 0, n as int, bw as int);
            }
            let row: usize = i * bw;
            let mut t: usize = 0;
            while t < bw
                invariant
                    t <= bw,
                    i < n,
                    b < batch,
                    c.well_formed(),
                    n == c.n_bins,
                    bw == c.band_width,
                    count == c.weights.len(),
                    count == n * bw,
                    x_len == x.len(),
                    x_len >= base + n,
                    e.len() >= base + n,
                    base == b * n,
                    row == i * bw,
                    d == e@[b * n + i],
                    dw.len() == count,
                    forall|w: int|
                        0 <= w < count ==> (#[trigger] dw@[w]) == weight_gradient(
                            *c,
                            x@,
                            e@,
                            w,
                            if w < i * bw + t {
                                (b + 1) as nat
                            } else {
                                b as nat
                            },
                        ),
                decreases bw - t,
            {
                proof {
                    lemma_band_index(i as int, t as int, n as int, bw as int);
                }
                let ghost before = dw@;
                let w: usize = row + t;
                if let Some(j) = c.in_tap(i, t) {
                    let sum = dw[w].plus(d.times(x[base + j]));
                    dw.set(w, sum);
                }
                assert forall|k: int| 0 <= k < count implies (#[trigger] dw@[k])
                    == weight_gradient(
                    *c,
                    x@,
                    e@,
                    k,
                    if k < i * bw + t + 1 {
                        (b + 1) as nat
                    } else {
                        b as nat
                    },
                ) by {
                    if k != w {
                        assert(dw@[k] == before[k]);
                    } else {
                        assert(before[k] == weight_gradient(*c, x@, e@, k, b as nat));
                    }
                }
                t += 1;
            }
            proof {
                lemma_band_index(i as int, 0, n as int, bw as int);
            }
            i += 1;
        }
        b += 1;
    }
    assert(dw@ =~= weight_gradients(*c, x@, e@, batch as nat));
    assert(db@ =~= bias_gradients(e@, n as int, batch as nat));
    (dw, db)
}

/// Numbers after a step: each less its gradient times the rate, doubled, over the count.
pub open spec fn mean_descended<T: Divisible>(v: Seq<T>, grad: Seq<T>, lr: T, norm: T) -> Seq<T> {
    Seq::new(
        v.len(),
        |k: int|
            T::difference(
                v[k],
                T::quotient(T::product(T::product(lr, T::counted(2)), grad[k]), norm),
            ),
    )
}

fn mean_descend<T: Divisible>(v: &mut Vec<T>, grad: &Vec<T>, lr: T, norm: T)
    requires
        grad.len() == old(v).len(),
    ensures
        final(v)@ == mean_descended(old(v)@, grad@, lr, norm),
{
    let ghost given = v@;
    let rate = lr.times(T::count(2));
    let mut k: usize = 0;
    while k < v.len()
        invariant
            k <= v.len(),
            grad.len() == v.len(),
            given.len() == v.len(),
            rate == T::product(lr, T::counted(2)),
            forall|i: int|
                0 <= i < k ==> (#[trigger] v@[i]) == mean_descended(given, grad@, lr, norm)[i],
            forall|i: int| k <= i < v.len() ==> (#[trigger] v@[i]) == given[i],
        decreases v.len() - k,
    {
        let x = v[k].minus(rate.times(grad[k]).over(norm));
        v.set(k, x);
        k += 1;
    }
    assert(v@ =~= mean_descended(given, grad@, lr, norm));
}

/// What a training step is refused for.
#[derive(Debug, Clone, Copy, PartialEq, Eq, Structural)]
pub enum BandError {
    /// The lengths of the input and the target do not fit the batch.
    Lengths,
    /// The correction is for another size.
    Size,
}

/// What a training step of some lengths is refused for.
pub open spec fn band_fault(
    input: nat,
    target: nat,
    bins: usize,
    batch: usize,
    n_fft: usize,
) -> Option<BandError> {
    if input != target || input != batch * n_fft * 2 {
        Some(BandError::Lengths)
    } else if bins != 2 * n_fft {
        Some(BandError::Size)
    } else {
        None
    }
}

/// The errors of a correction, each divided by a count.
pub open spec fn scaled<T: Divisible>(g: Seq<T>, norm: T) -> Seq<T> {
    Seq::new(g.len(), |p: int| T::quotient(g[p], norm))
}

/// What a step of training a band towards a target gives: the mean squared error before the step.
pub open spec fn mse_result<T: Divisible>(
    before: BandedCorrector<T>,
    input: Seq<T>,
    target: Seq<T>,
    batch: usize,
    n_fft: usize,
) -> Result<T, BandError> {
    match band_fault(input.len(), target.len(), before.n_bins, batch, n_fft) {
        Some(e) => Err(e),
        None => {
            let errors = differences(corrected(before, input), target);
            Ok(
                T::quotient(
                    square_sum(errors, errors.len()),
                    T::counted((batch * n_fft * 2) as usize),
                ),
            )
        },
    }
}

/// Whether a step of training a band towards a target gives a result and leaves a band: nothing
/// where the lengths do not fit; else the mean squared error before the step, and every bias and
/// weight less its gradient.
pub open spec fn mse_step<T: Divisible>(
    before: BandedCorrector<T>,
    input: Seq<T>,
    target: Seq<T>,
    batch: usize,
    n_fft: usize,
    lr: T,
    r: Result<T, BandError>,
    after: BandedCorrector<T>,
) -> bool {
    match band_fault(input.len(), target.len(), before.n_bins, batch, n_fft) {
        Some(e) => r == Err::<T, BandError>(e) && after == before,
        None => {
            let errors = differences(corrected(before, input), target);
            let norm = T::counted((batch * n_fft * 2) as usize);
            &&& r == Ok::<T, BandError>(T::quotient(square_sum(errors, errors.len()), norm))
            &&& after.n_bins == before.n_bins
            &&& after.band_width == before.band_width
            &&& after.radius == before.radius
            &&& after.bias@ == mean_descended(
                before.bias@,
                bias_gradients(errors, before.n_bins as int, batch as nat),
                lr,
                norm,
            )
            &&& after.weights@ == mean_descended(
                before.weights@,
                weight_gradients(before, input, errors, batch as nat),
                lr,
                norm,
            )
            &&& after.well_formed()
        },
    }
}

/// Whether a step down a gradient of the spectrum leaves a band: every bias and weight less its
/// gradient.
pub open spec fn gradient_step<T: Divisible>(
    before: BandedCorrector<T>,
    input: Seq<T>,
    spec_grad: Seq<T>,
    batch: usize,
    n_fft: usize,
    lr: T,
    after: BandedCorrector<T>,
) -> bool {
    let count: usize = (batch * n_fft * 2) as usize;
    let e = scaled(
        spec_grad,
        T::counted(
            if count < 1 {
                1
            } else {
                count
            },
        ),
    );
    &&& after.n_bins == before.n_bins
    &&& after.band_width == before.band_width
    &&& after.radius == before.radius
    &&& after.bias@ == crate::butterfly_train::descended(
        before.bias@,
        bias_gradients(e, before.n_bins as int, batch as nat),
        lr,
    )
    &&& after.weights@ == crate::butterfly_train::descended(
        before.weights@,
        weight_gradients(before, input, e, batch as nat),
        lr,
    )
    &&& after.well_formed()
}

impl<T: Divisible> BandedCorrector<T> {
    /// One step of training towards a target: returns the mean squared error before it.
    pub fn train_step_mse(
        &mut self,
        input: &Vec<T>,
        target: &Vec<T>,
        batch: usize,
        n_fft: usize,
        lr: T,
    ) -> (r: Result<T, BandError>)
        requires
            old(self).well_formed(),
            batch * n_fft * 2 <= usize::MAX,
            2 * n_fft <= usize::MAX,
        ensures
            mse_step(*old(self), input@, target@, batch, n_fft, lr, r, *final(self)),
    {
        proof {
            assert(batch * n_fft <= batch * n_fft * 2) by (nonlinear_arith)
                requires
                    batch >= 0,
                    n_fft >= 0,
            ;
        }
        if input.len() != target.len() || input.len() != batch * n_fft * 2 {
            return Err(BandError::Lengths);
        }
        if self.n_bins != n_fft * 2 {
            return Err(BandError::Size);
        }
        let ghost before = *self;
        assert(batch * self.n_bins == batch * n_fft * 2) by (nonlinear_arith)
            requires
                self.n_bins == 2 * n_fft,
        ;
        match self.apply_batch(input, batch, n_fft) {
            None => Err(BandError::Size),
            Some(out) => {
                let norm = T::count(batch * n_fft * 2);
                let ghost errors = differences(out@, target@);
                let mut e: Vec<T> = Vec::new();
                let mut mse = T::zero();
                let mut p: usize = 0;
                while p < out.len()
                    invariant
                        p <= out.len(),
                        out.len() == target.len(),
                        errors == differences(out@, target@),
                        e@ == errors.take(p as int),
                        mse == square_sum(errors, p as nat),
                    decreases out.len() - p,
                {
                    let d = out[p].minus(target[p]);
                    mse = mse.plus(d.times(d));
                    e.push(d);
                    assert(e@ =~= errors.take(p + 1));
                    p += 1;
                }
                assert(e@ =~= errors);
                let (dw, db) = band_gradients(self, input, &e, batch);
                mean_descend(&mut self.bias, &db, lr, norm);
                mean_descend(&mut self.weights, &dw, lr, norm);
                Ok(mse.over(norm))
            },
        }
    }

    /// One step of training along a gradient of the corrected spectrum.
    pub fn train_step_spectrum_grad(
        &mut self,
        input: &Vec<T>,
        spec_grad: &Vec<T>,
        batch: usize,
        n_fft: usize,
        lr: T,
    )
        requires
            old(self).well_formed(),
            old(self).n_bins == 2 * n_fft,
            batch * n_fft * 2 <= usize::MAX,
            input.len() == batch * n_fft * 2,
            spec_grad.len() == batch * n_fft * 2,
        ensures
            gradient_step(*old(self), input@, spec_grad@, batch, n_fft, lr, *final(self)),
    {
        let len: usize = spec_grad.len();
        let norm = T::count(
            if len < 1 {
                1
            } else {
                len
            },
        );
        let ghost model = scaled(spec_grad@, norm);
        assert(batch * self.n_bins == batch * n_fft * 2) by (nonlinear_arith)
            requires
                self.n_bins == 2 * n_fft,
        ;
        let mut e: Vec<T> = Vec::new();
        let mut p: usize = 0;
        while p < len
            invariant
                p <= len,
                len == spec_grad.len(),
                model == scaled(spec_grad@, norm),
                e@ == model.take(p as int),
            decreases len - p,
        {
            e.push(spec_grad[p].over(norm));
            assert(e@ =~= model.take(p + 1));
            p += 1;
        }
        assert(e@ =~= model);
        let (dw, db) = band_gradients(self, input, &e, batch);
        crate::butterfly_train::descend(&mut self.bias, &db, lr);
        crate::butterfly_train::descend(&mut self.weights, &dw, lr);
    }
}

} // verus!

//! Corrections of spectra: windows, masks, affine and banded maps, and how they deploy.

use crate::band_correct::{
    corrected, dense_weight, fitted_radius, tap, tap_sum, BandedCorrector, DEFAULT_BAND_RADIUS,
    SPECTRUM_BAND_RADIUS,
};
use crate::band_train::{gradient_step, mse_result, mse_step, BandError};
use crate::butterfly_train::copy_buffer;
use crate::deploy_graph::affine;
use crate::fourier::{all_valid, lemma_product_nought, Ring};
use crate::graph::{added, dot, matrix_product, multiplied};
use crate::scalar::{Divisible, Scalar};
use crate::ternary_gates::CorrectorKind;
use vstd::prelude::*;

verus! {

// ---------------------------------------------------------------------------
// Rows
// ---------------------------------------------------------------------------

/// Weighs every row of a batch: a window over signals, or a mask over spectra.
pub fn weigh_rows<T: Scalar>(v: &Vec<T>, weights: &Vec<T>) -> (r: Vec<T>)
    requires
        weights@.len() > 0,
    ensures
        r@ == multiplied(v@, weights@),
{
    let mut out: Vec<T> = Vec::new();
    let mut i: usize = 0;
    while i < v.len()
        invariant
            i <= v.len(),
            weights@.len() > 0,
            out@.len() == i,
            forall|k: int| 0 <= k < i ==> #[trigger] out@[k] == multiplied(v@, weights@)[k],
        decreases v.len() - i,
    {
        out.push(v[i].times(weights[i % weights.len()]));
        i += 1;
    }
    assert(out@ =~= multiplied(v@, weights@));
    out
}

/// A batch of signals under a window.
pub fn window_batch<T: Scalar>(signal: &Vec<T>, window: &Vec<T>, batch: usize, n_fft: usize) -> (r:
    Vec<T>)
    requires
        n_fft > 0,
        window@.len() == n_fft,
        signal@.len() == batch * n_fft,
    ensures
        r@ == multiplied(signal@, window@),
{
    weigh_rows(signal, window)
}

/// The power of the bins up to the middle.
pub open spec fn powers<T: Scalar>(spectrum: Seq<T>, n_fft: int) -> Seq<T> {
    Seq::new(
        (n_fft / 2 + 1) as nat,
        |k: int|
            T::sum(
                T::product(spectrum[2 * k], spectrum[2 * k]),
                T::product(spectrum[2 * k + 1], spectrum[2 * k + 1]),
            ),
    )
}

/// The power of the bins of a spectrum up to the middle.
pub fn spectrum_to_power<T: Scalar>(interleaved: &Vec<T>, n_fft: usize) -> (r: Vec<T>)
    requires
        interleaved@.len() >= 2 * (n_fft / 2 + 1),
    ensures
        r@ == powers(interleaved@, n_fft as int),
{
    let n_bins: usize = n_fft / 2 + 1;
    let len: usize = interleaved.len();
    let mut p: Vec<T> = Vec::new();
    let mut k: usize = 0;
    while k < n_bins
        invariant
            k <= n_bins,
            n_bins == n_fft / 2 + 1,
            len == interleaved@.len(),
            len >= 2 * n_bins,
            p@.len() == k,
            forall|q: int| 0 <= q < k ==> #[trigger] p@[q] == powers(interleaved@, n_fft as int)[q],
        decreases n_bins - k,
    {
        let re = interleaved[2 * k];
        let im = interleaved[2 * k + 1];
        p.push(re.times(re).plus(im.times(im)));
        k += 1;
    }
    assert(p@ =~= powers(interleaved@, n_fft as int));
    p
}

/// The first `k` bins through a filter.
pub open spec fn filtered<T: Scalar>(power: Seq<T>, filters: Seq<T>, n_bins: int, m: int, k: nat) -> T
    decreases k,
{
    if k == 0 {
        T::nought()
    } else {
        T::sum(
            filtered(power, filters, n_bins, m, (k - 1) as nat),
            T::product(filters[m * n_bins + (k - 1)], power[k - 1]),
        )
    }
}

/// The power that each filter lets through, before its logarithm is taken.
pub fn mel_sums<T: Scalar>(power: &Vec<T>, filters: &Vec<T>, n_mels: usize, n_bins: usize) -> (r:
    Vec<T>)
    requires
        power@.len() >= n_bins,
        filters@.len() == n_mels * n_bins,
    ensures
        r@.len() == n_mels,
        forall|m: int|
            0 <= m < n_mels ==> #[trigger] r@[m] == filtered(
                power@,
                filters@,
                n_bins as int,
                m,
                n_bins as nat,
            ),
{
    let mut out: Vec<T> = Vec::new();
    let mut m: usize = 0;
    while m < n_mels
        invariant
            m <= n_mels,
            power@.len() >= n_bins,
            filters.len() == n_mels * n_bins,
            out@.len() == m,
            forall|q: int|
                0 <= q < m ==> #[trigger] out@[q] == filtered(
                    power@,
                    filters@,
                    n_bins as int,
                    q,
                    n_bins as nat,
                ),
        decreases n_mels - m,
    {
        let count: usize = filters.len();
        proof {
            assert(m * n_bins + n_bins <= n_mels * n_bins) by (nonlinear_arith)
                requires
                    m + 1 <= n_mels,
                    n_bins >= 0,
            ;
            assert(0 <= m * n_bins) by (nonlinear_arith)
                requires
                    m >= 0,
                    n_bins >= 0,
            ;
        }
        let row: usize = m * n_bins;
        let mut acc = T::zero();
        let mut k: usize = 0;
        while k < n_bins
            invariant
                k <= n_bins,
                power@.len() >= n_bins,
                count == filters@.len(),
                row == m * n_bins,
                row + n_bins <= count,
                acc == filtered(power@, filters@, n_bins as int, m as int, k as nat),
            decreases n_bins - k,
        {
            acc = acc.plus(filters[row + k].times(power[k]));
            k += 1;
        }
        out.push(acc);
        m += 1;
    }
    out
}

// ---------------------------------------------------------------------------
// Corrections
// ---------------------------------------------------------------------------

/// A gain and a bias for every number of a spectrum.
#[derive(Debug)]
pub struct SpectrumDenoiser<T> {
    pub scale: Vec<T>,
    pub bias: Vec<T>,
}

/// As many copies of a number.
pub(crate) fn filled_with<T: Scalar>(x: T, n: usize) -> (r: Vec<T>)
    ensures
        r@ == Seq::new(n as nat, |i: int| x),
{
    let mut out: Vec<T> = Vec::new();
    let mut i: usize = 0;
    while i < n
        invariant
            i <= n,
            out@.len() == i,
            forall|k: int| 0 <= k < i ==> #[trigger] out@[k] == x,
        decreases n - i,
    {
        out.push(x);
        i += 1;
    }
    assert(out@ =~= Seq::new(n as nat, |i: int| x));
    out
}

impl<T: Scalar> SpectrumDenoiser<T> {
    pub open spec fn well_formed(&self) -> bool {
        &&& self.scale@.len() == self.bias@.len()
        &&& self.scale@.len() > 0
    }

    /// Gain one and no bias.
    pub fn identity(n_fft: usize) -> (r: SpectrumDenoiser<T>)
        requires
            2 * n_fft <= usize::MAX,
        ensures
            r.scale@ == Seq::new((2 * n_fft) as nat, |i: int| T::unit()),
            r.bias@ == Seq::new((2 * n_fft) as nat, |i: int| T::nought()),
    {
        SpectrumDenoiser {
            scale: filled_with(T::one(), 2 * n_fft),
            bias: filled_with(T::zero(), 2 * n_fft),
        }
    }

    /// Corrects a batch of spectra; `None` where the lengths do not fit.
    pub fn apply_batch(&self, spectrum: &Vec<T>, batch: usize, n_fft: usize) -> (r: Option<Vec<T>>)
        requires
            self.well_formed(),
            batch * n_fft * 2 <= usize::MAX,
            2 * n_fft <= usize::MAX,
        ensures
            if spectrum@.len() == batch * n_fft * 2 && self.scale@.len() == 2 * n_fft {
                r matches Some(v) && v@ == affine(spectrum@, self.scale@, self.bias@)
            } else {
                r is None
            },
    {
        proof {
            assert(batch * n_fft <= batch * n_fft * 2) by (nonlinear_arith)
                requires
                    batch >= 0,
                    n_fft >= 0,
            ;
        }
        if spectrum.len() != batch * n_fft * 2 || self.scale.len() != 2 * n_fft {
            return None;
        }
        let n: usize = self.scale.len();
        let ghost want = affine(spectrum@, self.scale@, self.bias@);
        let mut out: Vec<T> = Vec::new();
        let mut i: usize = 0;
        while i < spectrum.len()
            invariant
                i <= spectrum.len(),
                n > 0,
                n == self.scale@.len(),
                n == self.bias@.len(),
                want == affine(spectrum@, self.scale@, self.bias@),
                out@.len() == i,
                forall|k: int| 0 <= k < i ==> #[trigger] out@[k] == want[k],
            decreases spectrum.len() - i,
        {
            let c: usize = i % n;
            out.push(spectrum[i].times(self.scale[c]).plus(self.bias[c]));
            i += 1;
        }
        assert(out@ =~= want);
        Some(out)
    }
}

/// What stands between a routed transform and the spectrum that it is meant to give.
#[derive(Debug)]
pub enum SpectrumCorrection<T> {
    Identity,
    Affine(SpectrumDenoiser<T>),
    Band(BandedCorrector<T>),
}

/// The half-width that a corrector of a kind asks for.
pub open spec fn half_width(kind: CorrectorKind, n_fft: int, mel_path: bool) -> int {
    match kind {
        CorrectorKind::Identity | CorrectorKind::Affine => 0,
        CorrectorKind::BandNarrow => DEFAULT_BAND_RADIUS as int,
        CorrectorKind::BandWide => if mel_path {
            DEFAULT_BAND_RADIUS as int
        } else {
            SPECTRUM_BAND_RADIUS as int
        },
        CorrectorKind::Dense => 2 * n_fft - 1,
    }
}

/// The half-width of the band that a corrector of a kind starts with: a full band for the dense one,
/// else what fits the bins.
pub open spec fn started_radius(kind: CorrectorKind, n_fft: int, mel_path: bool) -> int {
    if kind is Dense {
        half_width(kind, n_fft, mel_path)
    } else {
        fitted_radius(2 * n_fft, half_width(kind, n_fft, mel_path))
    }
}

/// Whether a correction is one of a kind that changes nothing yet. The mel path has the narrower
/// band.
pub open spec fn fresh<T: Scalar>(
    c: SpectrumCorrection<T>,
    kind: CorrectorKind,
    n_fft: int,
    mel_path: bool,
) -> bool {
    match kind {
        CorrectorKind::Identity => c is Identity,
        CorrectorKind::Affine => c matches SpectrumCorrection::Affine(d) && d.scale@ == Seq::new(
            (2 * n_fft) as nat,
            |i: int| T::unit(),
        ) && d.bias@ == Seq::new((2 * n_fft) as nat, |i: int| T::nought()),
        _ => c matches SpectrumCorrection::Band(b) && b.is_identity() && b.n_bins == 2 * n_fft
            && b.radius == started_radius(kind, n_fft, mel_path),
    }
}

impl<T: Scalar> SpectrumCorrection<T> {
    /// Whether the parts fit spectra of a length.
    pub open spec fn fits(&self, n_fft: int) -> bool {
        match *self {
            SpectrumCorrection::Identity => true,
            SpectrumCorrection::Affine(d) => d.well_formed() && d.scale@.len() == 2 * n_fft,
            SpectrumCorrection::Band(b) => b.well_formed() && b.n_bins == 2 * n_fft,
        }
    }

    /// What the correction makes of spectra.
    pub open spec fn of(&self, v: Seq<T>) -> Seq<T> {
        match *self {
            SpectrumCorrection::Identity => v,
            SpectrumCorrection::Affine(d) => affine(v, d.scale@, d.bias@),
            SpectrumCorrection::Band(b) => corrected(b, v),
        }
    }

    /// A correction of a kind that changes nothing yet. The mel path has the narrower band.
    pub fn from_kind(kind: CorrectorKind, n_fft: usize, mel_path: bool) -> (r: SpectrumCorrection<T>)
        requires
            n_fft > 0,
            n_fft * 2 * (2 * half_width(kind, n_fft as int, mel_path) + 1) <= usize::MAX,
        ensures
            r.fits(n_fft as int),
            fresh(r, kind, n_fft as int, mel_path),
    {
        proof {
            let h = half_width(kind, n_fft as int, mel_path);
            assert(n_fft * 2 <= n_fft * 2 * (2 * h + 1)) by (nonlinear_arith)
                requires
                    n_fft >= 0,
                    h >= 0,
            ;
        }
        match kind {
            CorrectorKind::Identity => SpectrumCorrection::Identity,
            CorrectorKind::Affine => SpectrumCorrection::Affine(SpectrumDenoiser::identity(n_fft)),
            CorrectorKind::BandNarrow => SpectrumCorrection::Band(BandedCorrector::identity(n_fft)),
            CorrectorKind::BandWide => if mel_path {
                SpectrumCorrection::Band(BandedCorrector::identity(n_fft))
            } else {
                SpectrumCorrection::Band(BandedCorrector::identity_spectrum(n_fft))
            },
            CorrectorKind::Dense => SpectrumCorrection::Band(BandedCorrector::identity_dense(n_fft)),
        }
    }

    /// Corrects a batch of spectra; `None` where the lengths do not fit.
    pub fn apply_batch(&self, spectrum: &Vec<T>, batch: usize, n_fft: usize) -> (r: Option<Vec<T>>)
        requires
            self.fits(n_fft as int),
            batch * n_fft * 2 <= usize::MAX,
            2 * n_fft <= usize::MAX,
        ensures
            if self is Identity || spectrum@.len() == batch * n_fft * 2 {
                r matches Some(v) && v@ == self.of(spectrum@)
            } else {
                r is None
            },
    {
        match self {
            SpectrumCorrection::Identity => Some(copy_buffer(spectrum)),
            SpectrumCorrection::Affine(d) => d.apply_batch(spectrum, batch, n_fft),
            SpectrumCorrection::Band(b) => b.apply_batch(spectrum, batch, n_fft),
        }
    }

    /// The dense matrix of a band with a mask in front of it.
    pub fn dense_rhs_with_freq_mask(&self, freq_mask: &Vec<T>) -> (r: Option<Vec<T>>)
        requires
            self matches SpectrumCorrection::Band(b) ==> b.well_formed() && freq_mask@.len()
                == b.n_bins && b.n_bins * b.n_bins <= usize::MAX,
        ensures
            match *self {
                SpectrumCorrection::Band(b) => r matches Some(v) && is_dense(
                    b,
                    Some(freq_mask@),
                    v@,
                ),
                _ => r is None,
            },
    {
        match self {
            SpectrumCorrection::Band(b) => Some(b.dense_rhs_with_freq_mask(freq_mask)),
            _ => None,
        }
    }

    /// The bias, where there is one.
    pub fn bias(&self) -> (r: Option<Vec<T>>)
        ensures
            match *self {
                SpectrumCorrection::Affine(d) => r matches Some(v) && v@ == d.bias@,
                SpectrumCorrection::Band(b) => r matches Some(v) && v@ == b.bias@,
                SpectrumCorrection::Identity => r is None,
            },
    {
        match self {
            SpectrumCorrection::Affine(d) => Some(copy_buffer(&d.bias)),
            SpectrumCorrection::Band(b) => Some(copy_buffer(&b.bias)),
            SpectrumCorrection::Identity => None,
        }
    }

    /// The gain and the bias of an affine correction.
    pub fn affine_gain_bias(&self) -> (r: Option<(Vec<T>, Vec<T>)>)
        ensures
            match *self {
                SpectrumCorrection::Affine(d) => r matches Some(v) && v.0@ == d.scale@ && v.1@
                    == d.bias@,
                _ => r is None,
            },
    {
        match self {
            SpectrumCorrection::Affine(d) => Some((copy_buffer(&d.scale), copy_buffer(&d.bias))),
            _ => None,
        }
    }

    /// The matrix and the bias that a deployed graph corrects with, with the mask folded in; `None`
    /// for an affine correction, which deploys as a gain and a bias.
    pub fn bake_band(&self, freq_mask: &Vec<T>) -> (r: Option<(Vec<T>, Vec<T>)>)
        requires
            freq_mask@.len() * freq_mask@.len() <= usize::MAX,
            self matches SpectrumCorrection::Band(b) ==> b.well_formed() && freq_mask@.len()
                == b.n_bins,
        ensures
            match *self {
                SpectrumCorrection::Band(b) => r matches Some(v) && is_dense(
                    b,
                    Some(freq_mask@),
                    v.0@,
                ) && v.1@ == b.bias@,
                SpectrumCorrection::Identity => r matches Some(v) && v.0@ == diagonal(freq_mask@)
                    && v.1@ == Seq::new(freq_mask@.len(), |i: int| T::nought()),
                SpectrumCorrection::Affine(d) => r is None,
            },
    {
        match self {
            SpectrumCorrection::Band(b) => Some(
                (b.dense_rhs_with_freq_mask(freq_mask), copy_buffer(&b.bias)),
            ),
            SpectrumCorrection::Identity => Some(
                (spread_diagonal(freq_mask), filled_with(T::zero(), freq_mask.len())),
            ),
            SpectrumCorrection::Affine(d) => None,
        }
    }
}

/// Whether a step of training towards a target makes one correction of another: a band moves, and the
/// identity has nothing to learn. An affine correction takes no such step.
pub open spec fn fitted_step<T: Divisible>(
    before: SpectrumCorrection<T>,
    input: Seq<T>,
    target: Seq<T>,
    batch: usize,
    n_fft: usize,
    lr: T,
    after: SpectrumCorrection<T>,
) -> bool {
    match before {
        SpectrumCorrection::Band(b) => after matches SpectrumCorrection::Band(c) && mse_step(
            b,
            input,
            target,
            batch,
            n_fft,
            lr,
            mse_result(b, input, target, batch, n_fft),
            c,
        ),
        SpectrumCorrection::Identity => after is Identity,
        SpectrumCorrection::Affine(_) => false,
    }
}

/// How a step of training a correction towards a target went.
#[derive(Debug)]
pub enum FitOutcome<T> {
    /// The step was taken; the mean squared error before it.
    Fitted(T),
    /// The lengths do not fit; nothing was changed.
    Refused(BandError),
    /// An affine correction is fitted by its own means; nothing was changed, and the step is owed.
    AffineOwed,
}

impl<T: Divisible> SpectrumCorrection<T> {
    /// A step of training towards a target: a band moves and gives the mean squared error before the
    /// step, the identity has nothing to learn, and the step of an affine correction is left to the
    /// caller.
    pub fn train_step_mse(
        &mut self,
        input: &Vec<T>,
        target: &Vec<T>,
        batch: usize,
        n_fft: usize,
        lr: T,
    ) -> (r: FitOutcome<T>)
        requires
            old(self).fits(n_fft as int),
            batch * n_fft * 2 <= usize::MAX,
            2 * n_fft <= usize::MAX,
        ensures
            match *old(self) {
                SpectrumCorrection::Identity => r == FitOutcome::Fitted(T::nought()),
                SpectrumCorrection::Affine(d) => r is AffineOwed,
                SpectrumCorrection::Band(b) => match mse_result(b, input@, target@, batch, n_fft) {
                    Ok(error) => r == FitOutcome::Fitted(error),
                    Err(e) => r == FitOutcome::<T>::Refused(e),
                },
            },
            r is Fitted ==> fitted_step(
                *old(self),
                input@,
                target@,
                batch,
                n_fft,
                lr,
                *final(self),
            ),
            !(r is Fitted) ==> *final(self) == *old(self),
    {
        match self {
            SpectrumCorrection::Identity => FitOutcome::Fitted(T::zero()),
            SpectrumCorrection::Affine(_) => FitOutcome::AffineOwed,
            SpectrumCorrection::Band(b) => match b.train_step_mse(input, target, batch, n_fft, lr) {
                Ok(error) => FitOutcome::Fitted(error),
                Err(e) => FitOutcome::Refused(e),
            },
        }
    }

    /// A step down a gradient of the spectrum: a band moves, all else stays.
    pub fn train_step_spectrum_grad(
        &mut self,
        input: &Vec<T>,
        spec_grad: &Vec<T>,
        batch: usize,
        n_fft: usize,
        lr: T,
    )
        requires
            old(self).fits(n_fft as int),
            batch * n_fft * 2 <= usize::MAX,
            input@.len() == batch * n_fft * 2,
            spec_grad@.len() == batch * n_fft * 2,
        ensures
            match *old(self) {
                SpectrumCorrection::Band(b) => *final(self) matches SpectrumCorrection::Band(c)
                    && gradient_step(
                    b,
                    input@,
                    spec_grad@,
                    batch,
                    n_fft,
                    lr,
                    c,
                ),
                _ => *final(self) == *old(self),
            },
    {
        match self {
            SpectrumCorrection::Band(b) => {
                b.train_step_spectrum_grad(input, spec_grad, batch, n_fft, lr);
            },
            _ => {},
        }
    }
}

/// A matrix with a buffer on its diagonal and nothing beside it.
pub open spec fn diagonal<T: Scalar>(v: Seq<T>) -> Seq<T> {
    Seq::new(
        v.len() * v.len(),
        |p: int|
            if p / (v.len() as int) == p % (v.len() as int) {
                v[p % (v.len() as int)]
            } else {
                T::nought()
            },
    )
}

fn spread_diagonal<T: Scalar>(v: &Vec<T>) -> (r: Vec<T>)
    requires
        v@.len() * v@.len() <= usize::MAX,
    ensures
        r@ == diagonal(v@),
{
    let n: usize = v.len();
    let total: usize = n * n;
    let mut out: Vec<T> = Vec::new();
    let mut p: usize = 0;
    while p < total
        invariant
            p <= total,
            n == v@.len(),
            total == n * n,
            out@.len() == p,
            forall|k: int| 0 <= k < p ==> #[trigger] out@[k] == diagonal(v@)[k],
        decreases total - p,
    {
        assert(n > 0) by (nonlinear_arith)
            requires
                p < n * n,
                n >= 0,
                p >= 0,
        ;
        if p / n == p % n {
            out.push(v[p % n]);
        } else {
            out.push(T::zero());
        }
        p += 1;
    }
    assert(out@ =~= diagonal(v@));
    out
}

/// Whether a matrix is the dense form of a band.
pub open spec fn is_dense<T: Scalar>(c: BandedCorrector<T>, mask: Option<Seq<T>>, w: Seq<T>) -> bool {
    &&& w.len() == c.n_bins * c.n_bins
    &&& forall|j: int, i: int|
        0 <= j < c.n_bins && 0 <= i < c.n_bins ==> #[trigger] w[j * c.n_bins + i] == dense_weight(
            c,
            mask,
            j,
            i,
        )
}

/// The gain and the bias of a mask followed by a denoiser.
pub fn correction_params<T: Scalar>(freq_mask: &Vec<T>, denoiser: &SpectrumDenoiser<T>) -> (r: (
    Vec<T>,
    Vec<T>,
))
    requires
        denoiser.well_formed(),
        freq_mask@.len() == denoiser.scale@.len(),
    ensures
        r.0@ == multiplied(freq_mask@, denoiser.scale@),
        r.1@ == denoiser.bias@,
{
    (weigh_rows(freq_mask, &denoiser.scale), copy_buffer(&denoiser.bias))
}

/// Masks a batch of spectra and denoises it.
pub fn correct_spectrum<T: Scalar>(
    spectrum: &Vec<T>,
    freq_mask: &Vec<T>,
    denoiser: &SpectrumCorrection<T>,
    batch: usize,
    n_fft: usize,
) -> (r: Option<Vec<T>>)
    requires
        n_fft > 0,
        freq_mask@.len() == 2 * n_fft,
        denoiser.fits(n_fft as int),
        batch * n_fft * 2 <= usize::MAX,
    ensures
        if denoiser is Identity || spectrum@.len() == batch * n_fft * 2 {
            r matches Some(v) && v@ == denoiser.of(multiplied(spectrum@, freq_mask@))
        } else {
            r is None
        },
{
    let masked = weigh_rows(spectrum, freq_mask);
    assert(2 * n_fft <= usize::MAX) by {
        assert(freq_mask.len() <= usize::MAX);
    }
    denoiser.apply_batch(&masked, batch, n_fft)
}

// ---------------------------------------------------------------------------
// Laws
// ---------------------------------------------------------------------------

/// Over the numbers of a ring the folded gain and bias correct as the mask followed by the denoiser.
pub proof fn folded_correction_agrees<T: Ring>(
    v: Seq<T>,
    mask: Seq<T>,
    scale: Seq<T>,
    bias: Seq<T>,
)
    requires
        mask.len() > 0,
        mask.len() == scale.len(),
        all_valid(v),
        all_valid(mask),
        all_valid(scale),
    ensures
        affine(v, multiplied(mask, scale), bias) == affine(multiplied(v, mask), scale, bias),
{
    let n = mask.len() as int;
    let left = affine(v, multiplied(mask, scale), bias);
    let right = affine(multiplied(v, mask), scale, bias);
    assert forall|p: int| 0 <= p < v.len() implies left[p] == right[p] by {
        let c = p % n;
        vstd::arithmetic::div_mod::lemma_small_mod(c as nat, n as nat);
        T::product_associates(v[p], mask[c], scale[c]);
    }
    assert(left =~= right);
}

/// The inputs with their mask, where there is one.
pub open spec fn weighed<T: Scalar>(v: Seq<T>, mask: Option<Seq<T>>) -> Seq<T> {
    match mask {
        Some(m) => multiplied(v, m),
        None => v,
    }
}

/// The taps that are read before an input.
spec fn taps_before<T: Scalar>(c: BandedCorrector<T>, i: int, k: int) -> int {
    let t = k - i + c.radius;
    if t < 0 {
        0
    } else if t > c.band_width {
        c.band_width as int
    } else {
        t
    }
}

proof fn lemma_silent_taps<T: Scalar>(
    c: BandedCorrector<T>,
    x: Seq<T>,
    base: int,
    i: int,
    from: nat,
    to: nat,
)
    requires
        from <= to,
        forall|t: int|
            from <= t < to ==> #[trigger] tap(c.n_bins as int, c.radius as int, i, t) is None,
    ensures
        tap_sum(c, x, base, i, to) == tap_sum(c, x, base, i, from),
    decreases to - from,
{
    if from < to {
        assert(tap(c.n_bins as int, c.radius as int, i, to - 1) is None);
        lemma_silent_taps(c, x, base, i, from, (to - 1) as nat);
    }
}

/// Whether the numbers of a band are valid.
pub open spec fn band_valid<T: Ring>(c: BandedCorrector<T>) -> bool {
    all_valid(c.weights@) && all_valid(c.bias@)
}

proof fn lemma_dense_sum<T: Ring>(
    c: BandedCorrector<T>,
    mask: Option<Seq<T>>,
    x: Seq<T>,
    w: Seq<T>,
    row: int,
    rows: int,
    i: int,
    k: nat,
)
    requires
        c.well_formed(),
        band_valid(c),
        is_dense(c, mask, w),
        0 <= row < rows,
        x.len() == rows * c.n_bins,
        all_valid(x),
        mask matches Some(m) ==> m.len() == c.n_bins && all_valid(m),
        0 <= i < c.n_bins,
        k <= c.n_bins,
    ensures
        T::valid(dot(x, w, row, c.n_bins as int, c.n_bins as int, i, k)),
        T::sum(dot(x, w, row, c.n_bins as int, c.n_bins as int, i, k), c.bias@[i]) == tap_sum(
            c,
            weighed(x, mask),
            row * c.n_bins,
            i,
            taps_before(c, i, k as int) as nat,
        ),
    decreases k,
{
    let n = c.n_bins as int;
    let y = weighed(x, mask);
    let base = row * n;
    let bias = c.bias@[i];
    T::closed();
    assert(T::valid(bias));
    if k == 0 {
        T::sum_commutes(T::nought(), bias);
        T::sum_with_nought(bias);
        let t = taps_before(c, i, 0);
        assert forall|u: int| 0 <= u < t implies #[trigger] tap(n, c.radius as int, i, u) is None by {
        }
        lemma_silent_taps(c, y, base, i, 0, t as nat);
    } else {
        let j = k - 1;
        lemma_dense_sum(c, mask, x, w, row, rows, i, (k - 1) as nat);
        let before = dot(x, w, row, n, n, i, (k - 1) as nat);
        assert(base + n <= rows * n) by (nonlinear_arith)
            requires
                base == row * n,
                row + 1 <= rows,
                n >= 0,
        ;
        assert(0 <= base) by (nonlinear_arith)
            requires
                base == row * n,
                row >= 0,
                n >= 0,
        ;
        let a = x[row * n + j];
        let d = w[j * n + i];
        assert(d == dense_weight(c, mask, j, i));
        assert(T::valid(a));
        let t = j - i + c.radius;
        if 0 <= t < c.band_width {
            let at = i * c.band_width + t;
            assert(0 <= at < n * c.band_width) by (nonlinear_arith)
                requires
                    at == i * c.band_width + t,
                    0 <= t < c.band_width,
                    0 <= i < n,
            ;
            let g = c.weights@[at];
            assert(T::valid(g));
            assert(tap(n, c.radius as int, i, t) == Some(j));
            let here = T::product(a, d);
            assert(T::product(g, y[base + j]) == here && T::valid(here)) by {
                match mask {
                    Some(m) => {
                        let q = base + j;
                        assert(q == n * row + j) by (nonlinear_arith)
                            requires
                                q == row * n + j,
                        ;
                        vstd::arithmetic::div_mod::lemma_fundamental_div_mod_converse(
                            q,
                            n,
                            row,
                            j,
                        );
                        assert(T::valid(m[j]));
                        T::product_commutes(a, T::product(g, m[j]));
                        T::product_associates(g, m[j], a);
                        T::product_commutes(m[j], a);
                    },
                    None => {
                        T::product_commutes(a, d);
                    },
                }
            }
            T::sum_associates(before, here, bias);
            T::sum_commutes(here, bias);
            T::sum_associates(before, bias, here);
        } else {
            assert(d == T::nought());
            lemma_product_nought(a);
            T::sum_with_nought(before);
        }
    }
}

/// Over the numbers of a ring the product with the dense form of a band, and its bias, is what the
/// band makes of the masked input: a deployed graph corrects as the model does.
pub proof fn dense_form_computes_the_band<T: Ring>(
    c: BandedCorrector<T>,
    mask: Option<Seq<T>>,
    x: Seq<T>,
    w: Seq<T>,
    rows: nat,
)
    requires
        c.well_formed(),
        c.n_bins > 0,
        all_valid(c.weights@),
        all_valid(c.bias@),
        is_dense(c, mask, w),
        x.len() == rows * c.n_bins,
        all_valid(x),
        mask matches Some(m) ==> m.len() == c.n_bins && all_valid(m),
    ensures
        added(matrix_product(x, w, c.n_bins as int, c.n_bins as int), c.bias@) == corrected(
            c,
            weighed(x, mask),
        ),
{
    let n = c.n_bins as int;
    let y = weighed(x, mask);
    let left = added(matrix_product(x, w, n, n), c.bias@);
    let right = corrected(c, y);
    assert(x.len() == n * rows + 0) by (nonlinear_arith)
        requires
            x.len() == rows * n,
    ;
    vstd::arithmetic::div_mod::lemma_fundamental_div_mod_converse(
        x.len() as int,
        n,
        rows as int,
        0,
    );
    assert(left.len() == x.len());
    assert forall|p: int| 0 <= p < x.len() implies left[p] == right[p] by {
        let row = p / n;
        let i = p % n;
        vstd::arithmetic::div_mod::lemma_fundamental_div_mod(p, n);
        vstd::arithmetic::div_mod::lemma_mod_bound(p, n);
        assert(row < rows) by (nonlinear_arith)
            requires
                p == n * row + i,
                p < rows * n,
                i >= 0,
                n > 0,
        ;
        assert(row >= 0) by (nonlinear_arith)
            requires
                p == n * row + i,
                p >= 0,
                i < n,
                n > 0,
        ;
        lemma_dense_sum(c, mask, x, w, row, rows as int, i, n as nat);
        let t = taps_before(c, i, n);
        assert forall|u: int| t <= u < c.band_width implies #[trigger] tap(
            n,
            c.radius as int,
            i,
            u,
        ) is None by {
        }
        lemma_silent_taps(c, y, row * n, i, t as nat, c.band_width as nat);
    }
    assert(left =~= right);
}

/// Whether numbers come through sums with noughts and products with one unchanged: a nought times any
/// of them vanishes in a sum, and one times any of them, added to nought, is that number. The numbers
/// of a ring do, and so do finite floating-point numbers but negative zero.
pub open spec fn undisturbed<T: Scalar>(x: Seq<T>) -> bool {
    &&& forall|i: int|
        0 <= i < x.len() ==> T::sum(T::nought(), T::product(T::nought(), #[trigger] x[i]))
            == T::nought()
    &&& forall|i: int|
        0 <= i < x.len() ==> T::sum(T::nought(), T::product(T::unit(), #[trigger] x[i])) == x[i]
    &&& forall|i: int, j: int|
        0 <= i < x.len() && 0 <= j < x.len() ==> T::sum(
            #[trigger] x[i],
            T::product(T::nought(), #[trigger] x[j]),
        ) == x[i]
}

/// The numbers of a ring come through sums with noughts and products with one unchanged.
pub proof fn ring_numbers_are_undisturbed<T: Ring>(x: Seq<T>)
    requires
        all_valid(x),
    ensures
        undisturbed(x),
{
    T::closed();
    assert forall|i: int| 0 <= i < x.len() implies T::sum(
        T::nought(),
        T::product(T::nought(), #[trigger] x[i]),
    ) == T::nought() && T::sum(T::nought(), T::product(T::unit(), x[i])) == x[i] by {
        let v = x[i];
        assert(T::valid(v));
        T::product_commutes(T::nought(), v);
        lemma_product_nought(v);
        T::sum_with_nought(T::nought());
        T::product_commutes(T::unit(), v);
        T::product_with_unit(v);
        T::sum_commutes(T::nought(), v);
        T::sum_with_nought(v);
    }
    assert forall|i: int, j: int| 0 <= i < x.len() && 0 <= j < x.len() implies T::sum(
        #[trigger] x[i],
        T::product(T::nought(), #[trigger] x[j]),
    ) == x[i] by {
        assert(T::valid(x[i]) && T::valid(x[j]));
        T::product_commutes(T::nought(), x[j]);
        lemma_product_nought(x[j]);
        T::sum_with_nought(x[i]);
    }
}

/// A band that starts as the identity gives spectra back unchanged.
pub proof fn identity_band_passes_through<T: Scalar>(c: BandedCorrector<T>, x: Seq<T>, rows: nat)
    requires
        c.well_formed(),
        c.is_identity(),
        c.n_bins > 0,
        x.len() == rows * c.n_bins,
        undisturbed(x),
    ensures
        corrected(c, x) == x,
{
    let n = c.n_bins as int;
    let out = corrected(c, x);
    assert forall|p: int| 0 <= p < x.len() implies out[p] == x[p] by {
        let row = p / n;
        let i = p % n;
        vstd::arithmetic::div_mod::lemma_fundamental_div_mod(p, n);
        vstd::arithmetic::div_mod::lemma_mod_bound(p, n);
        assert(n * row == row * n) by (nonlinear_arith);
        assert(row < rows) by (nonlinear_arith)
            requires
                p == n * row + i,
                p < rows * n,
                i >= 0,
                n > 0,
        ;
        assert(row >= 0) by (nonlinear_arith)
            requires
                p == n * row + i,
                p >= 0,
                i < n,
                n > 0,
        ;
        lemma_identity_taps(c, x, row, rows as int, i, c.band_width as nat);
    }
    assert(out =~= x);
}

proof fn lemma_identity_taps<T: Scalar>(
    c: BandedCorrector<T>,
    x: Seq<T>,
    row: int,
    rows: int,
    i: int,
    k: nat,
)
    requires
        c.well_formed(),
        c.is_identity(),
        0 <= row < rows,
        x.len() == rows * c.n_bins,
        undisturbed(x),
        0 <= i < c.n_bins,
        k <= c.band_width,
    ensures
        tap_sum(c, x, row * c.n_bins, i, k) == if k > c.radius {
            x[row * c.n_bins + i]
        } else {
            T::nought()
        },
    decreases k,
{
    let n = c.n_bins as int;
    let base = row * n;
    assert(base + n <= rows * n) by (nonlinear_arith)
        requires
            base == row * n,
            row + 1 <= rows,
            n >= 0,
    ;
    assert(0 <= base) by (nonlinear_arith)
        requires
            base == row * n,
            row >= 0,
            n >= 0,
    ;
    let own = x[base + i];
    if k > 0 {
        let t = k - 1;
        lemma_identity_taps(c, x, row, rows, i, (k - 1) as nat);
        let before = tap_sum(c, x, base, i, (k - 1) as nat);
        assert(c.weights@[i * c.band_width + t] == if t == c.radius {
            T::unit()
        } else {
            T::nought()
        });
        match tap(n, c.radius as int, i, t) {
            Some(j) => {
                let v = x[base + j];
                if t < c.radius {
                    assert(T::sum(T::nought(), T::product(T::nought(), v)) == T::nought());
                } else if t == c.radius {
                    assert(T::sum(T::nought(), T::product(T::unit(), v)) == v);
                } else {
                    assert(T::sum(own, T::product(T::nought(), v)) == own);
                }
            },
            None => {},
        }
    }
}

} // verus!

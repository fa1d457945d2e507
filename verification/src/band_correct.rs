//! Banded correction of a spectrum: which numbers each output is made of, and the dense form.

use crate::arith::{least, min_usize};
use crate::scalar::Scalar;
use vstd::prelude::*;

verus! {

/// Half-width of the band on the mel path.
pub const DEFAULT_BAND_RADIUS: usize = 32;

/// Half-width of the band on the spectrum path.
pub const SPECTRUM_BAND_RADIUS: usize = 96;

/// The half-width that fits a number of bins.
pub open spec fn fitted_radius(n_bins: int, half_width: int) -> int {
    least(
        half_width,
        if n_bins > 0 {
            (n_bins - 1) / 2
        } else {
            0
        },
    )
}

fn band_radius(n_bins: usize, half_width: usize) -> (r: usize)
    ensures
        r == fitted_radius(n_bins as int, half_width as int),
{
    min_usize(half_width, n_bins.saturating_sub(1) / 2)
}

/// A banded map with a bias: each output is a bias and a weighted sum of the inputs around it.
#[derive(Debug)]
pub struct BandedCorrector<T> {
    pub n_bins: usize,
    pub band_width: usize,
    pub radius: usize,
    pub weights: Vec<T>,
    pub bias: Vec<T>,
}

/// The input that a tap of an output reads, where it is one.
pub open spec fn tap(n_bins: int, radius: int, i: int, t: int) -> Option<int> {
    let j = i + t - radius;
    if 0 <= j < n_bins {
        Some(j)
    } else {
        None
    }
}

/// The sum of the first `k` taps of an output, from a start.
pub open spec fn tap_sum<T: Scalar>(
    c: BandedCorrector<T>,
    x: Seq<T>,
    base: int,
    i: int,
    k: nat,
) -> T
    decreases k,
{
    if k == 0 {
        c.bias@[i]
    } else {
        let before = tap_sum(c, x, base, i, (k - 1) as nat);
        match tap(c.n_bins as int, c.radius as int, i, k - 1) {
            Some(j) => T::sum(
                before,
                T::product(c.weights@[i * c.band_width + (k - 1)], x[base + j]),
            ),
            None => before,
        }
    }
}

/// A batch of spectra with the correction applied.
pub open spec fn corrected<T: Scalar>(c: BandedCorrector<T>, x: Seq<T>) -> Seq<T> {
    Seq::new(
        x.len(),
        |p: int|
            {
                let n = c.n_bins as int;
                tap_sum(c, x, (p / n) * n, p % n, c.band_width as nat)
            },
    )
}

impl<T: Scalar> BandedCorrector<T> {
    /// Whether the band fits the bins and the buffers fit the band.
    pub open spec fn well_formed(&self) -> bool {
        &&& self.band_width == 2 * self.radius + 1
        &&& self.radius < self.n_bins || self.radius == 0
        &&& self.weights.len() == self.n_bins * self.band_width
        &&& self.bias.len() == self.n_bins
    }

    /// Whether every output is its own input: weight one in the middle, zero beside, no bias.
    pub open spec fn is_identity(&self) -> bool {
        &&& forall|i: int| 0 <= i < self.n_bins ==> #[trigger] self.bias@[i] == T::nought()
        &&& forall|i: int, t: int|
            0 <= i < self.n_bins && 0 <= t < self.band_width ==> #[trigger] self.weights@[i
                * self.band_width + t] == if t == self.radius {
                T::unit()
            } else {
                T::nought()
            }
    }

    /// Whether a tap of an output reads an input.
    pub open spec fn reaches(&self, i: int, j: int) -> bool {
        exists|t: int|
            0 <= t < self.band_width && #[trigger] tap(self.n_bins as int, self.radius as int, i, t)
                == Some(j)
    }

    /// Whether every output has a tap for every input.
    pub open spec fn is_full(&self) -> bool {
        forall|i: int, j: int|
            0 <= i < self.n_bins && 0 <= j < self.n_bins ==> #[trigger] self.reaches(i, j)
    }

    /// The identity with the band of the mel path.
    pub fn identity(n_fft: usize) -> (r: BandedCorrector<T>)
        requires
            n_fft * 2 * (2 * DEFAULT_BAND_RADIUS + 1) <= usize::MAX,
        ensures
            r.well_formed(),
            r.is_identity(),
            r.n_bins == 2 * n_fft,
            r.radius == fitted_radius(2 * n_fft, DEFAULT_BAND_RADIUS as int),
    {
        BandedCorrector::identity_with_radius(n_fft, DEFAULT_BAND_RADIUS)
    }

    /// The identity with the wide band of the spectrum path.
    pub fn identity_spectrum(n_fft: usize) -> (r: BandedCorrector<T>)
        requires
            n_fft * 2 * (2 * SPECTRUM_BAND_RADIUS + 1) <= usize::MAX,
        ensures
            r.well_formed(),
            r.is_identity(),
            r.n_bins == 2 * n_fft,
            r.radius == fitted_radius(2 * n_fft, SPECTRUM_BAND_RADIUS as int),
    {
        BandedCorrector::identity_with_radius(n_fft, SPECTRUM_BAND_RADIUS)
    }

    /// The identity with a full band: every output has a tap for every input, so that the dense form
    /// of the band can be any matrix.
    pub fn identity_dense(n_fft: usize) -> (r: BandedCorrector<T>)
        requires
            n_fft * 2 * (4 * n_fft - 1) <= usize::MAX,
        ensures
            r.well_formed(),
            r.is_identity(),
            r.n_bins == 2 * n_fft,
            n_fft > 0 ==> r.radius == r.n_bins - 1 && r.band_width == 2 * r.n_bins - 1,
            r.is_full(),
    {
        assert(n_fft * 2 <= n_fft * 2 * (4 * n_fft - 1)) by (nonlinear_arith)
            requires
                n_fft >= 0,
        ;
        let n_bins: usize = n_fft * 2;
        let radius: usize = n_bins.saturating_sub(1);
        assert(n_bins * (2 * radius + 1) <= n_fft * 2 * (4 * n_fft - 1)) by (nonlinear_arith)
            requires
                n_bins == n_fft * 2,
                n_fft > 0 ==> radius == n_bins - 1,
                n_fft >= 0,
        ;
        assert(n_fft > 0 ==> 2 * radius + 1 <= n_bins * (2 * radius + 1)) by (nonlinear_arith)
            requires
                n_bins == n_fft * 2,
                radius >= 0,
        ;
        let r = BandedCorrector::identity_band(n_bins, radius);
        proof {
            assert forall|i: int, j: int| 0 <= i < r.n_bins && 0 <= j < r.n_bins implies #[trigger] r.reaches(
                i,
                j,
            ) by {
                assert(tap(r.n_bins as int, r.radius as int, i, j - i + r.radius) == Some(j));
            }
        }
        r
    }

    fn identity_with_radius(n_fft: usize, half_width: usize) -> (r: BandedCorrector<T>)
        requires
            n_fft * 2 * (2 * half_width + 1) <= usize::MAX,
        ensures
            r.well_formed(),
            r.is_identity(),
            r.n_bins == 2 * n_fft,
            r.radius == fitted_radius(2 * n_fft, half_width as int),
    {
        assert(n_fft * 2 <= n_fft * 2 * (2 * half_width + 1)) by (nonlinear_arith)
            requires
                n_fft >= 0,
                half_width >= 0,
        ;
        let n_bins: usize = n_fft * 2;
        let radius: usize = band_radius(n_bins, half_width);
        assert(n_bins * (2 * radius + 1) <= n_fft * 2 * (2 * half_width + 1)) by (nonlinear_arith)
            requires
                n_bins == n_fft * 2,
                radius <= half_width,
        ;
        BandedCorrector::identity_band(n_bins, radius)
    }

    fn identity_band(n_bins: usize, radius: usize) -> (r: BandedCorrector<T>)
        requires
            n_bins * (2 * radius + 1) <= usize::MAX,
            2 * radius + 1 <= usize::MAX,
            radius < n_bins || radius == 0,
        ensures
            r.well_formed(),
            r.is_identity(),
            r.n_bins == n_bins,
            r.radius == radius,
    {
        let band_width: usize = radius * 2 + 1;
        let mut weights: Vec<T> = Vec::new();
        let mut bias: Vec<T> = Vec::new();
        let mut i: usize = 0;
        assert(0 * band_width == 0) by (nonlinear_arith);
        while i < n_bins
            invariant
                i <= n_bins,
                band_width == 2 * radius + 1,
                weights.len() == i * band_width,
                bias.len() == i,
                forall|a: int| 0 <= a < i ==> #[trigger] bias@[a] == T::nought(),
                forall|a: int, t: int|
                    0 <= a < i && 0 <= t < band_width ==> #[trigger] weights@[a * band_width + t]
                        == if t == radius {
                        T::unit()
                    } else {
                        T::nought()
                    },
            decreases n_bins - i,
        {
            let ghost start = weights@;
            let mut t: usize = 0;
            while t < band_width
                invariant
                    t <= band_width,
                    weights@.len() == start.len() + t,
                    start.len() == i * band_width,
                    forall|q: int| 0 <= q < start.len() ==> #[trigger] weights@[q] == start[q],
                    forall|q: int|
                        0 <= q < t ==> #[trigger] weights@[start.len() + q] == if q == radius {
                            T::unit()
                        } else {
                            T::nought()
                        },
                decreases band_width - t,
            {
                if t == radius {
                    weights.push(T::one());
                } else {
                    weights.push(T::zero());
                }
                t += 1;
            }
            bias.push(T::zero());
            proof {
                assert((i + 1) * band_width == i * band_width + band_width) by (nonlinear_arith);
                assert forall|a: int, u: int| 0 <= a < i + 1 && 0 <= u < band_width implies #[trigger] weights@[a
                    * band_width + u] == (if u == radius {
                    T::unit()
                } else {
                    T::nought()
                }) by {
                    if a < i {
                        assert(a * band_width + u < i * band_width) by (nonlinear_arith)
                            requires
                                a + 1 <= i,
                                u < band_width,
                                band_width > 0,
                        ;
                        assert(0 <= a * band_width + u) by (nonlinear_arith)
                            requires
                                a >= 0,
                                u >= 0,
                                band_width > 0,
                        ;
                        assert(weights@[a * band_width + u] == start[a * band_width + u]);
                    } else {
                        assert(weights@[start.len() + u] == weights@[a * band_width + u]);
                    }
                }
            }
            i += 1;
        }
        BandedCorrector { n_bins, band_width, radius, weights, bias }
    }

    /// The input that a tap of an output reads.
    pub fn in_tap(&self, i: usize, t: usize) -> (r: Option<usize>)
        requires
            i < self.n_bins,
            t < self.band_width,
            self.well_formed(),
        ensures
            match tap(self.n_bins as int, self.radius as int, i as int, t as int) {
                Some(j) => r == Some(j as usize),
                None => r is None,
            },
    {
        if t < self.radius {
            let back: usize = self.radius - t;
            if back <= i {
                Some(i - back)
            } else {
                None
            }
        } else {
            let ahead: usize = t - self.radius;
            if ahead < self.n_bins - i {
                Some(i + ahead)
            } else {
                None
            }
        }
    }

    /// Applies the correction to a batch of spectra; `None` where the lengths do not fit.
    pub fn apply_batch(&self, spectrum: &Vec<T>, batch: usize, n_fft: usize) -> (r: Option<Vec<T>>)
        requires
            self.well_formed(),
            batch * n_fft * 2 <= usize::MAX,
            2 * n_fft <= usize::MAX,
        ensures
            if spectrum@.len() == batch * n_fft * 2 && self.n_bins == 2 * n_fft {
                r matches Some(v) && v@ == corrected(*self, spectrum@)
            } else {
                r is None
            },
    {
        proof {
            assert(batch * n_fft <= batch * n_fft * 2) by (nonlinear_arith)
                requires
                    batch >= 0,
                    n_fft >= 0,
            ;
        }
        if spectrum.len() != batch * n_fft * 2 || self.n_bins != n_fft * 2 {
            return None;
        }
        let n: usize = self.n_bins;
        let bw: usize = self.band_width;
        let weight_count: usize = self.weights.len();
        let mut out: Vec<T> = Vec::new();
        let mut b: usize = 0;
        assert(0 * n == 0) by (nonlinear_arith);
        assert(batch * n == batch * n_fft * 2) by (nonlinear_arith)
            requires
                n == 2 * n_fft,
        ;
        while b < batch
            invariant
                b <= batch,
                n == self.n_bins,
                bw == self.band_width,
                self.well_formed(),
                weight_count == self.weights.len(),
                spectrum.len() == batch * n,
                out.len() == b * n,
                forall|p: int|
                    0 <= p < out.len() ==> #[trigger] out@[p] == corrected(*self, spectrum@)[p],
            decreases batch - b,
        {
            proof {
                assert(b * n + n <= batch * n) by (nonlinear_arith)
                    requires
                        b + 1 <= batch,
                        n >= 0,
                ;
                assert(0 <= b * n) by (nonlinear_arith)
                    requires
                        b >= 0,
                        n >= 0,
                ;
            }
            let base: usize = b * n;
            let mut i: usize = 0;
            while i < n
                invariant
                    i <= n,
                    n == self.n_bins,
                    bw == self.band_width,
                    self.well_formed(),
                    weight_count == self.weights.len(),
                    base == b * n,
                    base + n <= spectrum.len(),
                    out.len() == base + i,
                    forall|p: int|
                        0 <= p < out.len() ==> #[trigger] out@[p] == corrected(
                            *self,
                            spectrum@,
                        )[p],
                decreases n - i,
            {
                let mut acc = self.bias[i];
                proof {
                    assert(i * bw + bw <= n * bw) by (nonlinear_arith)
                        requires
                            i + 1 <= n,
                            bw >= 0,
                    ;
                    assert(0 <= i * bw) by (nonlinear_arith)
                        requires
                            i >= 0,
                            bw >= 0,
                    ;
                }
                let row: usize = i * bw;
                let mut t: usize = 0;
                while t < bw
                    invariant
                        t <= bw,
                        i < n,
                        n == self.n_bins,
                        bw == self.band_width,
                        self.well_formed(),
                        row == i * bw,
                        row + bw <= self.weights.len(),
                        base + n <= spectrum.len(),
                        acc == tap_sum(*self, spectrum@, base as int, i as int, t as nat),
                    decreases bw - t,
                {
                    if let Some(j) = self.in_tap(i, t) {
                        acc = acc.plus(self.weights[row + t].times(spectrum[base + j]));
                    }
                    t += 1;
                }
                proof {
                    let p = base + i;
                    vstd::arithmetic::div_mod::lemma_fundamental_div_mod_converse(
                        p,
                        n as int,
                        b as int,
                        i as int,
                    );
                }
                out.push(acc);
                i += 1;
            }
            assert((b + 1) * n == b * n + n) by (nonlinear_arith);
            b += 1;
        }
        assert(out@ =~= corrected(*self, spectrum@));
        Some(out)
    }

    /// The dense matrix of the band, for products from the right.
    pub fn dense_rhs_matrix(&self) -> (r: Vec<T>)
        requires
            self.well_formed(),
            self.n_bins * self.n_bins <= usize::MAX,
        ensures
            r.len() == self.n_bins * self.n_bins,
            forall|j: int, i: int|
                0 <= j < self.n_bins && 0 <= i < self.n_bins ==> #[trigger] r@[j * self.n_bins + i]
                    == dense_weight(*self, None, j, i),
    {
        self.dense(None)
    }

    /// The dense matrix of the band with the inputs weighted by a mask.
    pub fn dense_rhs_with_freq_mask(&self, freq_mask: &Vec<T>) -> (r: Vec<T>)
        requires
            self.well_formed(),
            freq_mask.len() == self.n_bins,
            self.n_bins * self.n_bins <= usize::MAX,
        ensures
            r.len() == self.n_bins * self.n_bins,
            forall|j: int, i: int|
                0 <= j < self.n_bins && 0 <= i < self.n_bins ==> #[trigger] r@[j * self.n_bins + i]
                    == dense_weight(*self, Some(freq_mask@), j, i),
    {
        self.dense(Some(freq_mask))
    }

    fn dense(&self, freq_mask: Option<&Vec<T>>) -> (r: Vec<T>)
        requires
            self.well_formed(),
            freq_mask matches Some(m) ==> m.len() == self.n_bins,
            self.n_bins * self.n_bins <= usize::MAX,
        ensures
            r.len() == self.n_bins * self.n_bins,
            forall|j: int, i: int|
                0 <= j < self.n_bins && 0 <= i < self.n_bins ==> #[trigger] r@[j * self.n_bins + i]
                    == dense_weight(*self, mask_view(freq_mask), j, i),
    {
        let n: usize = self.n_bins;
        let bw: usize = self.band_width;
        let mut out: Vec<T> = Vec::new();
        let mut z: usize = 0;
        assert(0 * n == 0) by (nonlinear_arith);
        while z < n
            invariant
                z <= n,
                n == self.n_bins,
                bw == self.band_width,
                self.well_formed(),
                freq_mask matches Some(m) ==> m.len() == n,
                out.len() == z * n,
                forall|j: int, i: int|
                    0 <= j < z && 0 <= i < n ==> #[trigger] out@[j * n + i] == dense_weight(
                        *self,
                        mask_view(freq_mask),
                        j,
                        i,
                    ),
            decreases n - z,
        {
            let ghost start = out@;
            let mut i: usize = 0;
            while i < n
                invariant
                    i <= n,
                    z < n,
                    n == self.n_bins,
                    bw == self.band_width,
                    self.well_formed(),
                    freq_mask matches Some(m) ==> m.len() == n,
                    start.len() == z * n,
                    out.len() == start.len() + i,
                    forall|q: int| 0 <= q < start.len() ==> #[trigger] out@[q] == start[q],
                    forall|q: int|
                        0 <= q < i ==> #[trigger] out@[start.len() + q] == dense_weight(
                            *self,
                            mask_view(freq_mask),
                            z as int,
                            q,
                        ),
                decreases n - i,
            {
                proof {
                    assert(i * bw + bw <= n * bw) by (nonlinear_arith)
                        requires
                            i + 1 <= n,
                            bw >= 0,
                    ;
                    assert(0 <= i * bw) by (nonlinear_arith)
                        requires
                            i >= 0,
                            bw >= 0,
                    ;
                }
                let v = if z >= i {
                    let d: usize = z - i;
                    if d <= self.radius {
                        masked(self.weights[i * bw + (d + self.radius)], freq_mask, z)
                    } else {
                        T::zero()
                    }
                } else {
                    let d: usize = i - z;
                    if d <= self.radius {
                        masked(self.weights[i * bw + (self.radius - d)], freq_mask, z)
                    } else {
                        T::zero()
                    }
                };
                out.push(v);
                i += 1;
            }
            proof {
                assert((z + 1) * n == z * n + n) by (nonlinear_arith);
                assert forall|j: int, i: int| 0 <= j < z + 1 && 0 <= i < n implies #[trigger] out@[j
                    * n + i] == dense_weight(*self, mask_view(freq_mask), j, i) by {
                    if j < z {
                        assert(j * n + i < z * n) by (nonlinear_arith)
                            requires
                                j + 1 <= z,
                                i < n,
                                n > 0,
                        ;
                        assert(0 <= j * n + i) by (nonlinear_arith)
                            requires
                                j >= 0,
                                i >= 0,
                                n > 0,
                        ;
                        assert(out@[j * n + i] == start[j * n + i]);
                    } else {
                        assert(out@[start.len() + i] == out@[j * n + i]);
                    }
                }
            }
            z += 1;
        }
        out
    }
}

/// The view of an optional mask.
pub open spec fn mask_view<T>(m: Option<&Vec<T>>) -> Option<Seq<T>> {
    match m {
        Some(v) => Some(v@),
        None => None,
    }
}

fn masked<T: Scalar>(w: T, mask: Option<&Vec<T>>, j: usize) -> (r: T)
    requires
        mask matches Some(m) ==> j < m.len(),
    ensures
        r == match mask_view(mask) {
            Some(m) => T::product(w, m[j as int]),
            None => w,
        },
{
    match mask {
        Some(m) => w.times(m[j]),
        None => w,
    }
}

/// The weight by which an output reads an input, times the input's mask where there is one; nothing
/// outside the band.
pub open spec fn dense_weight<T: Scalar>(
    c: BandedCorrector<T>,
    mask: Option<Seq<T>>,
    j: int,
    i: int,
) -> T {
    let t = j - i + c.radius;
    if 0 <= t < c.band_width {
        let w = c.weights@[i * c.band_width + t];
        match mask {
            Some(m) => T::product(w, m[j]),
            None => w,
        }
    } else {
        T::nought()
    }
}

/// A tap and the dense matrix agree on which input an output reads.
pub proof fn taps_match_the_dense_form(n_bins: int, radius: int, i: int, j: int)
    requires
        radius >= 0,
        0 <= i < n_bins,
        0 <= j < n_bins,
    ensures
        forall|t: int| #[trigger] tap(n_bins, radius, i, t) == Some(j) <==> t == j - i + radius,
{
}

} // verus!

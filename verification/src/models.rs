//! Models of a learned transform and of its distilled students: what they hold, and what they make
//! of a transform's output.

use crate::ablation_ternary::TernaryArchConfig;
use crate::arith::{power_of_two, twos};
use crate::band_train::gradient_step;
use crate::butterfly_train::copy_buffer;
use crate::deploy_graph::affine;
use crate::graph::multiplied;
use crate::mel_train::{step_routed_mask, stepped_bias, stepped_mask, stepped_scale, routed_mask};
use crate::scalar::{Divisible, Ordered, Scalar};
use crate::spectral::{
    correct_spectrum, correction_params, filled_with, fitted_step, fresh, half_width, weigh_rows, FitOutcome, SpectrumCorrection,
    SpectrumDenoiser,
};
use crate::ternary_gates::{
    all_forward_gates, apply_layout, count_code, gate_mode_counts, laid_out, spectrum_gates,
    sync_spec_gates_for_layout, CorrectorKind, GateLayout, GateMode,
};
use vstd::prelude::*;

verus! {

/// A learned transform with a mask and a denoiser behind it.
#[derive(Debug)]
pub struct FastLearnedFftModel<T> {
    pub n_fft: usize,
    pub n_mels: usize,
    pub twiddles: Vec<T>,
    pub gates: Vec<T>,
    pub freq_mask: Vec<T>,
    pub denoiser: SpectrumDenoiser<T>,
    pub mel_filters: Vec<T>,
}

/// Ones, as many as a spectrum has numbers.
pub open spec fn open_mask<T: Scalar>(n_fft: int) -> Seq<T> {
    Seq::new((2 * n_fft) as nat, |i: int| T::unit())
}

/// Whether a mask and a denoiser fit a size.
pub open spec fn mask_fits<T: Scalar>(n_fft: usize, mask: Seq<T>, denoiser: SpectrumDenoiser<T>) -> bool {
    &&& n_fft > 0
    &&& mask.len() == 2 * n_fft
    &&& denoiser.well_formed()
    &&& denoiser.scale@.len() == 2 * n_fft
}

impl<T: Scalar> FastLearnedFftModel<T> {
    pub open spec fn well_formed(&self) -> bool {
        mask_fits(self.n_fft, self.freq_mask@, self.denoiser)
    }

    /// A model with given twiddles, gates and filters, an open mask and a denoiser that changes
    /// nothing.
    pub fn new(n_fft: usize, n_mels: usize, twiddles: Vec<T>, gates: Vec<T>, mel_filters: Vec<T>) -> (r:
        FastLearnedFftModel<T>)
        requires
            n_fft > 0,
            2 * n_fft <= usize::MAX,
        ensures
            r.well_formed(),
            r.n_fft == n_fft,
            r.n_mels == n_mels,
            r.twiddles@ == twiddles@,
            r.gates@ == gates@,
            r.mel_filters@ == mel_filters@,
            r.freq_mask@ == open_mask::<T>(n_fft as int),
            r.denoiser.scale@ == open_mask::<T>(n_fft as int),
            r.denoiser.bias@ == Seq::new((2 * n_fft) as nat, |i: int| T::nought()),
    {
        let freq_mask = filled_with(T::one(), 2 * n_fft);
        assert(freq_mask@ =~= open_mask::<T>(n_fft as int));
        let denoiser = SpectrumDenoiser::identity(n_fft);
        assert(denoiser.scale@ =~= open_mask::<T>(n_fft as int));
        FastLearnedFftModel { n_fft, n_mels, twiddles, gates, freq_mask, denoiser, mel_filters }
    }

    /// What the model makes of the output of its transform: masked, and denoised where that is asked
    /// for; `None` where the length does not fit.
    pub fn forward_spectrum(&self, transformed: &Vec<T>, batch: usize, apply_denoiser: bool) -> (r:
        Option<Vec<T>>)
        requires
            self.well_formed(),
            batch * self.n_fft * 2 <= usize::MAX,
        ensures
            if transformed@.len() != batch * self.n_fft * 2 {
                r is None
            } else if apply_denoiser {
                r matches Some(v) && v@ == affine(
                    multiplied(transformed@, self.freq_mask@),
                    self.denoiser.scale@,
                    self.denoiser.bias@,
                )
            } else {
                r matches Some(v) && v@ == multiplied(transformed@, self.freq_mask@)
            },
    {
        proof {
            assert(batch * self.n_fft <= batch * self.n_fft * 2) by (nonlinear_arith)
                requires
                    batch >= 0,
                    self.n_fft >= 0,
            ;
        }
        if transformed.len() != batch * self.n_fft * 2 {
            return None;
        }
        let spec = weigh_rows(transformed, &self.freq_mask);
        assert(self.freq_mask.len() <= usize::MAX);
        if apply_denoiser {
            self.denoiser.apply_batch(&spec, batch, self.n_fft)
        } else {
            Some(spec)
        }
    }
}

/// A student that corrects an exact transform.
#[derive(Debug)]
pub struct DistilledFftModel<T> {
    pub n_fft: usize,
    pub n_mels: usize,
    pub freq_mask: Vec<T>,
    pub denoiser: SpectrumDenoiser<T>,
    pub mel_filters: Vec<T>,
}

impl<T: Scalar> DistilledFftModel<T> {
    pub open spec fn well_formed(&self) -> bool {
        mask_fits(self.n_fft, self.freq_mask@, self.denoiser)
    }

    /// A student that changes nothing yet.
    pub fn new(n_fft: usize, n_mels: usize, mel_filters: Vec<T>) -> (r: DistilledFftModel<T>)
        requires
            n_fft > 0,
            2 * n_fft <= usize::MAX,
        ensures
            r.well_formed(),
            r.n_fft == n_fft,
            r.n_mels == n_mels,
            r.mel_filters@ == mel_filters@,
            r.freq_mask@ == open_mask::<T>(n_fft as int),
            r.denoiser.scale@ == open_mask::<T>(n_fft as int),
            r.denoiser.bias@ == Seq::new((2 * n_fft) as nat, |i: int| T::nought()),
    {
        let freq_mask = filled_with(T::one(), 2 * n_fft);
        assert(freq_mask@ =~= open_mask::<T>(n_fft as int));
        let denoiser = SpectrumDenoiser::identity(n_fft);
        assert(denoiser.scale@ =~= open_mask::<T>(n_fft as int));
        DistilledFftModel { n_fft, n_mels, freq_mask, denoiser, mel_filters }
    }

    /// A student that starts from the mask and the denoiser of its teacher.
    pub fn from_teacher(teacher: &FastLearnedFftModel<T>) -> (r: DistilledFftModel<T>)
        requires
            teacher.well_formed(),
        ensures
            r.well_formed(),
            r.n_fft == teacher.n_fft,
            r.n_mels == teacher.n_mels,
            r.freq_mask@ == teacher.freq_mask@,
            r.denoiser.scale@ == teacher.denoiser.scale@,
            r.denoiser.bias@ == teacher.denoiser.bias@,
            r.mel_filters@ == teacher.mel_filters@,
    {
        DistilledFftModel {
            n_fft: teacher.n_fft,
            n_mels: teacher.n_mels,
            freq_mask: copy_buffer(&teacher.freq_mask),
            denoiser: SpectrumDenoiser {
                scale: copy_buffer(&teacher.denoiser.scale),
                bias: copy_buffer(&teacher.denoiser.bias),
            },
            mel_filters: copy_buffer(&teacher.mel_filters),
        }
    }

    /// The corrected spectra of a batch, given the exact ones; `None` where the length does not fit.
    pub fn correct_fft_spectrum(&self, spectrum: &Vec<T>, batch: usize) -> (r: Option<Vec<T>>)
        requires
            self.well_formed(),
            batch * self.n_fft * 2 <= usize::MAX,
        ensures
            if spectrum@.len() == batch * self.n_fft * 2 {
                r matches Some(v) && v@ == affine(
                    multiplied(spectrum@, self.freq_mask@),
                    self.denoiser.scale@,
                    self.denoiser.bias@,
                )
            } else {
                r is None
            },
    {
        let masked = weigh_rows(spectrum, &self.freq_mask);
        assert(self.freq_mask.len() <= usize::MAX);
        self.denoiser.apply_batch(&masked, batch, self.n_fft)
    }

    /// The gain and the bias that a deployed graph corrects with.
    pub fn correction_params(&self) -> (r: (Vec<T>, Vec<T>))
        requires
            self.well_formed(),
        ensures
            r.0@ == multiplied(self.freq_mask@, self.denoiser.scale@),
            r.1@ == self.denoiser.bias@,
    {
        correction_params(&self.freq_mask, &self.denoiser)
    }
}

impl<T: Divisible + Ordered> DistilledFftModel<T> {
    /// A step towards mel energies, given the spectra and their gradients: the denoiser moves, and the
    /// mask, at a share of the rate and within its bounds.
    pub fn train_step_mel(&mut self, spectrum: &Vec<T>, grad: &Vec<T>, batch: usize, lr: T)
        requires
            old(self).well_formed(),
            batch > 0,
            spectrum@.len() == batch * (2 * old(self).n_fft),
            grad@.len() == batch * (2 * old(self).n_fft),
        ensures
            final(self).well_formed(),
            final(self).n_fft == old(self).n_fft,
            final(self).n_mels == old(self).n_mels,
            final(self).mel_filters@ == old(self).mel_filters@,
            final(self).denoiser.scale@ == stepped_scale(
                old(self).denoiser.scale@,
                spectrum@,
                grad@,
                batch as nat,
                lr,
            ),
            final(self).denoiser.bias@ == stepped_bias(
                old(self).denoiser.bias@,
                grad@,
                batch as nat,
                lr,
            ),
            final(self).freq_mask@ == stepped_mask(
                old(self).freq_mask@,
                spectrum@,
                grad@,
                batch as nat,
                lr,
            ),
    {
        let mask = crate::mel_train::train_step_mel(
            &mut self.denoiser,
            &self.freq_mask,
            spectrum,
            grad,
            batch,
            lr,
        );
        self.freq_mask = mask;
    }
}

/// A student whose butterflies are skipped, run forward or run in reverse, with a correction behind
/// the mel path and one behind the spectrum path.
#[derive(Debug)]
pub struct DistilledTernaryFftModel<T> {
    pub n_fft: usize,
    pub n_mels: usize,
    pub twiddles: Vec<T>,
    pub gates: Vec<i8>,
    pub spec_gates: Vec<i8>,
    pub gate_layout: GateLayout,
    pub freq_mask: Vec<T>,
    pub denoiser: SpectrumCorrection<T>,
    pub mel_denoiser: SpectrumCorrection<T>,
    pub mel_filters: Vec<T>,
}

/// Whether the gates and the corrections of a size can be counted.
pub open spec fn routable(n_fft: usize) -> bool {
    &&& power_of_two(n_fft as nat)
    &&& n_fft > 0
    &&& twos(n_fft as nat) * (n_fft / 2) <= usize::MAX
    &&& n_fft * 2 * (2 * half_width(CorrectorKind::BandWide, n_fft as int, false) + 1) <= usize::MAX
}

/// As many gates as a size has butterflies, all forward.
pub open spec fn forward_gates(n_fft: usize) -> Seq<i8> {
    Seq::new(twos(n_fft as nat) * (n_fft / 2) as nat, |i: int| GateMode::Forward.code())
}

/// Whether a correction is the wide band, or the narrower one of the mel path, that changes nothing.
pub open spec fn fresh_band<T: Scalar>(c: SpectrumCorrection<T>, n_fft: int, mel_path: bool) -> bool {
    fresh(c, CorrectorKind::BandWide, n_fft, mel_path)
}

impl<T: Scalar> DistilledTernaryFftModel<T> {
    pub open spec fn well_formed(&self) -> bool {
        &&& routable(self.n_fft)
        &&& self.gates@.len() == twos(self.n_fft as nat) * (self.n_fft / 2)
        &&& self.spec_gates@.len() == self.gates@.len()
        &&& self.freq_mask@.len() == 2 * self.n_fft
        &&& self.denoiser.fits(self.n_fft as int)
        &&& self.mel_denoiser.fits(self.n_fft as int)
    }

    /// Whether two models have one size, the same weights and filters, and route alike.
    pub open spec fn same_routes(&self, other: Self) -> bool {
        &&& self.n_fft == other.n_fft
        &&& self.n_mels == other.n_mels
        &&& self.twiddles@ == other.twiddles@
        &&& self.gates@ == other.gates@
        &&& self.spec_gates@ == other.spec_gates@
        &&& self.gate_layout == other.gate_layout
        &&& self.mel_filters@ == other.mel_filters@
    }

    /// The gates of the spectrum path: its own under the layout that has two.
    pub open spec fn spectrum_path(&self) -> Seq<i8> {
        if self.gate_layout is DualMelSpec {
            self.spec_gates@
        } else {
            self.gates@
        }
    }

    /// A student with every butterfly forward and corrections that change nothing.
    pub fn new(n_fft: usize, n_mels: usize, twiddles: Vec<T>, mel_filters: Vec<T>) -> (r:
        DistilledTernaryFftModel<T>)
        requires
            routable(n_fft),
        ensures
            r.well_formed(),
            r.n_fft == n_fft,
            r.n_mels == n_mels,
            r.twiddles@ == twiddles@,
            r.mel_filters@ == mel_filters@,
            r.gate_layout is SingleSparse,
            r.gates@ == forward_gates(n_fft),
            r.spec_gates@ == forward_gates(n_fft),
            r.freq_mask@ == open_mask::<T>(n_fft as int),
            fresh_band(r.denoiser, n_fft as int, false),
            fresh_band(r.mel_denoiser, n_fft as int, true),
    {
        proof {
            lemma_bands(n_fft);
        }
        let gates = all_forward_gates(n_fft);
        assert(gates@ =~= forward_gates(n_fft));
        let spec_gates = all_forward_gates(n_fft);
        assert(spec_gates@ =~= forward_gates(n_fft));
        let freq_mask = filled_with(T::one(), 2 * n_fft);
        assert(freq_mask@ =~= open_mask::<T>(n_fft as int));
        DistilledTernaryFftModel {
            n_fft,
            n_mels,
            twiddles,
            gates,
            spec_gates,
            gate_layout: GateLayout::SingleSparse,
            freq_mask,
            denoiser: SpectrumCorrection::from_kind(CorrectorKind::BandWide, n_fft, false),
            mel_denoiser: SpectrumCorrection::from_kind(CorrectorKind::BandWide, n_fft, true),
            mel_filters,
        }
    }

    /// A student of a teacher: every butterfly forward, exact twiddles, the teacher's mask and
    /// filters.
    pub fn from_teacher(teacher: &FastLearnedFftModel<T>, twiddles: Vec<T>) -> (r:
        DistilledTernaryFftModel<T>)
        requires
            teacher.well_formed(),
            routable(teacher.n_fft),
        ensures
            r.well_formed(),
            r.n_fft == teacher.n_fft,
            r.n_mels == teacher.n_mels,
            r.twiddles@ == twiddles@,
            r.mel_filters@ == teacher.mel_filters@,
            r.gate_layout is SingleSparse,
            r.gates@ == forward_gates(teacher.n_fft),
            r.spec_gates@ == forward_gates(teacher.n_fft),
            r.freq_mask@ == teacher.freq_mask@,
            fresh_band(r.denoiser, teacher.n_fft as int, false),
            fresh_band(r.mel_denoiser, teacher.n_fft as int, true),
    {
        let mut r = DistilledTernaryFftModel::new(
            teacher.n_fft,
            teacher.n_mels,
            twiddles,
            copy_buffer(&teacher.mel_filters),
        );
        r.freq_mask = copy_buffer(&teacher.freq_mask);
        r
    }

    /// A student of a teacher with the filters of an earlier student and an open mask.
    pub fn from_distilled(
        base: &DistilledFftModel<T>,
        teacher: &FastLearnedFftModel<T>,
        twiddles: Vec<T>,
    ) -> (r: DistilledTernaryFftModel<T>)
        requires
            routable(teacher.n_fft),
        ensures
            r.well_formed(),
            r.n_fft == teacher.n_fft,
            r.n_mels == teacher.n_mels,
            r.twiddles@ == twiddles@,
            r.mel_filters@ == base.mel_filters@,
            r.gate_layout is SingleSparse,
            r.gates@ == forward_gates(teacher.n_fft),
            r.spec_gates@ == forward_gates(teacher.n_fft),
            r.freq_mask@ == open_mask::<T>(teacher.n_fft as int),
            fresh_band(r.denoiser, teacher.n_fft as int, false),
            fresh_band(r.mel_denoiser, teacher.n_fft as int, true),
    {
        DistilledTernaryFftModel::new(
            teacher.n_fft,
            teacher.n_mels,
            twiddles,
            copy_buffer(&base.mel_filters),
        )
    }

    /// Takes on an architecture: its layout, fresh corrections of its kind, and gates in line with
    /// both.
    pub fn apply_arch_config(&mut self, arch: &TernaryArchConfig)
        requires
            old(self).well_formed(),
            old(self).n_fft * 2 * (2 * half_width(
                arch.corrector,
                old(self).n_fft as int,
                false,
            ) + 1) <= usize::MAX,
        ensures
            final(self).well_formed(),
            final(self).gate_layout == arch.gate_layout,
            (final(self).gates@, final(self).spec_gates@) == laid_out(
                arch.gate_layout,
                arch.allow_reverse,
                old(self).gates@,
            ),
            fresh(final(self).denoiser, arch.corrector, old(self).n_fft as int, false),
            fresh(final(self).mel_denoiser, arch.corrector, old(self).n_fft as int, true),
            final(self).n_fft == old(self).n_fft,
            final(self).n_mels == old(self).n_mels,
            final(self).twiddles@ == old(self).twiddles@,
            final(self).freq_mask@ == old(self).freq_mask@,
            final(self).mel_filters@ == old(self).mel_filters@,
    {
        let n_fft: usize = self.n_fft;
        proof {
            let h = half_width(arch.corrector, n_fft as int, false);
            let m = half_width(arch.corrector, n_fft as int, true);
            assert(n_fft * 2 * (2 * m + 1) <= n_fft * 2 * (2 * h + 1)) by (nonlinear_arith)
                requires
                    0 <= m <= h,
                    n_fft >= 0,
            ;
        }
        let (gates, spec_gates) = apply_layout(
            arch.gate_layout,
            arch.allow_reverse,
            n_fft,
            &self.gates,
        );
        self.gate_layout = arch.gate_layout;
        self.denoiser = SpectrumCorrection::from_kind(arch.corrector, n_fft, false);
        self.mel_denoiser = SpectrumCorrection::from_kind(arch.corrector, n_fft, true);
        proof {
            lemma_laid_out_len(arch.gate_layout, arch.allow_reverse, self.gates@);
        }
        self.gates = gates;
        self.spec_gates = spec_gates;
    }

    pub fn mel_gates(&self) -> (r: &Vec<i8>)
        ensures
            r@ == self.gates@,
    {
        &self.gates
    }

    /// The gates of the spectrum path.
    pub fn spec_gates_slice(&self) -> (r: &Vec<i8>)
        ensures
            r@ == self.spectrum_path(),
    {
        match self.gate_layout {
            GateLayout::DualMelSpec => &self.spec_gates,
            _ => &self.gates,
        }
    }

    /// Brings the gates of the spectrum path in line with the layout.
    pub fn sync_spec_gates(&mut self)
        requires
            old(self).well_formed(),
        ensures
            final(self).well_formed(),
            final(self).spec_gates@ == spectrum_gates(old(self).gate_layout, old(self).gates@),
            final(self).gates@ == old(self).gates@,
            final(self).gate_layout == old(self).gate_layout,
            final(self).n_fft == old(self).n_fft,
            final(self).n_mels == old(self).n_mels,
            final(self).twiddles@ == old(self).twiddles@,
            final(self).mel_filters@ == old(self).mel_filters@,
            final(self).freq_mask@ == old(self).freq_mask@,
            final(self).denoiser == old(self).denoiser,
            final(self).mel_denoiser == old(self).mel_denoiser,
    {
        let mut spec = all_forward_gates(self.n_fft);
        sync_spec_gates_for_layout(self.gate_layout, &self.gates, &mut spec);
        self.spec_gates = spec;
    }

    /// How many gates of the mel path skip, run forward and run in reverse.
    pub fn gate_counts(&self) -> (r: (usize, usize, usize))
        ensures
            r.0 == count_code(self.gates@, GateMode::Skip.code()),
            r.1 == count_code(self.gates@, GateMode::Forward.code()),
            r.2 == count_code(self.gates@, GateMode::Reverse.code()),
    {
        gate_mode_counts(&self.gates)
    }

    /// Starts the corrections and the mask afresh.
    pub fn reset_correction_for_gates(&mut self)
        requires
            old(self).well_formed(),
        ensures
            final(self).well_formed(),
            fresh_band(final(self).denoiser, old(self).n_fft as int, false),
            fresh_band(final(self).mel_denoiser, old(self).n_fft as int, true),
            final(self).freq_mask@ == open_mask::<T>(old(self).n_fft as int),
            final(self).same_routes(*old(self)),
    {
        let n_fft: usize = self.n_fft;
        proof {
            lemma_bands(n_fft);
        }
        let freq_mask = filled_with(T::one(), 2 * n_fft);
        assert(freq_mask@ =~= open_mask::<T>(n_fft as int));
        self.denoiser = SpectrumCorrection::from_kind(CorrectorKind::BandWide, n_fft, false);
        self.mel_denoiser = SpectrumCorrection::from_kind(CorrectorKind::BandWide, n_fft, true);
        self.freq_mask = freq_mask;
    }

    /// The spectra of the mel path, given what the mel gates let through; `None` where the length
    /// does not fit.
    pub fn spectrum_batch(&self, routed: &Vec<T>, batch: usize) -> (r: Option<Vec<T>>)
        requires
            self.well_formed(),
            batch * self.n_fft * 2 <= usize::MAX,
        ensures
            if self.mel_denoiser is Identity || routed@.len() == batch * self.n_fft * 2 {
                r matches Some(v) && v@ == self.mel_denoiser.of(
                    multiplied(routed@, self.freq_mask@),
                )
            } else {
                r is None
            },
    {
        correct_spectrum(routed, &self.freq_mask, &self.mel_denoiser, batch, self.n_fft)
    }

    /// The spectra of the spectrum path, given what its gates let through; `None` where the length
    /// does not fit.
    pub fn spectrum_batch_raw(&self, routed: &Vec<T>, batch: usize) -> (r: Option<Vec<T>>)
        requires
            self.well_formed(),
            batch * self.n_fft * 2 <= usize::MAX,
        ensures
            if self.denoiser is Identity || routed@.len() == batch * self.n_fft * 2 {
                r matches Some(v) && v@ == self.denoiser.of(multiplied(routed@, self.freq_mask@))
            } else {
                r is None
            },
    {
        correct_spectrum(routed, &self.freq_mask, &self.denoiser, batch, self.n_fft)
    }
}

proof fn lemma_bands(n_fft: usize)
    requires
        routable(n_fft),
    ensures
        2 * n_fft <= usize::MAX,
        n_fft * 2 * (2 * half_width(CorrectorKind::BandWide, n_fft as int, true) + 1) <= usize::MAX,
{
    let h = half_width(CorrectorKind::BandWide, n_fft as int, false);
    let m = half_width(CorrectorKind::BandWide, n_fft as int, true);
    assert(n_fft * 2 * (2 * m + 1) <= n_fft * 2 * (2 * h + 1)) by (nonlinear_arith)
        requires
            0 <= m <= h,
            n_fft >= 0,
    ;
    assert(n_fft * 2 <= n_fft * 2 * (2 * h + 1)) by (nonlinear_arith)
        requires
            h >= 0,
            n_fft >= 0,
    ;
}

proof fn lemma_laid_out_len(layout: GateLayout, allow_reverse: bool, gates: Seq<i8>)
    ensures
        laid_out(layout, allow_reverse, gates).0.len() == gates.len(),
        laid_out(layout, allow_reverse, gates).1.len() == gates.len(),
{
}

/// A signal to fit corrections to: what the gates let through of it and its exact spectra, and the
/// same of its windowed form.
#[derive(Debug)]
pub struct RefitSignal<T> {
    pub routed: Vec<T>,
    pub target: Vec<T>,
    pub mel_routed: Vec<T>,
    pub mel_target: Vec<T>,
}

impl<T> RefitSignal<T> {
    pub open spec fn fits(&self, batch: usize, n_fft: usize) -> bool {
        &&& self.routed@.len() == batch * n_fft * 2
        &&& self.target@.len() == batch * n_fft * 2
        &&& self.mel_routed@.len() == batch * n_fft * 2
        &&& self.mel_target@.len() == batch * n_fft * 2
    }
}

fn signal_fits<T>(s: &RefitSignal<T>, batch: usize, n_fft: usize) -> (r: bool)
    requires
        batch * n_fft * 2 <= usize::MAX,
    ensures
        r == s.fits(batch, n_fft),
{
    assert(batch * n_fft <= batch * n_fft * 2) by (nonlinear_arith)
        requires
            batch >= 0,
            n_fft >= 0,
    ;
    let count: usize = batch * n_fft * 2;
    s.routed.len() == count && s.target.len() == count && s.mel_routed.len() == count
        && s.mel_target.len() == count
}

/// How many signals stand before the first that does not fit.
pub open spec fn fitting<T>(signals: Seq<RefitSignal<T>>, batch: usize, n_fft: usize) -> nat
    decreases signals.len(),
{
    if signals.len() == 0 || !signals[0].fits(batch, n_fft) {
        0
    } else {
        1 + fitting(signals.drop_first(), batch, n_fft)
    }
}

proof fn lemma_fitting_start<T>(signals: Seq<RefitSignal<T>>, batch: usize, n_fft: usize)
    ensures
        fitting(signals, batch, n_fft) <= signals.len(),
    decreases signals.len(),
{
    if signals.len() > 0 {
        lemma_fitting_start(signals.drop_first(), batch, n_fft);
    }
}

/// Where the signals before one fit, they go on fitting past it just where it fits.
proof fn lemma_fitting<T>(signals: Seq<RefitSignal<T>>, batch: usize, n_fft: usize, k: int)
    requires
        0 <= k < signals.len(),
        k <= fitting(signals, batch, n_fft),
    ensures
        signals[k].fits(batch, n_fft) ==> k < fitting(signals, batch, n_fft),
        !signals[k].fits(batch, n_fft) ==> k == fitting(signals, batch, n_fft),
    decreases k,
{
    if k > 0 {
        lemma_fitting(signals.drop_first(), batch, n_fft, k - 1);
    }
}

/// How many signals a refit goes through: all of them in every step, or those before the first that
/// does not fit.
pub open spec fn refit_count<T>(
    signals: Seq<RefitSignal<T>>,
    batch: usize,
    n_fft: usize,
    steps: usize,
) -> nat {
    if fitting(signals, batch, n_fft) == signals.len() {
        steps as nat * signals.len()
    } else if steps > 0 {
        fitting(signals, batch, n_fft)
    } else {
        0
    }
}

/// What the spectrum path learns from each signal: masked spectra and their targets.
pub open spec fn spectrum_lessons<T: Scalar>(
    signals: Seq<RefitSignal<T>>,
    mask: Seq<T>,
) -> Seq<(Seq<T>, Seq<T>)> {
    Seq::new(
        signals.len(),
        |i: int| (multiplied(signals[i].routed@, mask), signals[i].target@),
    )
}

/// What the mel path learns from each signal: masked spectra and their targets.
pub open spec fn mel_lessons<T: Scalar>(
    signals: Seq<RefitSignal<T>>,
    mask: Seq<T>,
) -> Seq<(Seq<T>, Seq<T>)> {
    Seq::new(
        signals.len(),
        |i: int| (multiplied(signals[i].mel_routed@, mask), signals[i].mel_target@),
    )
}

/// Whether some steps of training, over lessons in turn, make one correction of another.
pub open spec fn fitted_run<T: Divisible>(
    before: SpectrumCorrection<T>,
    lessons: Seq<(Seq<T>, Seq<T>)>,
    count: nat,
    batch: usize,
    n_fft: usize,
    lr: T,
    after: SpectrumCorrection<T>,
) -> bool
    decreases count,
{
    if count == 0 {
        after == before
    } else {
        let lesson = lessons[(count - 1) % (lessons.len() as int)];
        exists|mid: SpectrumCorrection<T>|
            fitted_run(before, lessons, (count - 1) as nat, batch, n_fft, lr, mid)
                && #[trigger] fitted_step(mid, lesson.0, lesson.1, batch, n_fft, lr, after)
    }
}

proof fn lemma_run_on<T: Divisible>(
    before: SpectrumCorrection<T>,
    lessons: Seq<(Seq<T>, Seq<T>)>,
    count: nat,
    batch: usize,
    n_fft: usize,
    lr: T,
    mid: SpectrumCorrection<T>,
    after: SpectrumCorrection<T>,
)
    requires
        lessons.len() > 0,
        fitted_run(before, lessons, count, batch, n_fft, lr, mid),
        fitted_step(
            mid,
            lessons[count as int % (lessons.len() as int)].0,
            lessons[count as int % (lessons.len() as int)].1,
            batch,
            n_fft,
            lr,
            after,
        ),
    ensures
        fitted_run(before, lessons, count + 1, batch, n_fft, lr, after),
{
    let lesson = lessons[count as int % (lessons.len() as int)];
    assert(((count + 1) - 1) as nat == count);
    assert(fitted_step(mid, lesson.0, lesson.1, batch, n_fft, lr, after));
}

proof fn lemma_round(step: int, len: int, k: int)
    requires
        0 <= k < len,
        0 <= step,
    ensures
        (step * len + k) % len == k,
{
    vstd::arithmetic::div_mod::lemma_fundamental_div_mod_converse(step * len + k, len, step, k);
}

/// How a refit went.
#[derive(Debug)]
pub enum Refit<V> {
    /// Every step was taken; what the spectrum path now makes of the signals.
    Refitted(V),
    NoSignals,
    /// A signal does not fit; the steps before it were taken.
    Unfit,
    /// A path has an affine correction, which has yet to be fitted; no step was taken.
    AffineOwed,
}

/// What keeps a refit from its end.
pub enum RefitFault {
    NoSignals,
    AffineOwed,
    Unfit,
}

/// What keeps a refit from its end.
pub open spec fn refit_fault<T: Divisible>(
    m: DistilledTernaryFftModel<T>,
    signals: Seq<RefitSignal<T>>,
    batch: usize,
    steps: usize,
) -> Option<RefitFault> {
    if signals.len() == 0 {
        Some(RefitFault::NoSignals)
    } else if steps > 0 && (m.denoiser is Affine || m.mel_denoiser is Affine) {
        Some(RefitFault::AffineOwed)
    } else if fitting(signals, batch, m.n_fft) < signals.len() {
        Some(RefitFault::Unfit)
    } else {
        None
    }
}

/// The rate of the mel path in a refit: 0.85 times that of the spectrum path.
pub open spec fn mel_rate<T: Divisible>(lr: T) -> T {
    T::product(lr, T::quotient(T::counted(17), T::counted(20)))
}

/// Whether a refit leaves the corrections of a model as given: untouched where a path has an affine
/// one, else trained on the signals in turn.
pub open spec fn refitted<T: Divisible>(
    m: DistilledTernaryFftModel<T>,
    signals: Seq<RefitSignal<T>>,
    batch: usize,
    steps: usize,
    lr: T,
    denoiser: SpectrumCorrection<T>,
    mel_denoiser: SpectrumCorrection<T>,
) -> bool {
    let fault = refit_fault(m, signals, batch, steps);
    if fault matches Some(f) && !(f is Unfit) {
        denoiser == m.denoiser && mel_denoiser == m.mel_denoiser
    } else {
        let count = refit_count(signals, batch, m.n_fft, steps);
        &&& fitted_run(
            m.denoiser,
            spectrum_lessons(signals, m.freq_mask@),
            count,
            batch,
            m.n_fft,
            lr,
            denoiser,
        )
        &&& fitted_run(
            m.mel_denoiser,
            mel_lessons(signals, m.freq_mask@),
            count,
            batch,
            m.n_fft,
            mel_rate(lr),
            mel_denoiser,
        )
    }
}

/// How a step of a path towards target spectra went.
#[derive(Debug)]
pub enum PathStep<T> {
    /// The step was taken; what the path gave before it.
    Stepped { before: Vec<T> },
    /// The lengths do not fit.
    Unfit,
    /// The path has an affine correction, which has yet to be fitted: the spectra that it is given,
    /// and what it made of them.
    AffineOwed { masked: Vec<T>, before: Vec<T> },
}

/// Whether a step of a path, given masked spectra, goes as told and makes one correction of another.
pub open spec fn path_step<T: Divisible>(
    correction: SpectrumCorrection<T>,
    masked: Seq<T>,
    target: Seq<T>,
    batch: usize,
    n_fft: usize,
    lr: T,
    r: PathStep<T>,
    after: SpectrumCorrection<T>,
) -> bool {
    let count = batch * n_fft * 2;
    if masked.len() != count || (correction is Band && target.len() != count) {
        r is Unfit && after == correction
    } else if correction is Affine {
        &&& r matches PathStep::AffineOwed { masked: m, before }
        &&& m@ == masked
        &&& before@ == correction.of(masked)
        &&& after == correction
    } else {
        &&& r matches PathStep::Stepped { before }
        &&& before@ == correction.of(masked)
        &&& fitted_step(correction, masked, target, batch, n_fft, lr, after)
    }
}

impl<T: Divisible> DistilledTernaryFftModel<T> {
    /// A step of the spectrum path towards target spectra, given what its gates let through. Nothing
    /// changes where the lengths do not fit, nor where the path has an affine correction: that step
    /// is left to the caller.
    pub fn train_step_spectrum_target(
        &mut self,
        routed: &Vec<T>,
        target: &Vec<T>,
        batch: usize,
        lr: T,
    ) -> (r: PathStep<T>)
        requires
            old(self).well_formed(),
            batch * old(self).n_fft * 2 <= usize::MAX,
        ensures
            final(self).well_formed(),
            final(self).same_routes(*old(self)),
            final(self).freq_mask@ == old(self).freq_mask@,
            final(self).mel_denoiser == old(self).mel_denoiser,
            path_step(
                old(self).denoiser,
                multiplied(routed@, old(self).freq_mask@),
                target@,
                batch,
                old(self).n_fft,
                lr,
                r,
                final(self).denoiser,
            ),
    {
        proof {
            assert(batch * self.n_fft <= batch * self.n_fft * 2) by (nonlinear_arith)
                requires
                    batch >= 0,
                    self.n_fft >= 0,
            ;
        }
        let n_fft: usize = self.n_fft;
        if routed.len() != batch * n_fft * 2 {
            return PathStep::Unfit;
        }
        assert(self.freq_mask.len() <= usize::MAX);
        let masked = weigh_rows(routed, &self.freq_mask);
        match self.denoiser.apply_batch(&masked, batch, n_fft) {
            None => PathStep::Unfit,
            Some(before) => match self.denoiser.train_step_mse(&masked, target, batch, n_fft, lr) {
                FitOutcome::Fitted(_) => PathStep::Stepped { before },
                FitOutcome::Refused(_) => PathStep::Unfit,
                FitOutcome::AffineOwed => PathStep::AffineOwed { masked, before },
            },
        }
    }

    /// A step of the mel path towards target spectra, given what its gates let through. Nothing
    /// changes where the lengths do not fit, nor where the path has an affine correction: that step
    /// is left to the caller.
    pub fn train_step_mel_ref_spectrum(
        &mut self,
        routed: &Vec<T>,
        target: &Vec<T>,
        batch: usize,
        lr: T,
    ) -> (r: PathStep<T>)
        requires
            old(self).well_formed(),
            batch * old(self).n_fft * 2 <= usize::MAX,
        ensures
            final(self).well_formed(),
            final(self).same_routes(*old(self)),
            final(self).freq_mask@ == old(self).freq_mask@,
            final(self).denoiser == old(self).denoiser,
            path_step(
                old(self).mel_denoiser,
                multiplied(routed@, old(self).freq_mask@),
                target@,
                batch,
                old(self).n_fft,
                lr,
                r,
                final(self).mel_denoiser,
            ),
    {
        proof {
            assert(batch * self.n_fft <= batch * self.n_fft * 2) by (nonlinear_arith)
                requires
                    batch >= 0,
                    self.n_fft >= 0,
            ;
        }
        let n_fft: usize = self.n_fft;
        if routed.len() != batch * n_fft * 2 {
            return PathStep::Unfit;
        }
        assert(self.freq_mask.len() <= usize::MAX);
        let masked = weigh_rows(routed, &self.freq_mask);
        match self.mel_denoiser.apply_batch(&masked, batch, n_fft) {
            None => PathStep::Unfit,
            Some(before) => match self.mel_denoiser.train_step_mse(&masked, target, batch, n_fft, lr) {
                FitOutcome::Fitted(_) => PathStep::Stepped { before },
                FitOutcome::Refused(_) => PathStep::Unfit,
                FitOutcome::AffineOwed => PathStep::AffineOwed { masked, before },
            },
        }
    }

    /// Goes on fitting the corrections to the gates: `steps` times over the signals, a step of the
    /// spectrum path on each and one of the mel path, at a smaller rate, on its windowed form. Gives
    /// what the spectrum path then makes of each signal. Ends at the first signal that does not fit;
    /// takes no step where a path has an affine correction, whose steps are left to the caller.
    pub fn refit_correction_incremental(
        &mut self,
        signals: &Vec<RefitSignal<T>>,
        batch: usize,
        steps: usize,
        lr: T,
    ) -> (r: Refit<Vec<Vec<T>>>)
        requires
            old(self).well_formed(),
            batch * old(self).n_fft * 2 <= usize::MAX,
        ensures
            final(self).well_formed(),
            final(self).same_routes(*old(self)),
            final(self).freq_mask@ == old(self).freq_mask@,
            refitted(
                *old(self),
                signals@,
                batch,
                steps,
                lr,
                final(self).denoiser,
                final(self).mel_denoiser,
            ),
            match refit_fault(*old(self), signals@, batch, steps) {
                Some(RefitFault::NoSignals) => r is NoSignals,
                Some(RefitFault::AffineOwed) => r is AffineOwed,
                Some(RefitFault::Unfit) => r is Unfit,
                None => r matches Refit::Refitted(v) && v@.len() == signals@.len() && forall|i: int|
                    0 <= i < signals@.len() ==> (#[trigger] v@[i])@ == final(self).denoiser.of(
                        multiplied(signals@[i].routed@, old(self).freq_mask@),
                    ),
            },
    {
        let ghost first = *self;
        let ghost mask = self.freq_mask@;
        let n_fft: usize = self.n_fft;
        let ghost raw = spectrum_lessons(signals@, mask);
        let ghost mel = mel_lessons(signals@, mask);
        let ghost mut count: nat = 0;
        if signals.len() == 0 {
            return Refit::NoSignals;
        }
        if steps > 0 && (matches!(self.denoiser, SpectrumCorrection::Affine(_)) || matches!(
            self.mel_denoiser,
            SpectrumCorrection::Affine(_)
        )) {
            return Refit::AffineOwed;
        }
        let mel_lr = lr.times(T::count(17).over(T::count(20)));
        let mut step: usize = 0;
        while step < steps
            invariant
                step <= steps,
                signals@.len() > 0,
                first == *old(self),
                n_fft == first.n_fft,
                mask == first.freq_mask@,
                raw == spectrum_lessons(signals@, mask),
                mel == mel_lessons(signals@, mask),
                batch * n_fft * 2 <= usize::MAX,
                self.well_formed(),
                self.same_routes(first),
                self.freq_mask@ == mask,
                mel_lr == mel_rate(lr),
                steps > 0 ==> !(first.denoiser is Affine) && !(first.mel_denoiser is Affine),
                steps > 0 ==> !(self.denoiser is Affine) && !(self.mel_denoiser is Affine),
                count == step * signals@.len(),
                step > 0 ==> fitting(signals@, batch, n_fft) == signals@.len(),
                fitted_run(first.denoiser, raw, count, batch, n_fft, lr, self.denoiser),
                fitted_run(first.mel_denoiser, mel, count, batch, n_fft, mel_lr, self.mel_denoiser),
            decreases steps - step,
        {
            let mut k: usize = 0;
            proof {
                lemma_fitting_start(signals@, batch, n_fft);
            }
            while k < signals.len()
                invariant
                    k <= signals.len(),
                    step < steps,
                    signals@.len() > 0,
                    first == *old(self),
                    n_fft == first.n_fft,
                    mask == first.freq_mask@,
                    raw == spectrum_lessons(signals@, mask),
                    mel == mel_lessons(signals@, mask),
                    batch * n_fft * 2 <= usize::MAX,
                    self.well_formed(),
                    self.same_routes(first),
                    self.freq_mask@ == mask,
                    mel_lr == mel_rate(lr),
                    steps > 0 ==> !(first.denoiser is Affine) && !(first.mel_denoiser is Affine),
                    !(self.denoiser is Affine),
                    !(self.mel_denoiser is Affine),
                    count == step * signals@.len() + k,
                    step > 0 ==> fitting(signals@, batch, n_fft) == signals@.len(),
                    k <= fitting(signals@, batch, n_fft) <= signals@.len(),
                    fitted_run(first.denoiser, raw, count, batch, n_fft, lr, self.denoiser),
                    fitted_run(first.mel_denoiser, mel, count, batch, n_fft, mel_lr, self.mel_denoiser),
                decreases signals.len() - k,
            {
                let fits = signal_fits(&signals[k], batch, n_fft);
                proof {
                    lemma_fitting(signals@, batch, n_fft, k as int);
                }
                if !fits {
                    assert(count == k);
                    return Refit::Unfit;
                }
                let ghost before = *self;
                self.train_step_spectrum_target(&signals[k].routed, &signals[k].target, batch, lr);
                self.train_step_mel_ref_spectrum(
                    &signals[k].mel_routed,
                    &signals[k].mel_target,
                    batch,
                    mel_lr,
                );
                proof {
                    lemma_round(step as int, signals@.len() as int, k as int);
                    assert(count as int % (signals@.len() as int) == k);
                    lemma_run_on(first.denoiser, raw, count, batch, n_fft, lr, before.denoiser,
                        self.denoiser);
                    lemma_run_on(first.mel_denoiser, mel, count, batch, n_fft, mel_lr,
                        before.mel_denoiser, self.mel_denoiser);
                    count = count + 1;
                }
                k += 1;
            }
            proof {
                assert((step + 1) * signals@.len() == step * signals@.len() + signals@.len())
                    by (nonlinear_arith);
            }
            step += 1;
        }
        let mut out: Vec<Vec<T>> = Vec::new();
        let mut i: usize = 0;
        proof {
            lemma_fitting_start(signals@, batch, n_fft);
        }
        while i < signals.len()
            invariant
                i <= signals.len(),
                first == *old(self),
                n_fft == first.n_fft,
                mask == first.freq_mask@,
                batch * n_fft * 2 <= usize::MAX,
                self.well_formed(),
                self.same_routes(first),
                self.freq_mask@ == mask,
                mel_lr == mel_rate(lr),
                steps > 0 ==> !(first.denoiser is Affine) && !(first.mel_denoiser is Affine),
                steps > 0 ==> fitting(signals@, batch, n_fft) == signals@.len(),
                i <= fitting(signals@, batch, n_fft) <= signals@.len(),
                count == steps * signals@.len(),
                fitted_run(first.denoiser, raw, count, batch, n_fft, lr, self.denoiser),
                fitted_run(first.mel_denoiser, mel, count, batch, n_fft, mel_lr, self.mel_denoiser),
                raw == spectrum_lessons(signals@, mask),
                mel == mel_lessons(signals@, mask),
                signals@.len() > 0,
                out@.len() == i,
                forall|j: int|
                    0 <= j < i ==> (#[trigger] out@[j])@ == self.denoiser.of(
                        multiplied(signals@[j].routed@, mask),
                    ),
            decreases signals.len() - i,
        {
            let fits = signal_fits(&signals[i], batch, n_fft);
            proof {
                lemma_fitting(signals@, batch, n_fft, i as int);
            }
            if !fits {
                assert(count == 0);
                return Refit::Unfit;
            }
            match self.spectrum_batch_raw(&signals[i].routed, batch) {
                Some(v) => out.push(v),
                None => {
                    assert(false);
                },
            }
            i += 1;
        }
        Refit::Refitted(out)
    }

    /// Starts the corrections afresh for the gates and fits them to one signal.
    pub fn refit_correction_quick(
        &mut self,
        signal: RefitSignal<T>,
        batch: usize,
        steps: usize,
        lr: T,
    ) -> (r: Refit<Vec<T>>)
        requires
            old(self).well_formed(),
            batch * old(self).n_fft * 2 <= usize::MAX,
        ensures
            final(self).well_formed(),
            final(self).same_routes(*old(self)),
            final(self).freq_mask@ == open_mask::<T>(old(self).n_fft as int),
            ({
                let count = refit_count(seq![signal], batch, old(self).n_fft, steps);
                let mask = open_mask::<T>(old(self).n_fft as int);
                let n = old(self).n_fft;
                &&& exists|start: SpectrumCorrection<T>|
                    fresh_band(start, n as int, false) && #[trigger] fitted_run(start,
                        spectrum_lessons(seq![signal], mask), count, batch, n, lr, final(self).denoiser)
                &&& exists|start: SpectrumCorrection<T>|
                    fresh_band(start, n as int, true) && #[trigger] fitted_run(start,
                        mel_lessons(seq![signal], mask), count, batch, n, mel_rate(lr), final(self).mel_denoiser)
            }),
            if signal.fits(batch, old(self).n_fft) {
                r matches Refit::Refitted(v) && v@ == final(self).denoiser.of(
                    multiplied(signal.routed@, open_mask::<T>(old(self).n_fft as int)),
                )
            } else {
                r is Unfit
            },
    {
        let mut signals: Vec<RefitSignal<T>> = Vec::new();
        signals.push(signal);
        assert(signals@ =~= seq![signal]);
        proof {
            assert(seq![signal].drop_first().len() == 0);
            reveal_with_fuel(fitting, 2);
        }
        self.reset_correction_for_gates();
        match self.refit_correction_incremental(&signals, batch, steps, lr) {
            Refit::Refitted(mut v) => match v.pop() {
                Some(last) => Refit::Refitted(last),
                None => Refit::NoSignals,
            },
            Refit::NoSignals => Refit::NoSignals,
            Refit::Unfit => Refit::Unfit,
            Refit::AffineOwed => Refit::AffineOwed,
        }
    }
}

/// Whether a step of the mel path towards mel energies makes one mask and one correction of others:
/// both move along the gradients of the masked spectra, and only a band learns.
pub open spec fn mel_stepped<T: Divisible + Ordered>(
    mask: Seq<T>,
    correction: SpectrumCorrection<T>,
    routed: Seq<T>,
    grad: Seq<T>,
    batch: usize,
    n_fft: usize,
    lr: T,
    mask_after: Seq<T>,
    after: SpectrumCorrection<T>,
) -> bool {
    let masked = multiplied(routed, mask);
    &&& mask_after == routed_mask(mask, masked, grad, batch as nat, lr)
    &&& match correction {
        SpectrumCorrection::Band(b) => after matches SpectrumCorrection::Band(c) && gradient_step(
            b,
            masked,
            grad,
            batch,
            n_fft,
            lr,
            c,
        ),
        _ => after == correction,
    }
}

impl<T: Divisible + Ordered> DistilledTernaryFftModel<T> {
    /// A step of the mel path towards mel energies, given what its gates let through and the gradients
    /// of the spectra: a band moves, and the mask, at a share of the rate and within its bounds.
    pub fn train_step_mel(&mut self, routed: &Vec<T>, grad: &Vec<T>, batch: usize, lr: T)
        requires
            old(self).well_formed(),
            batch * old(self).n_fft * 2 <= usize::MAX,
            routed@.len() == batch * old(self).n_fft * 2,
            grad@.len() == batch * old(self).n_fft * 2,
        ensures
            final(self).well_formed(),
            final(self).same_routes(*old(self)),
            final(self).denoiser == old(self).denoiser,
            mel_stepped(
                old(self).freq_mask@,
                old(self).mel_denoiser,
                routed@,
                grad@,
                batch,
                old(self).n_fft,
                lr,
                final(self).freq_mask@,
                final(self).mel_denoiser,
            ),
            ({
                let masked = multiplied(routed@, old(self).freq_mask@);
                &&& final(self).freq_mask@ == routed_mask(
                    old(self).freq_mask@,
                    masked,
                    grad@,
                    batch as nat,
                    lr,
                )
                &&& match old(self).mel_denoiser {
                    SpectrumCorrection::Band(b) => final(self).mel_denoiser matches
                        SpectrumCorrection::Band(c) && gradient_step(
                        b,
                        masked,
                        grad@,
                        batch,
                        old(self).n_fft,
                        lr,
                        c,
                    ),
                    _ => final(self).mel_denoiser == old(self).mel_denoiser,
                }
            }),
    {
        let n_fft: usize = self.n_fft;
        assert(batch * n_fft * 2 == batch * (2 * n_fft)) by (nonlinear_arith);
        let masked = weigh_rows(routed, &self.freq_mask);
        self.mel_denoiser.train_step_spectrum_grad(&masked, grad, batch, n_fft, lr);
        let mask = step_routed_mask(&self.freq_mask, &masked, grad, batch, lr);
        self.freq_mask = mask;
    }
}

/// A refit keeps the kind of a correction and the shape of a band, and the identity learns nothing,
/// however long it goes on; none takes a step with an affine correction.
pub proof fn refits_keep_the_kind<T: Divisible>(
    before: SpectrumCorrection<T>,
    lessons: Seq<(Seq<T>, Seq<T>)>,
    count: nat,
    batch: usize,
    n_fft: usize,
    lr: T,
    after: SpectrumCorrection<T>,
)
    requires
        fitted_run(before, lessons, count, batch, n_fft, lr, after),
    ensures
        match before {
            SpectrumCorrection::Identity => after is Identity,
            SpectrumCorrection::Affine(_) => count == 0,
            SpectrumCorrection::Band(b) => after matches SpectrumCorrection::Band(c) && c.n_bins
                == b.n_bins && c.radius == b.radius && c.band_width == b.band_width,
        },
    decreases count,
{
    if count > 0 {
        let lesson = lessons[(count - 1) % (lessons.len() as int)];
        let mid = choose|mid: SpectrumCorrection<T>|
            fitted_run(before, lessons, (count - 1) as nat, batch, n_fft, lr, mid)
                && #[trigger] fitted_step(mid, lesson.0, lesson.1, batch, n_fft, lr, after);
        refits_keep_the_kind(before, lessons, (count - 1) as nat, batch, n_fft, lr, mid);
    }
}

/// Under a layout with one set of gates both paths are routed alike; under the one with two the
/// spectrum path skips nothing.
pub proof fn layouts_route_the_spectrum_path<T: Scalar>(m: DistilledTernaryFftModel<T>, arch: TernaryArchConfig, gates: Seq<i8>)
    requires
        m.gate_layout == arch.gate_layout,
        (m.gates@, m.spec_gates@) == laid_out(arch.gate_layout, arch.allow_reverse, gates),
    ensures
        !(arch.gate_layout is DualMelSpec) ==> m.spectrum_path() == m.gates@,
        arch.gate_layout is DualMelSpec ==> forall|i: int|
            0 <= i < gates.len() ==> #[trigger] m.spectrum_path()[i] == GateMode::Forward.code(),
        arch.gate_layout is AllForward ==> forall|i: int|
            0 <= i < gates.len() ==> #[trigger] m.gates@[i] == GateMode::Forward.code(),
{
}

} // verus!

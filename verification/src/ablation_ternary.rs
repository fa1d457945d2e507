//! Ablation of ternary architectures: variants, jobs, rows, and the Pareto frontier.

use crate::ablation::{err_rank, note_view};
use crate::device::{
    available_devices_in, labels, resolve_train_device_in, resolved, swept_devices, view_of,
    wanted_device, Available,
};
use crate::e2e_bench::{wrapped, E2ePipeline, Output, Route, Source};
use crate::figure::{
    at_most, finite, is_at_most, is_finite, is_less, is_nan, less, nan, rank, rank_of, Figure,
    FigureView,
};
use crate::order::{models, stable_order, stable_order_of, Ranked};
use crate::ternary_gates::{CorrectorKind, GateLayout};
use crate::text::{copy_text, same_text, texts};
use vstd::prelude::*;

verus! {

/// How a ternary model runs.
#[derive(Debug, Clone, Copy, PartialEq, Eq, Structural)]
pub enum TernaryExecMode {
    Eager,
    CompiledMel,
    CompiledSpectrum,
}

impl TernaryExecMode {
    pub open spec fn label_text(self) -> Seq<char> {
        match self {
            TernaryExecMode::Eager => "eager"@,
            TernaryExecMode::CompiledMel => "compiled_mel"@,
            TernaryExecMode::CompiledSpectrum => "compiled_spectrum"@,
        }
    }

    pub fn label(self) -> (r: &'static str)
        ensures
            r@ == self.label_text(),
    {
        match self {
            TernaryExecMode::Eager => "eager",
            TernaryExecMode::CompiledMel => "compiled_mel",
            TernaryExecMode::CompiledSpectrum => "compiled_spectrum",
        }
    }
}

/// The variants of the study.
#[derive(Debug, Clone, Copy, PartialEq, Eq, Structural)]
pub enum TernaryArchVariantId {
    RefRustfft,
    RefRlxOpFft,
    RefButterflyCompiled,
    FusionOnly,
    SingleSparseBand,
    SingleSparseAffine,
    SingleSparseDense,
    DualPath,
}

/// The bits of the fraction of butterflies that pruning keeps, as a double.
pub const FULL: u64 = 0x3ff0_0000_0000_0000;

/// The bits of 0.98, single precision.
pub const TARGET_98: u64 = 0x3fef_5c29_0000_0000;

/// The bits of 0.96, single precision.
pub const TARGET_96: u64 = 0x3fee_b851_e000_0000;

/// The bits of 0.94, single precision.
pub const TARGET_94: u64 = 0x3fee_147a_e000_0000;

/// The bits between which a fraction is within a hundredth of 0.96.
pub const BELOW_96: u64 = 0x3fee_6666_5b00_0000;

pub const ABOVE_96: u64 = 0x3fef_0a3d_6500_0000;

/// The bits between which a fraction is within a hundredth of one.
pub const BELOW_FULL: u64 = 0x3fef_ae14_7b00_0000;

pub const ABOVE_FULL: u64 = 0x3ff0_28f5_c280_0000;

/// The architecture of a ternary model. Targets are the bits of doubles.
#[derive(Debug, Clone, Copy, PartialEq, Eq, Structural)]
pub struct TernaryArchConfig {
    pub gate_layout: GateLayout,
    pub corrector: CorrectorKind,
    /// What share of butterflies the mel path keeps.
    pub target_compute_fraction: u64,
    /// What share of butterflies the spectrum path keeps.
    pub target_spec_compute_fraction: u64,
    pub allow_reverse: bool,
}

impl TernaryArchConfig {
    pub fn fusion_only() -> (r: TernaryArchConfig)
        ensures
            r == TernaryArchVariantId::FusionOnly.arch(FULL)->0,
    {
        TernaryArchConfig {
            gate_layout: GateLayout::AllForward,
            corrector: CorrectorKind::Identity,
            target_compute_fraction: FULL,
            target_spec_compute_fraction: FULL,
            allow_reverse: false,
        }
    }

    pub fn dual_path_mel_sparse() -> (r: TernaryArchConfig)
        ensures
            r == TernaryArchVariantId::DualPath.arch(FULL)->0,
    {
        TernaryArchConfig {
            gate_layout: GateLayout::DualMelSpec,
            corrector: CorrectorKind::BandWide,
            target_compute_fraction: TARGET_94,
            target_spec_compute_fraction: FULL,
            allow_reverse: false,
        }
    }

    pub fn single_sparse_band(target: u64) -> (r: TernaryArchConfig)
        ensures
            r == TernaryArchVariantId::SingleSparseBand.arch(target)->0,
    {
        TernaryArchConfig {
            gate_layout: GateLayout::SingleSparse,
            corrector: CorrectorKind::BandWide,
            target_compute_fraction: target,
            target_spec_compute_fraction: target,
            allow_reverse: true,
        }
    }

    pub fn single_sparse_affine(target: u64) -> (r: TernaryArchConfig)
        ensures
            r == TernaryArchVariantId::SingleSparseAffine.arch(target)->0,
    {
        TernaryArchConfig {
            gate_layout: GateLayout::SingleSparse,
            corrector: CorrectorKind::Affine,
            target_compute_fraction: target,
            target_spec_compute_fraction: target,
            allow_reverse: false,
        }
    }

    pub fn single_sparse_dense(target: u64) -> (r: TernaryArchConfig)
        ensures
            r == TernaryArchVariantId::SingleSparseDense.arch(target)->0,
    {
        TernaryArchConfig {
            gate_layout: GateLayout::SingleSparse,
            corrector: CorrectorKind::Dense,
            target_compute_fraction: target,
            target_spec_compute_fraction: target,
            allow_reverse: false,
        }
    }
}

impl Default for TernaryArchConfig {
    fn default() -> (r: TernaryArchConfig)
        ensures
            r == (TernaryArchConfig {
                gate_layout: GateLayout::SingleSparse,
                corrector: CorrectorKind::BandWide,
                target_compute_fraction: TARGET_96,
                target_spec_compute_fraction: FULL,
                allow_reverse: true,
            }),
    {
        TernaryArchConfig {
            gate_layout: GateLayout::SingleSparse,
            corrector: CorrectorKind::BandWide,
            target_compute_fraction: TARGET_96,
            target_spec_compute_fraction: FULL,
            allow_reverse: true,
        }
    }
}

impl TernaryArchVariantId {
    pub open spec fn label_text(self) -> Seq<char> {
        match self {
            TernaryArchVariantId::RefRustfft => "ref_rustfft"@,
            TernaryArchVariantId::RefRlxOpFft => "ref_rlx_op_fft"@,
            TernaryArchVariantId::RefButterflyCompiled => "ref_butterfly_compiled"@,
            TernaryArchVariantId::FusionOnly => "fusion_only"@,
            TernaryArchVariantId::SingleSparseBand => "single_sparse_band"@,
            TernaryArchVariantId::SingleSparseAffine => "single_sparse_affine"@,
            TernaryArchVariantId::SingleSparseDense => "single_sparse_dense"@,
            TernaryArchVariantId::DualPath => "dual_path"@,
        }
    }

    pub fn label(self) -> (r: &'static str)
        ensures
            r@ == self.label_text(),
    {
        match self {
            TernaryArchVariantId::RefRustfft => "ref_rustfft",
            TernaryArchVariantId::RefRlxOpFft => "ref_rlx_op_fft",
            TernaryArchVariantId::RefButterflyCompiled => "ref_butterfly_compiled",
            TernaryArchVariantId::FusionOnly => "fusion_only",
            TernaryArchVariantId::SingleSparseBand => "single_sparse_band",
            TernaryArchVariantId::SingleSparseAffine => "single_sparse_affine",
            TernaryArchVariantId::SingleSparseDense => "single_sparse_dense",
            TernaryArchVariantId::DualPath => "dual_path",
        }
    }

    /// Whether a variant has a ternary model of its own.
    pub open spec fn trained(self) -> bool {
        !(self is RefRustfft || self is RefRlxOpFft || self is RefButterflyCompiled)
    }

    pub fn needs_ternary_train(self) -> (r: bool)
        ensures
            r == self.trained(),
    {
        !matches!(
            self,
            TernaryArchVariantId::RefRustfft | TernaryArchVariantId::RefRlxOpFft
                | TernaryArchVariantId::RefButterflyCompiled
        )
    }

    /// The architecture of a variant with a target; the references have none.
    pub open spec fn arch(self, target: u64) -> Option<TernaryArchConfig> {
        let sparse = TernaryArchConfig {
            gate_layout: GateLayout::SingleSparse,
            corrector: CorrectorKind::BandWide,
            target_compute_fraction: target,
            target_spec_compute_fraction: target,
            allow_reverse: false,
        };
        match self {
            TernaryArchVariantId::FusionOnly => Some(
                TernaryArchConfig {
                    gate_layout: GateLayout::AllForward,
                    corrector: CorrectorKind::Identity,
                    target_compute_fraction: FULL,
                    target_spec_compute_fraction: FULL,
                    allow_reverse: false,
                },
            ),
            TernaryArchVariantId::SingleSparseBand => Some(
                TernaryArchConfig { allow_reverse: true, ..sparse },
            ),
            TernaryArchVariantId::SingleSparseAffine => Some(
                TernaryArchConfig { corrector: CorrectorKind::Affine, ..sparse },
            ),
            TernaryArchVariantId::SingleSparseDense => Some(
                TernaryArchConfig { corrector: CorrectorKind::Dense, ..sparse },
            ),
            TernaryArchVariantId::DualPath => Some(
                TernaryArchConfig {
                    gate_layout: GateLayout::DualMelSpec,
                    corrector: CorrectorKind::BandWide,
                    target_compute_fraction: TARGET_94,
                    target_spec_compute_fraction: FULL,
                    allow_reverse: false,
                },
            ),
            _ => None,
        }
    }

    pub fn arch_config(self, prune_target: u64) -> (r: Option<TernaryArchConfig>)
        ensures
            r == self.arch(prune_target),
    {
        match self {
            TernaryArchVariantId::FusionOnly => Some(TernaryArchConfig::fusion_only()),
            TernaryArchVariantId::SingleSparseBand => Some(
                TernaryArchConfig::single_sparse_band(prune_target),
            ),
            TernaryArchVariantId::SingleSparseAffine => Some(
                TernaryArchConfig::single_sparse_affine(prune_target),
            ),
            TernaryArchVariantId::SingleSparseDense => Some(
                TernaryArchConfig::single_sparse_dense(prune_target),
            ),
            TernaryArchVariantId::DualPath => Some(TernaryArchConfig::dual_path_mel_sparse()),
            _ => None,
        }
    }

    /// How a variant runs, in order.
    pub open spec fn modes(self) -> Seq<TernaryExecMode> {
        match self {
            TernaryArchVariantId::RefRustfft => seq![TernaryExecMode::Eager],
            TernaryArchVariantId::RefRlxOpFft => seq![TernaryExecMode::Eager],
            TernaryArchVariantId::RefButterflyCompiled => seq![TernaryExecMode::Eager],
            TernaryArchVariantId::SingleSparseAffine => seq![TernaryExecMode::Eager],
            TernaryArchVariantId::SingleSparseBand => seq![
                TernaryExecMode::Eager,
                TernaryExecMode::CompiledMel,
                TernaryExecMode::CompiledSpectrum,
            ],
            _ => seq![TernaryExecMode::CompiledMel, TernaryExecMode::CompiledSpectrum],
        }
    }

    pub fn exec_modes(self) -> (r: Vec<TernaryExecMode>)
        ensures
            r@ == self.modes(),
    {
        let mut out: Vec<TernaryExecMode> = Vec::new();
        let eager = matches!(
            self,
            TernaryArchVariantId::RefRustfft | TernaryArchVariantId::RefRlxOpFft
                | TernaryArchVariantId::RefButterflyCompiled
                | TernaryArchVariantId::SingleSparseAffine | TernaryArchVariantId::SingleSparseBand
        );
        let compiled = matches!(
            self,
            TernaryArchVariantId::FusionOnly | TernaryArchVariantId::SingleSparseDense
                | TernaryArchVariantId::DualPath | TernaryArchVariantId::SingleSparseBand
        );
        if eager {
            out.push(TernaryExecMode::Eager);
        }
        if compiled {
            out.push(TernaryExecMode::CompiledMel);
            out.push(TernaryExecMode::CompiledSpectrum);
        }
        assert(out@ =~= self.modes());
        out
    }
}

/// Whether a target is close enough to 0.96 or one for the dense corrector.
pub open spec fn dense_target(t: u64) -> bool {
    (less(BELOW_96, t) && less(t, ABOVE_96)) || (less(BELOW_FULL, t) && less(t, ABOVE_FULL))
}

/// The sparse variants of some targets.
pub open spec fn sparse_variants(quick: bool, targets: Seq<u64>) -> Seq<(TernaryArchVariantId, u64)>
    decreases targets.len(),
{
    if targets.len() == 0 {
        Seq::empty()
    } else {
        let t = targets.last();
        let before = sparse_variants(quick, targets.drop_last()).push(
            (TernaryArchVariantId::SingleSparseBand, t),
        );
        if quick {
            before
        } else {
            let affine = before.push((TernaryArchVariantId::SingleSparseAffine, t));
            if dense_target(t) {
                affine.push((TernaryArchVariantId::SingleSparseDense, t))
            } else {
                affine
            }
        }
    }
}

/// The variants of a study with their targets: the references and the fused baseline, the sparse
/// variants of every target, and the dual path.
pub open spec fn matrix(quick: bool, targets: Seq<u64>) -> Seq<(TernaryArchVariantId, u64)> {
    (seq![
        (TernaryArchVariantId::RefRustfft, FULL),
        (TernaryArchVariantId::RefRlxOpFft, FULL),
        (TernaryArchVariantId::RefButterflyCompiled, FULL),
        (TernaryArchVariantId::FusionOnly, FULL),
    ] + sparse_variants(quick, targets)).push(
        (
            TernaryArchVariantId::DualPath,
            if quick {
                TARGET_96
            } else {
                TARGET_94
            },
        ),
    )
}

/// The variants of a study with their targets.
pub fn variant_matrix(quick: bool, prune_targets: &Vec<u64>) -> (r: Vec<
    (TernaryArchVariantId, u64),
>)
    ensures
        r@ == matrix(quick, prune_targets@),
{
    let mut out = vec![
        (TernaryArchVariantId::RefRustfft, FULL),
        (TernaryArchVariantId::RefRlxOpFft, FULL),
        (TernaryArchVariantId::RefButterflyCompiled, FULL),
        (TernaryArchVariantId::FusionOnly, FULL),
    ];
    let ghost head = out@;
    let mut i: usize = 0;
    assert(head + sparse_variants(quick, prune_targets@.take(0)) =~= head);
    while i < prune_targets.len()
        invariant
            i <= prune_targets.len(),
            out@ == head + sparse_variants(quick, prune_targets@.take(i as int)),
        decreases prune_targets.len() - i,
    {
        let t: u64 = prune_targets[i];
        assert(prune_targets@.take(i + 1).drop_last() =~= prune_targets@.take(i as int));
        out.push((TernaryArchVariantId::SingleSparseBand, t));
        if !quick {
            out.push((TernaryArchVariantId::SingleSparseAffine, t));
            if (is_less(BELOW_96, t) && is_less(t, ABOVE_96)) || (is_less(BELOW_FULL, t)
                && is_less(t, ABOVE_FULL)) {
                out.push((TernaryArchVariantId::SingleSparseDense, t));
            }
        }
        assert(out@ =~= head + sparse_variants(quick, prune_targets@.take(i + 1)));
        i += 1;
    }
    assert(prune_targets@.take(prune_targets@.len() as int) =~= prune_targets@);
    out.push(
        (
            TernaryArchVariantId::DualPath,
            if quick {
                TARGET_96
            } else {
                TARGET_94
            },
        ),
    );
    assert(head =~= seq![
        (TernaryArchVariantId::RefRustfft, FULL),
        (TernaryArchVariantId::RefRlxOpFft, FULL),
        (TernaryArchVariantId::RefButterflyCompiled, FULL),
        (TernaryArchVariantId::FusionOnly, FULL),
    ]);
    out
}

/// A quick study of the same targets has no more variants.
pub proof fn quick_matrix_is_smaller(targets: Seq<u64>)
    ensures
        matrix(true, targets).len() <= matrix(false, targets).len(),
        targets.len() > 0 ==> matrix(true, targets).len() < matrix(false, targets).len(),
{
    lemma_sparse_sizes(targets);
}

proof fn lemma_sparse_sizes(targets: Seq<u64>)
    ensures
        sparse_variants(true, targets).len() == targets.len(),
        sparse_variants(false, targets).len() >= 2 * targets.len(),
    decreases targets.len(),
{
    if targets.len() > 0 {
        lemma_sparse_sizes(targets.drop_last());
    }
}

// ---------------------------------------------------------------------------
// Jobs
// ---------------------------------------------------------------------------

/// One measurement to make. The device and the variant are given by their places in the lists of
/// the study.
#[derive(Debug, Clone, Copy, PartialEq, Eq, Structural)]
pub struct TernaryJob {
    pub n_fft: usize,
    pub batch: usize,
    pub device: usize,
    pub variant: usize,
    pub mode: TernaryExecMode,
    pub pipeline: E2ePipeline,
}

/// The pipelines of the study: all but the peaks.
pub open spec fn studied_pipelines() -> Seq<E2ePipeline> {
    seq![E2ePipeline::Mel, E2ePipeline::Welch, E2ePipeline::Q8Spectrum, E2ePipeline::Denoise]
}

/// The jobs of some modes of a variant.
pub open spec fn mode_jobs(
    n_fft: usize,
    batch: usize,
    device: usize,
    variant: usize,
    modes: Seq<TernaryExecMode>,
) -> Seq<TernaryJob>
    decreases modes.len(),
{
    if modes.len() == 0 {
        Seq::empty()
    } else {
        let mode = modes.last();
        mode_jobs(n_fft, batch, device, variant, modes.drop_last()) + Seq::new(
            4,
            |k: int|
                TernaryJob {
                    n_fft,
                    batch,
                    device,
                    variant,
                    mode,
                    pipeline: studied_pipelines()[k],
                },
        )
    }
}

/// The jobs of the first `k` variants on a device.
pub open spec fn variant_jobs(
    n_fft: usize,
    batch: usize,
    device: usize,
    m: Seq<(TernaryArchVariantId, u64)>,
    k: nat,
) -> Seq<TernaryJob>
    decreases k,
{
    if k == 0 {
        Seq::empty()
    } else {
        variant_jobs(n_fft, batch, device, m, (k - 1) as nat) + mode_jobs(
            n_fft,
            batch,
            device,
            (k - 1) as usize,
            m[k - 1].0.modes(),
        )
    }
}

/// The jobs of the first `k` devices; devices that cannot be used are left out.
pub open spec fn device_jobs(
    n_fft: usize,
    batch: usize,
    devices: Seq<Seq<char>>,
    m: Seq<(TernaryArchVariantId, u64)>,
    environment: Option<Seq<char>>,
    a: Available,
    k: nat,
) -> Seq<TernaryJob>
    decreases k,
{
    if k == 0 {
        Seq::empty()
    } else {
        let before = device_jobs(n_fft, batch, devices, m, environment, a, (k - 1) as nat);
        if resolved(wanted_device(Some(devices[k - 1]), environment), a) is Ok {
            before + variant_jobs(n_fft, batch, (k - 1) as usize, m, m.len())
        } else {
            before
        }
    }
}

/// The jobs of one size and batch, in the order in which they run.
pub fn plan_cell(
    n_fft: usize,
    batch: usize,
    devices: &Vec<String>,
    variants: &Vec<(TernaryArchVariantId, u64)>,
    environment: Option<&str>,
    available: Available,
) -> (r: Vec<TernaryJob>)
    ensures
        r@ == device_jobs(
            n_fft,
            batch,
            texts(devices@),
            variants@,
            view_of(environment),
            available,
            devices@.len(),
        ),
{
    let ghost names = texts(devices@);
    let ghost env = view_of(environment);
    let mut out: Vec<TernaryJob> = Vec::new();
    let mut d: usize = 0;
    while d < devices.len()
        invariant
            d <= devices.len(),
            names == texts(devices@),
            env == view_of(environment),
            out@ == device_jobs(n_fft, batch, names, variants@, env, available, d as nat),
        decreases devices.len() - d,
    {
        assert(names[d as int] == devices@[d as int]@);
        if resolve_train_device_in(Some(devices[d].as_str()), environment, available).is_ok() {
            let ghost start = out@;
            let mut v: usize = 0;
            assert(start + Seq::<TernaryJob>::empty() =~= start);
            while v < variants.len()
                invariant
                    v <= variants.len(),
                    out@ == start + variant_jobs(n_fft, batch, d, variants@, v as nat),
                decreases variants.len() - v,
            {
                let modes = variants[v].0.exec_modes();
                let ghost here = out@;
                let mut e: usize = 0;
                assert(here + mode_jobs(n_fft, batch, d, v, modes@.take(0)) =~= here);
                while e < modes.len()
                    invariant
                        e <= modes.len(),
                        out@ == here + mode_jobs(n_fft, batch, d, v, modes@.take(e as int)),
                    decreases modes.len() - e,
                {
                    let mode = modes[e];
                    assert(modes@.take(e + 1).drop_last() =~= modes@.take(e as int));
                    let ghost was = out@;
                    out.push(
                        TernaryJob {
                            n_fft,
                            batch,
                            device: d,
                            variant: v,
                            mode,
                            pipeline: E2ePipeline::Mel,
                        },
                    );
                    out.push(
                        TernaryJob {
                            n_fft,
                            batch,
                            device: d,
                            variant: v,
                            mode,
                            pipeline: E2ePipeline::Welch,
                        },
                    );
                    out.push(
                        TernaryJob {
                            n_fft,
                            batch,
                            device: d,
                            variant: v,
                            mode,
                            pipeline: E2ePipeline::Q8Spectrum,
                        },
                    );
                    out.push(
                        TernaryJob {
                            n_fft,
                            batch,
                            device: d,
                            variant: v,
                            mode,
                            pipeline: E2ePipeline::Denoise,
                        },
                    );
                    assert(out@ =~= here + mode_jobs(n_fft, batch, d, v, modes@.take(e + 1)));
                    e += 1;
                }
                assert(modes@.take(modes@.len() as int) =~= modes@);
                assert(out@ =~= start + variant_jobs(n_fft, batch, d, variants@, (v + 1) as nat));
                v += 1;
            }
        }
        d += 1;
    }
    out
}

/// The settings of a study of ternary architectures. Targets are the bits of doubles.
#[derive(Debug)]
pub struct TernaryAblationOpts {
    pub n_ffts: Vec<usize>,
    pub batches: Vec<usize>,
    pub devices: Vec<String>,
    pub iters: usize,
    pub teacher_steps: usize,
    pub distill_steps: usize,
    pub ternary_steps: usize,
    pub prune_targets: Vec<u64>,
    pub seed: u64,
    pub quick: bool,
}

/// Whether settings are those that a study starts from, for the backends that are live: a quick one
/// runs and trains less and prunes to fewer targets.
pub open spec fn started_from(o: TernaryAblationOpts, quick: bool, a: Available) -> bool {
    &&& o.n_ffts@ == seq![128usize]
    &&& o.batches@ == seq![8usize]
    &&& texts(o.devices@) == labels(swept_devices(a))
    &&& o.iters == if quick {
        12usize
    } else {
        20
    }
    &&& o.teacher_steps == if quick {
        200usize
    } else {
        400
    }
    &&& o.distill_steps == if quick {
        300usize
    } else {
        600
    }
    &&& o.ternary_steps == o.distill_steps
    &&& o.prune_targets@ == default_targets(quick)
    &&& o.seed == 42
    &&& o.quick == quick
}

/// The targets that a study prunes to where none are given.
pub open spec fn default_targets(quick: bool) -> Seq<u64> {
    if quick {
        seq![FULL, TARGET_96]
    } else {
        seq![FULL, TARGET_98, TARGET_96, TARGET_94]
    }
}

/// The targets that a study prunes to where none are given.
pub fn prune_targets_of(quick: bool) -> (r: Vec<u64>)
    ensures
        r@ == default_targets(quick),
{
    let r = if quick {
        vec![FULL, TARGET_96]
    } else {
        vec![FULL, TARGET_98, TARGET_96, TARGET_94]
    };
    assert(r@ =~= default_targets(quick));
    r
}

impl TernaryAblationOpts {
    /// The settings that a study starts from, for the backends that are live.
    pub fn starting_in(quick: bool, a: Available) -> (r: TernaryAblationOpts)
        ensures
            started_from(r, quick, a),
    {
        let r = TernaryAblationOpts {
            n_ffts: vec![128],
            batches: vec![8],
            devices: available_devices_in(a),
            iters: if quick {
                12
            } else {
                20
            },
            teacher_steps: if quick {
                200
            } else {
                400
            },
            distill_steps: if quick {
                300
            } else {
                600
            },
            ternary_steps: if quick {
                300
            } else {
                600
            },
            prune_targets: prune_targets_of(quick),
            seed: 42,
            quick,
        };
        assert(r.n_ffts@ =~= seq![128usize]);
        assert(r.batches@ =~= seq![8usize]);
        r
    }

    /// Whether a study can be run: it needs a size and a batch.
    pub fn can_run(&self) -> (r: bool)
        ensures
            r == (self.n_ffts@.len() > 0 && self.batches@.len() > 0),
    {
        self.n_ffts.len() > 0 && self.batches.len() > 0
    }
}

impl Default for TernaryAblationOpts {
    /// The settings of a full study on this machine.
    fn default() -> (r: TernaryAblationOpts)
        ensures
            exists|a: Available| started_from(r, false, a),
    {
        let a = Available::probe();
        let r = TernaryAblationOpts::starting_in(false, a);
        assert(started_from(r, false, a));
        r
    }
}

/// The settings of a quick study on this machine.
pub fn quick_ablation_opts() -> (r: TernaryAblationOpts)
    ensures
        exists|a: Available| started_from(r, true, a),
{
    let a = Available::probe();
    let r = TernaryAblationOpts::starting_in(true, a);
    assert(started_from(r, true, a));
    r
}

/// For how many steps a student is trained after pruning, on reference spectra and on mel energies,
/// where a study is quick; elsewhere the trainer has its own counts.
pub fn post_prune_steps(quick: bool) -> (r: Option<(usize, usize)>)
    ensures
        r == if quick {
            Some((120usize, 120usize))
        } else {
            None
        },
{
    if quick {
        Some((120, 120))
    } else {
        None
    }
}

/// The seeds of one size and batch: of the signals, the teacher, the student and the ternary
/// student.
pub fn cell_seeds(seed: u64, n_fft: usize, batch: usize) -> (r: (u64, u64, u64, u64))
    ensures
        r.0 == wrapped(seed + n_fft + batch),
        r.1 == seed,
        r.2 == wrapped(seed + 1),
        r.3 == wrapped(seed + 3),
{
    (
        seed.wrapping_add(n_fft as u64).wrapping_add(batch as u64),
        seed,
        seed.wrapping_add(1),
        seed.wrapping_add(3),
    )
}

/// The architecture that a variant is trained with: that of the variant, with the study's target
/// for the mel path.
pub fn trained_arch(variant: TernaryArchVariantId, prune_target: u64) -> (r: Option<
    TernaryArchConfig,
>)
    ensures
        match variant.arch(prune_target) {
            Some(a) => r == Some(
                TernaryArchConfig { target_compute_fraction: prune_target, ..a },
            ),
            None => r is None,
        },
{
    match variant.arch_config(prune_target) {
        Some(a) => Some(TernaryArchConfig { target_compute_fraction: prune_target, ..a }),
        None => None,
    }
}

/// How a variant computes a pipeline: the references by their own means, with the reference for
/// what the native operator lacks, and the trained ones by the ternary model, compiled where the
/// mode compiles that pipeline. `None` where a mode does not cover the pipeline.
pub open spec fn ternary_route(v: TernaryArchVariantId, p: E2ePipeline, e: TernaryExecMode) -> Option<
    Route,
> {
    let peaks = p is WelchPeaks || p is WelchPeaksUltra;
    let output = match p {
        E2ePipeline::Mel => Output::LogMel,
        E2ePipeline::Welch => Output::WelchPsd,
        E2ePipeline::WelchPeaks => Output::WelchPeaks,
        E2ePipeline::WelchPeaksUltra => Output::WelchPeaks,
        _ => Output::RawSpectrum,
    };
    match v {
        TernaryArchVariantId::RefRustfft => Some(Route { output, source: Source::Reference }),
        TernaryArchVariantId::RefRlxOpFft => Some(
            Route {
                output,
                source: if p is Welch || peaks {
                    Source::Reference
                } else {
                    Source::NativeOp
                },
            },
        ),
        TernaryArchVariantId::RefButterflyCompiled => Some(
            Route { output, source: Source::Butterfly },
        ),
        _ => if p is Welch || peaks || e is Eager {
            Some(Route { output, source: Source::Ternary })
        } else if (p is Mel) == (e is CompiledMel) {
            Some(Route { output, source: Source::CompiledTernary })
        } else {
            None
        },
    }
}

/// How a variant computes a pipeline.
pub fn route_ternary(v: TernaryArchVariantId, p: E2ePipeline, e: TernaryExecMode) -> (r: Option<
    Route,
>)
    ensures
        r == ternary_route(v, p, e),
{
    let peaks = matches!(p, E2ePipeline::WelchPeaks) || matches!(p, E2ePipeline::WelchPeaksUltra);
    let welch = matches!(p, E2ePipeline::Welch) || peaks;
    let output = match p {
        E2ePipeline::Mel => Output::LogMel,
        E2ePipeline::Welch => Output::WelchPsd,
        E2ePipeline::WelchPeaks => Output::WelchPeaks,
        E2ePipeline::WelchPeaksUltra => Output::WelchPeaks,
        _ => Output::RawSpectrum,
    };
    match v {
        TernaryArchVariantId::RefRustfft => Some(Route { output, source: Source::Reference }),
        TernaryArchVariantId::RefRlxOpFft => {
            let source = if welch {
                Source::Reference
            } else {
                Source::NativeOp
            };
            Some(Route { output, source })
        },
        TernaryArchVariantId::RefButterflyCompiled => Some(
            Route { output, source: Source::Butterfly },
        ),
        _ => {
            if welch || matches!(e, TernaryExecMode::Eager) {
                Some(Route { output, source: Source::Ternary })
            } else if matches!(p, E2ePipeline::Mel) == matches!(e, TernaryExecMode::CompiledMel) {
                Some(Route { output, source: Source::CompiledTernary })
            } else {
                None
            }
        },
    }
}

/// How often a job runs before the run that is timed.
pub fn warm_up_runs(iters: usize) -> (r: usize)
    ensures
        r == if iters == 0 {
            0
        } else {
            iters - 1
        },
{
    if iters == 0 {
        0
    } else {
        iters - 1
    }
}

// ---------------------------------------------------------------------------
// Rows
// ---------------------------------------------------------------------------

/// A share of the butterflies and the texts that show it.
#[derive(Clone, Debug)]
pub struct Ratio {
    /// The value as the bits of a double.
    pub bits: u64,
    /// The shortest decimal text, with a point.
    pub debug: String,
    /// Three decimals.
    pub fixed3: String,
    /// Four decimals.
    pub fixed4: String,
    /// Six decimals.
    pub fixed6: String,
}

/// What a share stands for.
pub struct RatioView {
    pub bits: u64,
    pub debug: Seq<char>,
    pub fixed3: Seq<char>,
    pub fixed4: Seq<char>,
    pub fixed6: Seq<char>,
}

impl View for Ratio {
    type V = RatioView;

    open spec fn view(&self) -> RatioView {
        RatioView {
            bits: self.bits,
            debug: self.debug@,
            fixed3: self.fixed3@,
            fixed4: self.fixed4@,
            fixed6: self.fixed6@,
        }
    }
}

impl Ratio {
    fn copy(&self) -> (r: Ratio)
        ensures
            r@ == self@,
    {
        Ratio {
            bits: self.bits,
            debug: copy_text(&self.debug),
            fixed3: copy_text(&self.fixed3),
            fixed4: copy_text(&self.fixed4),
            fixed6: copy_text(&self.fixed6),
        }
    }
}

/// The view of an optional share.
pub open spec fn ratio_view(t: Option<Ratio>) -> Option<RatioView> {
    match t {
        Some(v) => Some(v@),
        None => None,
    }
}

fn copy_ratio(t: &Option<Ratio>) -> (r: Option<Ratio>)
    ensures
        ratio_view(r) == ratio_view(*t),
{
    match t {
        Some(v) => Some(v.copy()),
        None => None,
    }
}

/// One measurement of one variant.
#[derive(Clone, Debug)]
pub struct TernaryAblationRow {
    pub variant: String,
    pub pipeline: String,
    /// How the variant ran.
    pub mode: String,
    pub n_fft: usize,
    pub batch: usize,
    pub device: String,
    pub iters: usize,
    pub ms: Figure,
    pub max_err: Figure,
    pub norm_err: Figure,
    /// The share of butterflies that are computed.
    pub compute_fraction: Option<Ratio>,
    pub skip_gates: Option<usize>,
    pub prune_target: Option<Ratio>,
    pub status: String,
    pub note: Option<String>,
}

/// What a row stands for.
pub struct TernaryRowView {
    pub variant: Seq<char>,
    pub pipeline: Seq<char>,
    pub mode: Seq<char>,
    pub n_fft: usize,
    pub batch: usize,
    pub device: Seq<char>,
    pub iters: usize,
    pub ms: FigureView,
    pub max_err: FigureView,
    pub norm_err: FigureView,
    pub compute_fraction: Option<RatioView>,
    pub skip_gates: Option<usize>,
    pub prune_target: Option<RatioView>,
    pub status: Seq<char>,
    pub note: Option<Seq<char>>,
}

impl View for TernaryAblationRow {
    type V = TernaryRowView;

    open spec fn view(&self) -> TernaryRowView {
        TernaryRowView {
            variant: self.variant@,
            pipeline: self.pipeline@,
            mode: self.mode@,
            n_fft: self.n_fft,
            batch: self.batch,
            device: self.device@,
            iters: self.iters,
            ms: self.ms@,
            max_err: self.max_err@,
            norm_err: self.norm_err@,
            compute_fraction: ratio_view(self.compute_fraction),
            skip_gates: self.skip_gates,
            prune_target: ratio_view(self.prune_target),
            status: self.status@,
            note: note_view(self.note),
        }
    }
}

/// The views of some rows.
pub open spec fn ternary_views(rows: Seq<TernaryAblationRow>) -> Seq<TernaryRowView> {
    rows.map_values(|r: TernaryAblationRow| r@)
}

/// How a run ended.
#[derive(Clone, Debug)]
pub enum TernaryOutcome {
    Ran { ms: Figure, max_err: Figure, norm_err: Figure },
    Failed { message: String },
}

/// What is known of the student that ran.
#[derive(Clone, Debug)]
pub struct StudentFacts {
    pub compute_fraction: Option<Ratio>,
    pub skip_gates: Option<usize>,
}

/// The row that a run leaves. A run that succeeded names its target only where the variant is
/// trained; one that failed always does.
pub open spec fn ternary_row(
    job: TernaryJob,
    variant: TernaryArchVariantId,
    target: RatioView,
    device: Seq<char>,
    iters: usize,
    facts: StudentFacts,
    outcome: TernaryOutcome,
) -> TernaryRowView {
    let (ms, max_err, norm_err) = match outcome {
        TernaryOutcome::Ran { ms, max_err, norm_err } => (ms@, max_err@, norm_err@),
        TernaryOutcome::Failed { message } => (
            Figure::unmeasured(),
            Figure::unmeasured(),
            Figure::unmeasured(),
        ),
    };
    TernaryRowView {
        variant: variant.label_text(),
        pipeline: job.pipeline.label_text(),
        mode: job.mode.label_text(),
        n_fft: job.n_fft,
        batch: job.batch,
        device,
        iters,
        ms,
        max_err,
        norm_err,
        compute_fraction: ratio_view(facts.compute_fraction),
        skip_gates: facts.skip_gates,
        prune_target: if outcome is Ran && !variant.trained() {
            None
        } else {
            Some(target)
        },
        status: if outcome is Ran {
            "ok"@
        } else {
            "bench_fail"@
        },
        note: match outcome {
            TernaryOutcome::Failed { message } => Some(message@),
            TernaryOutcome::Ran { ms, max_err, norm_err } => None,
        },
    }
}

/// The row that a run leaves.
pub fn ternary_row_for(
    job: &TernaryJob,
    variant: TernaryArchVariantId,
    target: &Ratio,
    device: &str,
    iters: usize,
    facts: &StudentFacts,
    outcome: &TernaryOutcome,
) -> (r: TernaryAblationRow)
    ensures
        r@ == ternary_row(*job, variant, target@, device@, iters, *facts, *outcome),
{
    let (ms, max_err, norm_err, status, note, named) = match outcome {
        TernaryOutcome::Ran { ms, max_err, norm_err } => (
            ms.copy(),
            max_err.copy(),
            norm_err.copy(),
            "ok",
            None,
            variant.needs_ternary_train(),
        ),
        TernaryOutcome::Failed { message } => (
            Figure::not_a_number(),
            Figure::not_a_number(),
            Figure::not_a_number(),
            "bench_fail",
            Some(copy_text(message)),
            true,
        ),
    };
    TernaryAblationRow {
        variant: variant.label().to_owned(),
        pipeline: job.pipeline.label().to_owned(),
        mode: job.mode.label().to_owned(),
        n_fft: job.n_fft,
        batch: job.batch,
        device: device.to_owned(),
        iters,
        ms,
        max_err,
        norm_err,
        compute_fraction: copy_ratio(&facts.compute_fraction),
        skip_gates: facts.skip_gates,
        prune_target: if named {
            Some(target.copy())
        } else {
            None
        },
        status: status.to_owned(),
        note,
    }
}

/// Whether a row holds a usable measurement.
pub open spec fn ternary_usable(r: TernaryRowView) -> bool {
    r.status == "ok"@ && finite(r.ms.bits) && rank(r.ms.bits) > 0
}

/// Whether a row holds a usable measurement.
pub fn ternary_ablation_row_ok(r: &TernaryAblationRow) -> (ok: bool)
    ensures
        ok == ternary_usable(r@),
{
    same_text(r.status.as_str(), "ok") && is_finite(r.ms.bits) && rank_of(r.ms.bits) > 0
}

// ---------------------------------------------------------------------------
// Groups
// ---------------------------------------------------------------------------

/// The text by which targets are grouped.
pub open spec fn target_key(t: Option<RatioView>) -> Seq<char> {
    match t {
        Some(v) => v.fixed6,
        None => "none"@,
    }
}

/// What the rows of a group share: variant, mode and target.
pub open spec fn group_key(r: TernaryRowView) -> (Seq<char>, Seq<char>, Seq<char>) {
    (r.variant, r.mode, target_key(r.prune_target))
}

fn target_text(t: &Option<Ratio>) -> (r: String)
    ensures
        r@ == target_key(ratio_view(*t)),
{
    match t {
        Some(v) => copy_text(&v.fixed6),
        None => "none".to_owned(),
    }
}

fn same_group(a: &TernaryAblationRow, b: &TernaryAblationRow) -> (r: bool)
    ensures
        r == (group_key(a@) == group_key(b@)),
{
    same_text(a.variant.as_str(), b.variant.as_str()) && same_text(
        a.mode.as_str(),
        b.mode.as_str(),
    ) && same_text(target_text(&a.prune_target).as_str(), target_text(&b.prune_target).as_str())
}

/// The place of the group of a row among some groups.
pub open spec fn group_place(
    rows: Seq<TernaryRowView>,
    groups: Seq<Seq<usize>>,
    r: TernaryRowView,
) -> Option<int>
    decreases groups.len(),
{
    if groups.len() == 0 {
        None
    } else if group_key(rows[groups[0][0] as int]) == group_key(r) {
        Some(0)
    } else {
        match group_place(rows, groups.drop_first(), r) {
            Some(k) => Some(k + 1),
            None => None,
        }
    }
}

/// The usable rows of a device, size and batch, by their places, grouped by variant, mode and
/// target: groups in the order of their first rows, rows in their own order.
pub open spec fn groups_of(
    rows: Seq<TernaryRowView>,
    n: nat,
    device: Seq<char>,
    n_fft: usize,
    batch: usize,
) -> Seq<Seq<usize>>
    decreases n,
{
    if n == 0 {
        Seq::empty()
    } else {
        let i = (n - 1) as nat;
        let before = groups_of(rows, i, device, n_fft, batch);
        let r = rows[i as int];
        if r.device != device || r.n_fft != n_fft || r.batch != batch || !ternary_usable(r) {
            before
        } else {
            match group_place(rows, before, r) {
                Some(k) => before.update(k, before[k].push(i as usize)),
                None => before.push(seq![i as usize]),
            }
        }
    }
}

/// The contents of a list of lists.
pub open spec fn lists(v: Seq<Vec<usize>>) -> Seq<Seq<usize>> {
    v.map_values(|x: Vec<usize>| x@)
}

/// The usable rows of a device, size and batch, grouped by variant, mode and target.
pub fn ternary_groups(rows: &Vec<TernaryAblationRow>, device: &str, n_fft: usize, batch: usize) -> (r:
    Vec<Vec<usize>>)
    ensures
        lists(r@) == groups_of(ternary_views(rows@), rows@.len(), device@, n_fft, batch),
        forall|g: int| 0 <= g < r.len() ==> (#[trigger] r@[g]).len() > 0,
        forall|g: int, k: int|
            0 <= g < r.len() && 0 <= k < r@[g].len() ==> (#[trigger] r@[g]@[k]) < rows.len(),
{
    let ghost v = ternary_views(rows@);
    let mut out: Vec<Vec<usize>> = Vec::new();
    let mut i: usize = 0;
    assert(lists(out@) =~= groups_of(v, 0, device@, n_fft, batch));
    while i < rows.len()
        invariant
            i <= rows.len(),
            v == ternary_views(rows@),
            lists(out@) == groups_of(v, i as nat, device@, n_fft, batch),
            forall|g: int| 0 <= g < out.len() ==> (#[trigger] out@[g]).len() > 0,
            forall|g: int, k: int|
                0 <= g < out.len() && 0 <= k < out@[g].len() ==> (#[trigger] out@[g]@[k]) < i,
        decreases rows.len() - i,
    {
        let r = &rows[i];
        assert(v[i as int] == r@);
        let ghost before = lists(out@);
        if same_text(r.device.as_str(), device) && r.n_fft == n_fft && r.batch == batch
            && ternary_ablation_row_ok(r) {
            let mut g: usize = 0;
            assert(before.skip(0) =~= before);
            while g < out.len() && !same_group(&rows[out[g][0]], r)
                invariant
                    g <= out.len(),
                    i < rows.len(),
                    r@ == rows@[i as int]@,
                    v == ternary_views(rows@),
                    before == lists(out@),
                    forall|a: int| 0 <= a < out.len() ==> (#[trigger] out@[a]).len() > 0,
                    forall|a: int, k: int|
                        0 <= a < out.len() && 0 <= k < out@[a].len() ==> (#[trigger] out@[a]@[k])
                            < i,
                    group_place(v, before, r@) == (match group_place(
                        v,
                        before.skip(g as int),
                        r@,
                    ) {
                        Some(k) => Some(k + g),
                        None => None,
                    }),
                decreases out.len() - g,
            {
                proof {
                    let here = before.skip(g as int);
                    assert(here[0] == out@[g as int]@);
                    assert(out@[g as int]@[0] < i);
                    assert(v[out@[g as int]@[0] as int] == rows@[out@[g as int]@[0] as int]@);
                    assert(here.drop_first() =~= before.skip(g + 1));
                }
                g += 1;
            }
            if g < out.len() {
                proof {
                    let here = before.skip(g as int);
                    assert(here[0] == out@[g as int]@);
                    assert(out@[g as int]@[0] < i);
                    assert(v[out@[g as int]@[0] as int] == rows@[out@[g as int]@[0] as int]@);
                    assert(group_place(v, before, r@) == Some(g as int));
                }
                let mut grown = clone_places(&out[g]);
                grown.push(i);
                let ghost grown_v = grown@;
                out.set(g, grown);
                assert(lists(out@) =~= before.update(g as int, grown_v));
            } else {
                assert(before.skip(g as int) =~= Seq::empty());
                let one = vec![i];
                assert(one@ =~= seq![i]);
                out.push(one);
                assert(lists(out@) =~= before.push(seq![i]));
            }
        }
        i += 1;
    }
    out
}

fn clone_places(v: &Vec<usize>) -> (r: Vec<usize>)
    ensures
        r@ == v@,
{
    let mut out: Vec<usize> = Vec::new();
    let mut i: usize = 0;
    while i < v.len()
        invariant
            i <= v.len(),
            out@ == v@.take(i as int),
        decreases v.len() - i,
    {
        out.push(v[i]);
        assert(out@ =~= v@.take(i + 1));
        i += 1;
    }
    assert(out@ =~= v@);
    out
}

/// The last row of a pipeline in a group.
pub open spec fn last_in_group(
    rows: Seq<TernaryRowView>,
    group: Seq<usize>,
    pipeline: Seq<char>,
) -> Option<usize>
    decreases group.len(),
{
    if group.len() == 0 {
        None
    } else if rows[group.last() as int].pipeline == pipeline {
        Some(group.last())
    } else {
        last_in_group(rows, group.drop_last(), pipeline)
    }
}

/// The normalised error of a pipeline in a group, not a number where the group has none.
pub open spec fn group_err(
    rows: Seq<TernaryRowView>,
    group: Seq<usize>,
    pipeline: Seq<char>,
) -> FigureView {
    match last_in_group(rows, group, pipeline) {
        Some(i) => rows[i as int].norm_err,
        None => Figure::unmeasured(),
    }
}

fn group_error(rows: &Vec<TernaryAblationRow>, group: &Vec<usize>, pipeline: &str) -> (r: Figure)
    requires
        forall|k: int| 0 <= k < group.len() ==> (#[trigger] group@[k]) < rows.len(),
    ensures
        r@ == group_err(ternary_views(rows@), group@, pipeline@),
{
    let ghost v = ternary_views(rows@);
    let mut i: usize = group.len();
    assert(group@.take(i as int) =~= group@);
    while i > 0
        invariant
            i <= group.len(),
            v == ternary_views(rows@),
            forall|k: int| 0 <= k < group.len() ==> (#[trigger] group@[k]) < rows.len(),
            last_in_group(v, group@, pipeline@) == last_in_group(
                v,
                group@.take(i as int),
                pipeline@,
            ),
        decreases i,
    {
        let at: usize = group[i - 1];
        assert(group@.take(i as int).last() == at);
        assert(group@.take(i as int).drop_last() =~= group@.take(i - 1));
        assert(v[at as int] == rows@[at as int]@);
        if same_text(rows[at].pipeline.as_str(), pipeline) {
            return rows[at].norm_err.copy();
        }
        i -= 1;
    }
    Figure::not_a_number()
}

// ---------------------------------------------------------------------------
// Pareto frontier
// ---------------------------------------------------------------------------

/// A group as one point: its mean time and its normalised errors.
#[derive(Clone, Debug)]
pub struct TernaryParetoPoint {
    pub variant: String,
    pub mode: String,
    pub prune_target: Option<Ratio>,
    pub mean_ms: Figure,
    pub max_norm_err: Figure,
    pub mel_norm: Figure,
    pub denoise_norm: Figure,
    pub q8_norm: Figure,
    pub welch_norm: Figure,
    pub compute_fraction: Option<Ratio>,
}

/// The greater of two figures; one that is not a number is passed over.
pub open spec fn greater(a: FigureView, b: FigureView) -> FigureView {
    if nan(a.bits) || less(a.bits, b.bits) {
        b
    } else {
        a
    }
}

fn take_greater(a: Figure, b: &Figure) -> (r: Figure)
    ensures
        r@ == greater(a@, b@),
{
    if is_nan(a.bits) || is_less(a.bits, b.bits) {
        b.copy()
    } else {
        a
    }
}

/// The largest error of a group.
pub open spec fn largest_err(rows: Seq<TernaryRowView>, group: Seq<usize>) -> FigureView {
    greater(
        greater(
            greater(group_err(rows, group, "mel"@), group_err(rows, group, "denoise"@)),
            group_err(rows, group, "q8"@),
        ),
        group_err(rows, group, "welch"@),
    )
}

/// The point of a group. `mean_ms` is the mean time of the group's rows.
pub fn group_point(rows: &Vec<TernaryAblationRow>, group: &Vec<usize>, mean_ms: Figure) -> (r:
    TernaryParetoPoint)
    requires
        group.len() > 0,
        forall|k: int| 0 <= k < group.len() ==> (#[trigger] group@[k]) < rows.len(),
    ensures
        ({
            let v = ternary_views(rows@);
            let first = v[group@[0] as int];
            &&& r.variant@ == first.variant
            &&& r.mode@ == first.mode
            &&& ratio_view(r.prune_target) == first.prune_target
            &&& r.mean_ms == mean_ms
            &&& r.max_norm_err@ == largest_err(v, group@)
            &&& r.mel_norm@ == group_err(v, group@, "mel"@)
            &&& r.denoise_norm@ == group_err(v, group@, "denoise"@)
            &&& r.q8_norm@ == group_err(v, group@, "q8"@)
            &&& r.welch_norm@ == group_err(v, group@, "welch"@)
            &&& ratio_view(r.compute_fraction) == first.compute_fraction
        }),
{
    let first = &rows[group[0]];
    let mel_norm = group_error(rows, group, "mel");
    let denoise_norm = group_error(rows, group, "denoise");
    let q8_norm = group_error(rows, group, "q8");
    let welch_norm = group_error(rows, group, "welch");
    let max_norm_err = take_greater(
        take_greater(take_greater(mel_norm.copy(), &denoise_norm), &q8_norm),
        &welch_norm,
    );
    TernaryParetoPoint {
        variant: copy_text(&first.variant),
        mode: copy_text(&first.mode),
        prune_target: copy_ratio(&first.prune_target),
        mean_ms,
        max_norm_err,
        mel_norm,
        denoise_norm,
        q8_norm,
        welch_norm,
        compute_fraction: copy_ratio(&first.compute_fraction),
    }
}

/// Whether `b` is at least as good as `a` in every respect and better in one.
pub open spec fn dominates(b: TernaryParetoPoint, a: TernaryParetoPoint) -> bool {
    &&& at_most(b.mean_ms.bits, a.mean_ms.bits)
    &&& at_most(b.mel_norm.bits, a.mel_norm.bits)
    &&& at_most(b.denoise_norm.bits, a.denoise_norm.bits)
    &&& at_most(b.q8_norm.bits, a.q8_norm.bits)
    &&& at_most(b.welch_norm.bits, a.welch_norm.bits)
    &&& (less(b.mean_ms.bits, a.mean_ms.bits) || less(b.mel_norm.bits, a.mel_norm.bits) || less(
        b.denoise_norm.bits,
        a.denoise_norm.bits,
    ) || less(b.q8_norm.bits, a.q8_norm.bits) || less(b.welch_norm.bits, a.welch_norm.bits))
}

fn is_dominated_by(a: &TernaryParetoPoint, b: &TernaryParetoPoint) -> (r: bool)
    ensures
        r == dominates(*b, *a),
{
    is_at_most(b.mean_ms.bits, a.mean_ms.bits) && is_at_most(b.mel_norm.bits, a.mel_norm.bits)
        && is_at_most(b.denoise_norm.bits, a.denoise_norm.bits) && is_at_most(
        b.q8_norm.bits,
        a.q8_norm.bits,
    ) && is_at_most(b.welch_norm.bits, a.welch_norm.bits) && (is_less(
        b.mean_ms.bits,
        a.mean_ms.bits,
    ) || is_less(b.mel_norm.bits, a.mel_norm.bits) || is_less(
        b.denoise_norm.bits,
        a.denoise_norm.bits,
    ) || is_less(b.q8_norm.bits, a.q8_norm.bits) || is_less(b.welch_norm.bits, a.welch_norm.bits))
}

/// Whether some point dominates `a`.
pub open spec fn dominated(points: Seq<TernaryParetoPoint>, a: TernaryParetoPoint) -> bool {
    exists|j: int| 0 <= j < points.len() && dominates(#[trigger] points[j], a)
}

/// Dominance is a strict order: no point dominates itself, and it is transitive.
pub proof fn dominance_is_strict(a: TernaryParetoPoint, b: TernaryParetoPoint, c: TernaryParetoPoint)
    ensures
        !dominates(a, a),
        dominates(a, b) && dominates(b, c) ==> dominates(a, c),
        !(dominates(a, b) && dominates(b, a)),
{
}

/// The places of the points that no point dominates.
pub open spec fn undominated(points: Seq<TernaryParetoPoint>, n: nat) -> Seq<usize>
    decreases n,
{
    if n == 0 {
        Seq::empty()
    } else {
        let before = undominated(points, (n - 1) as nat);
        if dominated(points, points[n - 1]) {
            before
        } else {
            before.push((n - 1) as usize)
        }
    }
}

/// What the frontier is sorted by.
pub open spec fn mean_keys(points: Seq<TernaryParetoPoint>, places: Seq<usize>) -> Seq<i64> {
    places.map_values(|p: usize| err_rank(points[p as int].mean_ms.bits) as i64)
}

/// The points at some places, in some order.
pub open spec fn points_at(
    points: Seq<TernaryParetoPoint>,
    places: Seq<usize>,
    order: Seq<usize>,
) -> Seq<TernaryParetoPoint> {
    order.map_values(|i: usize| points[places[i as int] as int])
}

/// Whether `front` holds the undominated points from the fastest to the slowest, ties in their
/// first order.
pub open spec fn frontier(points: Seq<TernaryParetoPoint>, front: Seq<TernaryParetoPoint>) -> bool {
    let places = undominated(points, points.len());
    exists|order: Seq<usize>| #[trigger]
        stable_order_of::<i64>(mean_keys(points, places), order) && front == points_at(
            points,
            places,
            order,
        )
}

/// The points behind some references.
pub open spec fn behind(v: Seq<&TernaryParetoPoint>) -> Seq<TernaryParetoPoint> {
    v.map_values(|p: &TernaryParetoPoint| *p)
}

/// The points that no other point dominates, from the fastest to the slowest.
pub fn ternary_pareto_frontier(points: &Vec<TernaryParetoPoint>) -> (r: Vec<&TernaryParetoPoint>)
    ensures
        frontier(points@, behind(r@)),
{
    let mut places: Vec<usize> = Vec::new();
    let mut keys: Vec<i64> = Vec::new();
    let mut i: usize = 0;
    while i < points.len()
        invariant
            i <= points.len(),
            places@ == undominated(points@, i as nat),
            keys.len() == places.len(),
            forall|k: int|
                0 <= k < places.len() ==> (#[trigger] places@[k]) < i && keys@[k] == err_rank(
                    points@[places@[k] as int].mean_ms.bits,
                ),
        decreases points.len() - i,
    {
        let a = &points[i];
        let mut j: usize = 0;
        let mut beaten = false;
        while j < points.len() && !beaten
            invariant
                j <= points.len(),
                i < points.len(),
                a == &points@[i as int],
                !beaten ==> forall|k: int| 0 <= k < j ==> !dominates(#[trigger] points@[k], *a),
                beaten ==> dominated(points@, *a),
            decreases points.len() - j,
        {
            if i != j && is_dominated_by(a, &points[j]) {
                assert(dominates(points@[j as int], *a));
                beaten = true;
            } else {
                proof {
                    if i == j {
                        dominance_is_strict(*a, *a, *a);
                    }
                }
            }
            j += 1;
        }
        if !beaten {
            let bits: u64 = a.mean_ms.bits;
            places.push(i);
            keys.push(
                if is_nan(bits) {
                    i64::MAX
                } else {
                    rank_of(bits)
                },
            );
        }
        i += 1;
    }
    assert(models(keys@) =~= mean_keys(points@, places@));
    let order = stable_order(&keys);
    let mut out: Vec<&TernaryParetoPoint> = Vec::new();
    let mut k: usize = 0;
    while k < order.len()
        invariant
            k <= order.len(),
            order.len() == places.len(),
            forall|j: int| 0 <= j < order.len() ==> (#[trigger] order@[j]) < places.len(),
            forall|j: int| 0 <= j < places.len() ==> (#[trigger] places@[j]) < points.len(),
            out.len() == k,
            forall|j: int|
                0 <= j < k ==> *(#[trigger] out@[j]) == points@[places@[order@[j] as int] as int],
        decreases order.len() - k,
    {
        let at: usize = places[order[k]];
        out.push(&points[at]);
        k += 1;
    }
    assert(behind(out@) =~= points_at(points@, places@, order@));
    out
}

proof fn lemma_undominated(points: Seq<TernaryParetoPoint>, n: nat)
    requires
        n <= points.len() <= usize::MAX,
    ensures
        undominated(points, n).len() <= n,
        forall|k: int|
            0 <= k < undominated(points, n).len() ==> (#[trigger] undominated(points, n)[k]) < n
                && !dominated(points, points[undominated(points, n)[k] as int]),
        forall|i: int|
            0 <= i < n && !dominated(points, #[trigger] points[i]) ==> undominated(
                points,
                n,
            ).contains(i as usize),
    decreases n,
{
    if n > 0 {
        lemma_undominated(points, (n - 1) as nat);
        let before = undominated(points, (n - 1) as nat);
        let now = undominated(points, n);
        assert forall|i: int| 0 <= i < n && !dominated(points, #[trigger] points[i]) implies now.contains(
            i as usize,
        ) by {
            if i < n - 1 {
                let k = choose|k: int| 0 <= k < before.len() && before[k] == i as usize;
                assert(now[k] == i as usize);
            } else {
                assert(now[before.len() as int] == i as usize);
            }
        }
    }
}

/// No point of the frontier is dominated, and every point that is not on it is dominated.
pub proof fn frontier_is_exact(points: Seq<TernaryParetoPoint>, front: Seq<TernaryParetoPoint>)
    requires
        points.len() <= usize::MAX,
        frontier(points, front),
    ensures
        forall|k: int| 0 <= k < front.len() ==> !dominated(points, #[trigger] front[k]),
        forall|i: int|
            0 <= i < points.len() && !front.contains(#[trigger] points[i]) ==> dominated(
                points,
                points[i],
            ),
{
    let n = points.len();
    lemma_undominated(points, n);
    let places = undominated(points, n);
    let order = choose|order: Seq<usize>| #[trigger]
        stable_order_of::<i64>(mean_keys(points, places), order) && front == points_at(
            points,
            places,
            order,
        );
    assert forall|k: int| 0 <= k < front.len() implies !dominated(points, #[trigger] front[k]) by {
        assert(front[k] == points[places[order[k] as int] as int]);
    }
    assert forall|i: int| 0 <= i < points.len() && !front.contains(#[trigger] points[i]) implies dominated(
        points,
        points[i],
    ) by {
        if !dominated(points, points[i]) {
            assert(places.contains(i as usize));
            let k = choose|k: int| 0 <= k < places.len() && places[k] == i as usize;
            crate::order::order_reaches::<i64>(mean_keys(points, places), order, k);
            let q = choose|q: int| 0 <= q < order.len() && order[q] == k as usize;
            assert(front[q] == points[i]);
        }
    }
}

/// How a target is named in a recommendation.
pub open spec fn ratio_debug(t: Option<RatioView>) -> Seq<char> {
    match t {
        Some(v) => "Some("@ + v.debug + ")"@,
        None => "None"@,
    }
}

pub fn show_ratio(t: &Option<Ratio>) -> (r: String)
    ensures
        r@ == ratio_debug(ratio_view(*t)),
{
    match t {
        Some(v) => {
            let mut out = "Some(".to_owned();
            out.push_str(v.debug.as_str());
            out.push_str(")");
            out
        },
        None => "None".to_owned(),
    }
}

/// How a point is recommended.
pub open spec fn recommendation(p: TernaryParetoPoint) -> Seq<char> {
    p.variant@ + "@"@ + p.mode@ + " prune="@ + ratio_debug(ratio_view(p.prune_target))
        + " (mean_ms="@ + p.mean_ms.fixed4@ + " max_norm="@ + p.max_norm_err.sci3@ + ")"@
}

/// The recommended point: the fastest of the frontier; `None` where there are no points.
pub fn ternary_recommendation(points: &Vec<TernaryParetoPoint>) -> (r: Option<String>)
    ensures
        exists|front: Seq<TernaryParetoPoint>| #[trigger]
            frontier(points@, front) && match r {
                Some(s) => front.len() > 0 && s@ == recommendation(front[0]),
                None => front.len() == 0,
            },
{
    let front = ternary_pareto_frontier(points);
    let ghost fv = behind(front@);
    assert(frontier(points@, fv));
    if front.len() == 0 {
        return None;
    }
    let p = front[0];
    assert(fv[0] == *p);
    let mut out = copy_text(&p.variant);
    out.push_str("@");
    out.push_str(p.mode.as_str());
    out.push_str(" prune=");
    out.push_str(show_ratio(&p.prune_target).as_str());
    out.push_str(" (mean_ms=");
    out.push_str(p.mean_ms.fixed4.as_str());
    out.push_str(" max_norm=");
    out.push_str(p.max_norm_err.sci3.as_str());
    out.push_str(")");
    Some(out)
}

} // verus!

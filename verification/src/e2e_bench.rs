//! End-to-end validation bench: which pipelines and backends run, how, and what the rows say.

use crate::arith::{greatest, max_usize};
use crate::compile::{fused_device, pick_fused_deploy_device};
use crate::config::{config_fault, ConfigError, FftLearnConfig};
use crate::device::{device_token, Device};
use crate::figure::{Figure, FigureView};
use crate::order::{ascending, distinct_numbers, distinct_texts, models, sorted_distinct, stable_order,
    stable_order_of, Ranked};
use crate::text::{copy_text, same_text, texts};
use vstd::prelude::*;

verus! {

/// What a pipeline computes.
#[derive(Debug, Clone, Copy, PartialEq, Eq, Structural)]
pub enum E2ePipeline {
    Mel,
    Welch,
    WelchPeaks,
    WelchPeaksUltra,
    Q8Spectrum,
    Denoise,
}

impl E2ePipeline {
    /// Every pipeline, in bench order.
    pub open spec fn listed() -> Seq<E2ePipeline> {
        seq![
            E2ePipeline::Mel,
            E2ePipeline::Welch,
            E2ePipeline::WelchPeaks,
            E2ePipeline::WelchPeaksUltra,
            E2ePipeline::Q8Spectrum,
            E2ePipeline::Denoise,
        ]
    }

    pub fn all() -> (r: [E2ePipeline; 6])
        ensures
            r@ == E2ePipeline::listed(),
    {
        let r = [
            E2ePipeline::Mel,
            E2ePipeline::Welch,
            E2ePipeline::WelchPeaks,
            E2ePipeline::WelchPeaksUltra,
            E2ePipeline::Q8Spectrum,
            E2ePipeline::Denoise,
        ];
        assert(r@ =~= E2ePipeline::listed());
        r
    }

    pub open spec fn label_text(self) -> Seq<char> {
        match self {
            E2ePipeline::Mel => "mel"@,
            E2ePipeline::Welch => "welch"@,
            E2ePipeline::WelchPeaks => "welch_peaks"@,
            E2ePipeline::WelchPeaksUltra => "welch_peaks_ultra"@,
            E2ePipeline::Q8Spectrum => "q8"@,
            E2ePipeline::Denoise => "denoise"@,
        }
    }

    pub fn label(self) -> (r: &'static str)
        ensures
            r@ == self.label_text(),
    {
        match self {
            E2ePipeline::Mel => "mel",
            E2ePipeline::Welch => "welch",
            E2ePipeline::WelchPeaks => "welch_peaks",
            E2ePipeline::WelchPeaksUltra => "welch_peaks_ultra",
            E2ePipeline::Q8Spectrum => "q8",
            E2ePipeline::Denoise => "denoise",
        }
    }
}

/// What computes a pipeline.
#[derive(Debug, Clone, Copy, PartialEq, Eq, Structural)]
pub enum E2eBackend {
    RustfftRef,
    RlxOpFft,
    ButterflyEager,
    LearnedModel,
    LearnedQ8,
    LearnedHard,
    LearnedCompiled,
    LearnedDistilled,
    LearnedDistilledTernary,
    /// Picks among fused, block and reference paths by the cost of moving data.
    WelchPeaksAuto,
}

impl E2eBackend {
    /// Every backend, in bench order.
    pub open spec fn listed() -> Seq<E2eBackend> {
        seq![
            E2eBackend::RustfftRef,
            E2eBackend::RlxOpFft,
            E2eBackend::ButterflyEager,
            E2eBackend::LearnedModel,
            E2eBackend::LearnedQ8,
            E2eBackend::LearnedHard,
            E2eBackend::LearnedCompiled,
            E2eBackend::LearnedDistilled,
            E2eBackend::LearnedDistilledTernary,
            E2eBackend::WelchPeaksAuto,
        ]
    }

    pub fn all() -> (r: [E2eBackend; 10])
        ensures
            r@ == E2eBackend::listed(),
    {
        let r = [
            E2eBackend::RustfftRef,
            E2eBackend::RlxOpFft,
            E2eBackend::ButterflyEager,
            E2eBackend::LearnedModel,
            E2eBackend::LearnedQ8,
            E2eBackend::LearnedHard,
            E2eBackend::LearnedCompiled,
            E2eBackend::LearnedDistilled,
            E2eBackend::LearnedDistilledTernary,
            E2eBackend::WelchPeaksAuto,
        ];
        assert(r@ =~= E2eBackend::listed());
        r
    }

    pub open spec fn label_text(self) -> Seq<char> {
        match self {
            E2eBackend::RustfftRef => "rustfft_ref"@,
            E2eBackend::RlxOpFft => "rlx_op_fft"@,
            E2eBackend::ButterflyEager => "butterfly_eager"@,
            E2eBackend::LearnedModel => "learned_model"@,
            E2eBackend::LearnedQ8 => "learned_q8"@,
            E2eBackend::LearnedHard => "learned_hard"@,
            E2eBackend::LearnedCompiled => "learned_compiled"@,
            E2eBackend::LearnedDistilled => "learned_distilled"@,
            E2eBackend::LearnedDistilledTernary => "learned_distilled_ternary"@,
            E2eBackend::WelchPeaksAuto => "welch_peaks_auto"@,
        }
    }

    pub fn label(self) -> (r: &'static str)
        ensures
            r@ == self.label_text(),
    {
        match self {
            E2eBackend::RustfftRef => "rustfft_ref",
            E2eBackend::RlxOpFft => "rlx_op_fft",
            E2eBackend::ButterflyEager => "butterfly_eager",
            E2eBackend::LearnedModel => "learned_model",
            E2eBackend::LearnedQ8 => "learned_q8",
            E2eBackend::LearnedHard => "learned_hard",
            E2eBackend::LearnedCompiled => "learned_compiled",
            E2eBackend::LearnedDistilled => "learned_distilled",
            E2eBackend::LearnedDistilledTernary => "learned_distilled_ternary",
            E2eBackend::WelchPeaksAuto => "welch_peaks_auto",
        }
    }

    /// Whether the backend runs the learned model itself.
    pub open spec fn needs_model(self) -> bool {
        self is LearnedModel || self is LearnedQ8 || self is LearnedHard || self is LearnedCompiled
    }

    /// Whether the backend runs the learned model without compiling it.
    pub open spec fn eager_learned(self) -> bool {
        self is LearnedModel || self is LearnedQ8 || self is LearnedHard
    }
}

/// What a bench has to work with and what it is asked to run.
#[derive(Debug, Clone, Copy, PartialEq, Eq, Structural)]
pub struct E2eBenchInputs {
    pub n_fft: usize,
    pub batch: usize,
    pub iters: usize,
    pub device: Device,
    pub peak_k: usize,
    /// Whether there is a learned model, and whether it holds quantised twiddles.
    pub has_model: bool,
    pub model_uses_q8: bool,
    pub has_distilled: bool,
    pub has_distilled_ternary: bool,
    pub with_learned_hard: bool,
    pub with_learned_compiled: bool,
    pub with_learned_distilled: bool,
    pub with_learned_distilled_ternary: bool,
    /// Whether the slow uncompiled learned backends run too.
    pub with_eager_learned: bool,
}

/// Whether a backend runs for a pipeline.
pub open spec fn runs(i: E2eBenchInputs, p: E2ePipeline, b: E2eBackend) -> bool {
    &&& !(p is Welch && i.batch >= 32)
    &&& b is WelchPeaksAuto ==> p is WelchPeaks
    &&& b.needs_model() ==> i.has_model
    &&& b is LearnedQ8 ==> i.model_uses_q8
    &&& b is LearnedHard ==> i.with_learned_hard
    &&& b is LearnedCompiled ==> i.with_learned_compiled
    &&& b is LearnedDistilled ==> i.has_distilled && i.with_learned_distilled
    &&& b is LearnedDistilledTernary ==> i.has_distilled_ternary
        && i.with_learned_distilled_ternary
    &&& b.eager_learned() ==> i.with_eager_learned && i.device is Cpu
    &&& !(b is ButterflyEager)
}

/// Whether a backend runs for a pipeline.
pub fn backend_runs(i: &E2eBenchInputs, p: E2ePipeline, b: E2eBackend) -> (r: bool)
    ensures
        r == runs(*i, p, b),
        p is Welch && i.batch >= 32 ==> !r,
        b is LearnedCompiled && !(p is Welch && i.batch >= 32) ==> r == (i.has_model
            && i.with_learned_compiled),
        b is LearnedDistilled && !(p is Welch && i.batch >= 32) ==> r == (i.has_distilled
            && i.with_learned_distilled),
        b is LearnedDistilledTernary && !(p is Welch && i.batch >= 32) ==> r == (
        i.has_distilled_ternary && i.with_learned_distilled_ternary),
        b is LearnedModel && !(p is Welch && i.batch >= 32) ==> r == (i.has_model
            && i.with_eager_learned && i.device is Cpu),
{
    if matches!(p, E2ePipeline::Welch) && i.batch >= 32 {
        return false;
    }
    let cpu = matches!(i.device, Device::Cpu);
    match b {
        E2eBackend::RustfftRef => true,
        E2eBackend::RlxOpFft => true,
        E2eBackend::ButterflyEager => false,
        E2eBackend::LearnedModel => i.has_model && i.with_eager_learned && cpu,
        E2eBackend::LearnedQ8 => i.has_model && i.model_uses_q8 && i.with_eager_learned && cpu,
        E2eBackend::LearnedHard => i.has_model && i.with_learned_hard && i.with_eager_learned
            && cpu,
        E2eBackend::LearnedCompiled => i.has_model && i.with_learned_compiled,
        E2eBackend::LearnedDistilled => i.has_distilled && i.with_learned_distilled,
        E2eBackend::LearnedDistilledTernary => i.has_distilled_ternary
            && i.with_learned_distilled_ternary,
        E2eBackend::WelchPeaksAuto => matches!(p, E2ePipeline::WelchPeaks),
    }
}

/// Every pipeline with every backend, in bench order.
pub open spec fn all_runs() -> Seq<(E2ePipeline, E2eBackend)> {
    Seq::new(60, |k: int| (E2ePipeline::listed()[k / 10], E2eBackend::listed()[k % 10]))
}

/// The pairs that run under some inputs.
pub open spec fn kept_by(i: E2eBenchInputs) -> spec_fn((E2ePipeline, E2eBackend)) -> bool {
    |p: (E2ePipeline, E2eBackend)| runs(i, p.0, p.1)
}

/// The pipelines and backends of a bench, in the order in which they run.
pub fn plan_e2e(i: &E2eBenchInputs) -> (r: Vec<(E2ePipeline, E2eBackend)>)
    ensures
        r@ == all_runs().filter(kept_by(*i)),
{
    let pipelines = E2ePipeline::all();
    let backends = E2eBackend::all();
    let ghost all = all_runs();
    let ghost keep = kept_by(*i);
    let mut out: Vec<(E2ePipeline, E2eBackend)> = Vec::new();
    let mut k: usize = 0;
    assert(all.take(0).filter(keep) =~= Seq::empty()) by {
        reveal(Seq::filter);
    }
    while k < 60
        invariant
            k <= 60,
            pipelines@ == E2ePipeline::listed(),
            backends@ == E2eBackend::listed(),
            all == all_runs(),
            keep == kept_by(*i),
            out@ == all.take(k as int).filter(keep),
        decreases 60 - k,
    {
        let p = pipelines[k / 10];
        let b = backends[k % 10];
        proof {
            reveal(Seq::filter);
            assert(all.take(k + 1).drop_last() =~= all.take(k as int));
            assert(all[k as int] == (p, b));
        }
        if backend_runs(i, p, b) {
            out.push((p, b));
        }
        k += 1;
    }
    assert(all.take(60) =~= all);
    out
}

proof fn lemma_planned(i: E2eBenchInputs, p: E2ePipeline, b: E2eBackend)
    ensures
        all_runs().filter(kept_by(i)).contains((p, b)) == runs(i, p, b),
{
    let all = all_runs();
    let keep = kept_by(i);
    let pipelines = E2ePipeline::listed();
    let backends = E2eBackend::listed();
    assert(pipelines[0] == p || pipelines[1] == p || pipelines[2] == p || pipelines[3] == p
        || pipelines[4] == p || pipelines[5] == p);
    let a = choose|a: int| 0 <= a < 6 && #[trigger] pipelines[a] == p;
    assert(backends[0] == b || backends[1] == b || backends[2] == b || backends[3] == b
        || backends[4] == b || backends[5] == b || backends[6] == b || backends[7] == b
        || backends[8] == b || backends[9] == b);
    let c = choose|c: int| 0 <= c < 10 && #[trigger] backends[c] == b;
    let k = a * 10 + c;
    assert(all[k] == (p, b));
    let plan = all.filter(keep);
    if runs(i, p, b) {
        assert(keep(all[k]));
        all.lemma_filter_contains(keep, k);
    }
    if plan.contains((p, b)) {
        let j = choose|j: int| 0 <= j < plan.len() && plan[j] == (p, b);
        all.lemma_filter_pred(keep, j);
    }
}

/// Whether a bench leaves a pipeline out: the averaged one, for large batches.
pub open spec fn left_out(i: E2eBenchInputs, p: E2ePipeline) -> bool {
    p is Welch && i.batch >= 32
}

/// Which backends a bench plans for a pipeline that it does not leave out. The two transforms that
/// need no model always run. What a learned backend needs is its own model and its own switch: the
/// compiled model and the distilled ones run on every device and whether or not the slow backends
/// are asked for, and the slow ones need that they are asked for and a processor to run on.
pub proof fn each_backend_has_its_own_switches(i: E2eBenchInputs, p: E2ePipeline)
    requires
        !left_out(i, p),
    ensures
        ({
            let plan = all_runs().filter(kept_by(i));
            &&& plan.contains((p, E2eBackend::RustfftRef))
            &&& plan.contains((p, E2eBackend::RlxOpFft))
            &&& !plan.contains((p, E2eBackend::ButterflyEager))
            &&& i.has_model && i.with_learned_compiled ==> plan.contains(
                (p, E2eBackend::LearnedCompiled),
            )
            &&& i.has_distilled && i.with_learned_distilled ==> plan.contains(
                (p, E2eBackend::LearnedDistilled),
            )
            &&& i.has_distilled_ternary && i.with_learned_distilled_ternary ==> plan.contains(
                (p, E2eBackend::LearnedDistilledTernary),
            )
            &&& i.has_model && i.with_eager_learned && i.device is Cpu ==> {
                &&& plan.contains((p, E2eBackend::LearnedModel))
                &&& i.model_uses_q8 ==> plan.contains((p, E2eBackend::LearnedQ8))
                &&& i.with_learned_hard ==> plan.contains((p, E2eBackend::LearnedHard))
            }
            &&& p is WelchPeaks ==> plan.contains((p, E2eBackend::WelchPeaksAuto))
        }),
{
    each_backend_runs_iff(i, p);
}

proof fn each_backend_runs_iff(i: E2eBenchInputs, p: E2ePipeline)
    ensures
        forall|b: E2eBackend| #[trigger]
            all_runs().filter(kept_by(i)).contains((p, b)) == runs(i, p, b),
{
    assert forall|b: E2eBackend| #[trigger]
        all_runs().filter(kept_by(i)).contains((p, b)) == runs(i, p, b) by {
        lemma_planned(i, p, b);
    }
}

/// What a bench plans, it was asked for and has what it takes: no backend is planned without its
/// model and its switch, none of the slow ones off the processor, and nothing for a pipeline that is
/// left out.
pub proof fn nothing_unasked_is_planned(i: E2eBenchInputs, p: E2ePipeline, b: E2eBackend)
    requires
        all_runs().filter(kept_by(i)).contains((p, b)),
    ensures
        !left_out(i, p),
        b is LearnedModel || b is LearnedQ8 || b is LearnedHard || b is LearnedCompiled
            ==> i.has_model,
        b is LearnedModel || b is LearnedQ8 || b is LearnedHard ==> i.with_eager_learned
            && i.device is Cpu,
        b is LearnedQ8 ==> i.model_uses_q8,
        b is LearnedHard ==> i.with_learned_hard,
        b is LearnedCompiled ==> i.with_learned_compiled,
        b is LearnedDistilled ==> i.has_distilled && i.with_learned_distilled,
        b is LearnedDistilledTernary ==> i.has_distilled_ternary
            && i.with_learned_distilled_ternary,
        b is WelchPeaksAuto ==> p is WelchPeaks,
        !(b is ButterflyEager),
{
    lemma_planned(i, p, b);
}

/// The compiled and the distilled backends are planned alike whichever device a bench runs on,
/// whether or not it runs the slow backends, and whatever its length, its counts and the other
/// models are.
pub proof fn compiled_backends_ignore_the_rest(
    i: E2eBenchInputs,
    other: E2eBenchInputs,
    p: E2ePipeline,
)
    requires
        (i.batch >= 32) == (other.batch >= 32),
    ensures
        ({
            let plan = all_runs().filter(kept_by(i));
            let its = all_runs().filter(kept_by(other));
            &&& i.has_model == other.has_model && i.with_learned_compiled
                == other.with_learned_compiled ==> plan.contains((p, E2eBackend::LearnedCompiled))
                == its.contains((p, E2eBackend::LearnedCompiled))
            &&& i.has_distilled == other.has_distilled && i.with_learned_distilled
                == other.with_learned_distilled ==> plan.contains((p, E2eBackend::LearnedDistilled))
                == its.contains((p, E2eBackend::LearnedDistilled))
            &&& i.has_distilled_ternary == other.has_distilled_ternary
                && i.with_learned_distilled_ternary == other.with_learned_distilled_ternary
                ==> plan.contains((p, E2eBackend::LearnedDistilledTernary)) == its.contains(
                (p, E2eBackend::LearnedDistilledTernary),
            )
        }),
{
    each_backend_runs_iff(i, p);
    each_backend_runs_iff(other, p);
}

/// The reference runs for every pipeline of a small batch, so a bench never comes back empty.
pub proof fn reference_always_runs(i: E2eBenchInputs, p: E2ePipeline)
    requires
        !(p is Welch && i.batch >= 32),
    ensures
        runs(i, p, E2eBackend::RustfftRef),
        runs(i, p, E2eBackend::RlxOpFft),
{
}

/// Why a bench cannot run.
#[derive(Debug, Clone)]
pub enum E2eError {
    NoIterations,
    Config(ConfigError),
    /// There is nothing to merge.
    NothingToMerge,
}

/// The checked configuration of a bench.
#[derive(Debug, Clone, Copy, PartialEq, Eq, Structural)]
pub struct E2eSetup {
    pub model: FftLearnConfig,
    /// Peaks kept of each spectrum, at least one.
    pub peak_k: usize,
}

/// Checks what a bench is asked to do.
pub fn check_e2e(i: &E2eBenchInputs) -> (r: Result<E2eSetup, E2eError>)
    ensures
        if i.iters < 1 {
            r matches Err(e) && e is NoIterations
        } else {
            match config_fault(i.n_fft, i.batch) {
                Some(c) => r matches Err(E2eError::Config(e)) && e == c,
                None => r matches Ok(s) && s.model == (FftLearnConfig {
                    n_fft: i.n_fft,
                    batch: i.batch,
                }) && s.peak_k == greatest(i.peak_k as int, 1),
            }
        },
{
    if i.iters < 1 {
        return Err(E2eError::NoIterations);
    }
    match FftLearnConfig::new(i.n_fft, i.batch) {
        Ok(model) => Ok(E2eSetup { model, peak_k: max_usize(i.peak_k, 1) }),
        Err(e) => Err(E2eError::Config(e)),
    }
}

// ---------------------------------------------------------------------------
// How one pair is computed
// ---------------------------------------------------------------------------

/// What a run produces.
#[derive(Debug, Clone, Copy, PartialEq, Eq, Structural)]
pub enum Output {
    LogMel,
    WelchPsd,
    WelchPeaks,
    /// The spectrum as it leaves the transform, or the one spectrum of a compiled model.
    RawSpectrum,
    /// The spectrum with the model's correction.
    CorrectedSpectrum,
}

/// What produces it.
#[derive(Debug, Clone, Copy, PartialEq, Eq, Structural)]
pub enum Source {
    Reference,
    NativeOp,
    Butterfly,
    Model,
    /// The model with hard gates.
    HardModel,
    CompiledModel,
    /// The compiled model with hard gates.
    CompiledHardModel,
    Distilled,
    /// The distilled model as one fused graph.
    CompiledDistilled,
    Ternary,
    /// The ternary model as one fused graph.
    CompiledTernary,
    AutoPeaks,
}

/// One way to compute a pipeline.
#[derive(Debug, Clone, Copy, PartialEq, Eq, Structural)]
pub struct Route {
    pub output: Output,
    pub source: Source,
}

/// What a backend uses.
pub open spec fn source_of(b: E2eBackend) -> Source {
    match b {
        E2eBackend::RustfftRef => Source::Reference,
        E2eBackend::RlxOpFft => Source::NativeOp,
        E2eBackend::ButterflyEager => Source::Butterfly,
        E2eBackend::LearnedModel => Source::Model,
        E2eBackend::LearnedQ8 => Source::Model,
        E2eBackend::LearnedHard => Source::HardModel,
        E2eBackend::LearnedCompiled => Source::CompiledModel,
        E2eBackend::LearnedDistilled => Source::Distilled,
        E2eBackend::LearnedDistilledTernary => Source::Ternary,
        E2eBackend::WelchPeaksAuto => Source::AutoPeaks,
    }
}

/// How a backend computes a pipeline. The automatic picker knows peaks only; the compiled model is
/// compiled with hard gates for peaks and as it is for all else; the distilled models give mel
/// energies as fused graphs, and all else as they are; the compiled model has no Welch path, so the
/// model itself stands in; and only the model's own backends correct the spectrum for the denoise
/// pipeline.
pub open spec fn route(p: E2ePipeline, b: E2eBackend) -> Option<Route> {
    let source = source_of(b);
    let peaks = if b is LearnedCompiled {
        Source::CompiledHardModel
    } else {
        source
    };
    match p {
        E2ePipeline::WelchPeaks => Some(Route { output: Output::WelchPeaks, source: peaks }),
        E2ePipeline::WelchPeaksUltra => Some(Route { output: Output::WelchPeaks, source: peaks }),
        _ => if b is WelchPeaksAuto {
            None
        } else {
            match p {
                E2ePipeline::Mel => Some(
                    Route {
                        output: Output::LogMel,
                        source: if b is LearnedDistilled {
                            Source::CompiledDistilled
                        } else if b is LearnedDistilledTernary {
                            Source::CompiledTernary
                        } else {
                            source
                        },
                    },
                ),
                E2ePipeline::Welch => Some(
                    Route {
                        output: Output::WelchPsd,
                        source: if b is LearnedCompiled {
                            Source::Model
                        } else {
                            source
                        },
                    },
                ),
                E2ePipeline::Denoise => Some(
                    Route {
                        output: if b.eager_learned() {
                            Output::CorrectedSpectrum
                        } else {
                            Output::RawSpectrum
                        },
                        source,
                    },
                ),
                _ => Some(Route { output: Output::RawSpectrum, source }),
            }
        },
    }
}

fn backend_source(b: E2eBackend) -> (r: Source)
    ensures
        r == source_of(b),
{
    match b {
        E2eBackend::RustfftRef => Source::Reference,
        E2eBackend::RlxOpFft => Source::NativeOp,
        E2eBackend::ButterflyEager => Source::Butterfly,
        E2eBackend::LearnedModel => Source::Model,
        E2eBackend::LearnedQ8 => Source::Model,
        E2eBackend::LearnedHard => Source::HardModel,
        E2eBackend::LearnedCompiled => Source::CompiledModel,
        E2eBackend::LearnedDistilled => Source::Distilled,
        E2eBackend::LearnedDistilledTernary => Source::Ternary,
        E2eBackend::WelchPeaksAuto => Source::AutoPeaks,
    }
}

/// How a backend computes a pipeline; `None` where it cannot.
pub fn backend_route(p: E2ePipeline, b: E2eBackend) -> (r: Option<Route>)
    ensures
        r == route(p, b),
{
    let source = backend_source(b);
    let peaks = match b {
        E2eBackend::LearnedCompiled => Source::CompiledHardModel,
        _ => source,
    };
    match p {
        E2ePipeline::WelchPeaks => Some(Route { output: Output::WelchPeaks, source: peaks }),
        E2ePipeline::WelchPeaksUltra => Some(Route { output: Output::WelchPeaks, source: peaks }),
        _ => {
            if matches!(b, E2eBackend::WelchPeaksAuto) {
                return None;
            }
            match p {
                E2ePipeline::Mel => {
                    let s = match b {
                        E2eBackend::LearnedDistilled => Source::CompiledDistilled,
                        E2eBackend::LearnedDistilledTernary => Source::CompiledTernary,
                        _ => source,
                    };
                    Some(Route { output: Output::LogMel, source: s })
                },
                E2ePipeline::Welch => {
                    let s = if matches!(b, E2eBackend::LearnedCompiled) {
                        Source::Model
                    } else {
                        source
                    };
                    Some(Route { output: Output::WelchPsd, source: s })
                },
                E2ePipeline::Denoise => {
                    let eager = matches!(b, E2eBackend::LearnedModel) || matches!(
                        b,
                        E2eBackend::LearnedQ8
                    ) || matches!(b, E2eBackend::LearnedHard);
                    let output = if eager {
                        Output::CorrectedSpectrum
                    } else {
                        Output::RawSpectrum
                    };
                    Some(Route { output, source })
                },
                _ => Some(Route { output: Output::RawSpectrum, source }),
            }
        },
    }
}

/// Every planned pair has a route, and none needs what the inputs lack.
pub proof fn planned_pairs_can_run(i: E2eBenchInputs, p: E2ePipeline, b: E2eBackend)
    requires
        runs(i, p, b),
    ensures
        route(p, b) is Some,
        ({
            let s = route(p, b)->0.source;
            &&& (s is Model || s is HardModel || s is CompiledModel || s is CompiledHardModel)
                ==> i.has_model
            &&& (s is Distilled || s is CompiledDistilled) ==> i.has_distilled
            &&& (s is Ternary || s is CompiledTernary) ==> i.has_distilled_ternary
        }),
{
}

/// Where a run takes place: fused graphs where fused models are deployed, what else is compiled on
/// the device of the bench, and what is not compiled on the CPU.
pub open spec fn run_device(i: E2eBenchInputs, s: Source) -> Device {
    match s {
        Source::CompiledDistilled => fused_device(i.batch, i.n_fft, i.device),
        Source::CompiledTernary => fused_device(i.batch, i.n_fft, i.device),
        Source::NativeOp => i.device,
        Source::CompiledModel => i.device,
        Source::CompiledHardModel => i.device,
        Source::AutoPeaks => i.device,
        _ => Device::Cpu,
    }
}

/// What a run is given.
#[derive(Debug, Clone, Copy, PartialEq, Eq, Structural)]
pub enum RunInput {
    Signal,
    /// The signal under the window.
    Windowed,
    /// The longer signal of the Welch pipelines.
    WelchSignal,
}

/// What a run is given. The learned and the distilled models window the signal themselves for mel
/// energies; the transforms and the compiled model are given it windowed.
pub open spec fn input_of(p: E2ePipeline, b: E2eBackend) -> RunInput {
    match p {
        E2ePipeline::Mel => if b is RustfftRef || b is RlxOpFft || b is ButterflyEager
            || b is LearnedCompiled {
            RunInput::Windowed
        } else {
            RunInput::Signal
        },
        E2ePipeline::Q8Spectrum => RunInput::Signal,
        E2ePipeline::Denoise => RunInput::Signal,
        _ => RunInput::WelchSignal,
    }
}

fn run_input(p: E2ePipeline, b: E2eBackend) -> (r: RunInput)
    ensures
        r == input_of(p, b),
{
    match p {
        E2ePipeline::Mel => match b {
            E2eBackend::RustfftRef => RunInput::Windowed,
            E2eBackend::RlxOpFft => RunInput::Windowed,
            E2eBackend::ButterflyEager => RunInput::Windowed,
            E2eBackend::LearnedCompiled => RunInput::Windowed,
            _ => RunInput::Signal,
        },
        E2ePipeline::Q8Spectrum => RunInput::Signal,
        E2ePipeline::Denoise => RunInput::Signal,
        _ => RunInput::WelchSignal,
    }
}

/// A run of a bench: what is computed, by what, from what, and where.
#[derive(Debug, Clone, Copy, PartialEq, Eq, Structural)]
pub struct E2eRun {
    pub route: Route,
    pub input: RunInput,
    pub device: Device,
}

/// How and where a backend computes a pipeline; `None` where it cannot.
pub fn plan_run(i: &E2eBenchInputs, p: E2ePipeline, b: E2eBackend) -> (r: Option<E2eRun>)
    ensures
        match route(p, b) {
            Some(way) => r == Some(
                E2eRun {
                    route: way,
                    input: input_of(p, b),
                    device: run_device(*i, way.source),
                },
            ),
            None => r is None,
        },
{
    match backend_route(p, b) {
        Some(route) => {
            let device = match route.source {
                Source::CompiledDistilled => pick_fused_deploy_device(i.batch, i.n_fft, i.device),
                Source::CompiledTernary => pick_fused_deploy_device(i.batch, i.n_fft, i.device),
                Source::NativeOp => i.device,
                Source::CompiledModel => i.device,
                Source::CompiledHardModel => i.device,
                Source::AutoPeaks => i.device,
                _ => Device::Cpu,
            };
            Some(E2eRun { route, input: run_input(p, b), device })
        },
        None => None,
    }
}

/// The mel rows of the distilled models, which the speed gates judge, come from fused graphs, and
/// small batches of short frames run them on the CPU, whatever accelerator is asked for.
pub proof fn fused_rows_are_deployed(i: E2eBenchInputs, b: E2eBackend)
    requires
        b is LearnedDistilled || b is LearnedDistilledTernary,
    ensures
        route(E2ePipeline::Mel, b) matches Some(r) && r.output is LogMel && (r.source
            is CompiledDistilled || r.source is CompiledTernary) && run_device(i, r.source)
            == fused_device(i.batch, i.n_fft, i.device) && (i.batch <= 64 && i.n_fft <= 512
            && i.device is Metal ==> run_device(i, r.source) is Cpu),
{
}

/// What the reference output of a pipeline is.
#[derive(Debug, Clone, Copy, PartialEq, Eq, Structural)]
pub enum ReferenceOutput {
    LogMel,
    WelchPsd,
    WelchPeaks,
    /// The spectrum with exact quantised twiddles.
    QuantisedSpectrum,
    Spectrum,
}

/// What the outputs of a pipeline are compared with.
pub fn reference_output(p: E2ePipeline) -> (r: ReferenceOutput)
    ensures
        r == match p {
            E2ePipeline::Mel => ReferenceOutput::LogMel,
            E2ePipeline::Welch => ReferenceOutput::WelchPsd,
            E2ePipeline::WelchPeaks => ReferenceOutput::WelchPeaks,
            E2ePipeline::WelchPeaksUltra => ReferenceOutput::WelchPeaks,
            E2ePipeline::Q8Spectrum => ReferenceOutput::QuantisedSpectrum,
            E2ePipeline::Denoise => ReferenceOutput::Spectrum,
        },
{
    match p {
        E2ePipeline::Mel => ReferenceOutput::LogMel,
        E2ePipeline::Welch => ReferenceOutput::WelchPsd,
        E2ePipeline::WelchPeaks => ReferenceOutput::WelchPeaks,
        E2ePipeline::WelchPeaksUltra => ReferenceOutput::WelchPeaks,
        E2ePipeline::Q8Spectrum => ReferenceOutput::QuantisedSpectrum,
        E2ePipeline::Denoise => ReferenceOutput::Spectrum,
    }
}

/// How the error of a row is found.
#[derive(Debug, Clone, Copy, PartialEq, Eq, Structural)]
pub enum ErrorRule {
    /// The reference backend has no error.
    Zero,
    /// Against the reference output of the pipeline.
    AgainstReference,
    /// Against the reference spectrum under the model's own mel filters.
    AgainstModelFilters,
}

/// How the error of a row is found: none for the reference, under the model's own filters for the mel
/// energies of the ternary student, and against the reference output for all else.
pub open spec fn error_found(p: E2ePipeline, b: E2eBackend) -> ErrorRule {
    if b is RustfftRef {
        ErrorRule::Zero
    } else if p is Mel && b is LearnedDistilledTernary {
        ErrorRule::AgainstModelFilters
    } else {
        ErrorRule::AgainstReference
    }
}

/// How the error of a row is found.
pub fn error_rule(p: E2ePipeline, b: E2eBackend) -> (r: ErrorRule)
    ensures
        r == error_found(p, b),
        r == if b is RustfftRef {
            ErrorRule::Zero
        } else if p is Mel && b is LearnedDistilledTernary {
            ErrorRule::AgainstModelFilters
        } else {
            ErrorRule::AgainstReference
        },
{
    if matches!(b, E2eBackend::RustfftRef) {
        ErrorRule::Zero
    } else if matches!(p, E2ePipeline::Mel) && matches!(b, E2eBackend::LearnedDistilledTernary) {
        ErrorRule::AgainstModelFilters
    } else {
        ErrorRule::AgainstReference
    }
}

/// What a row shows of its gates.
#[derive(Debug, Clone, Copy, PartialEq, Eq, Structural)]
pub enum GateRule {
    Nothing,
    /// The mean gate of the learned model.
    MeanGate,
    /// The share of butterflies that the ternary model computes.
    ComputeFraction,
}

/// What a row shows of its gates: the mean one of the learned model, the share that the ternary
/// student computes, and nothing elsewhere.
pub open spec fn gates_shown(b: E2eBackend) -> GateRule {
    if b.needs_model() {
        GateRule::MeanGate
    } else if b is LearnedDistilledTernary {
        GateRule::ComputeFraction
    } else {
        GateRule::Nothing
    }
}

/// What a row shows of its gates.
pub fn gate_rule(b: E2eBackend) -> (r: GateRule)
    ensures
        r == gates_shown(b),
        r == if b.needs_model() {
            GateRule::MeanGate
        } else if b is LearnedDistilledTernary {
            GateRule::ComputeFraction
        } else {
            GateRule::Nothing
        },
{
    match b {
        E2eBackend::LearnedModel => GateRule::MeanGate,
        E2eBackend::LearnedQ8 => GateRule::MeanGate,
        E2eBackend::LearnedHard => GateRule::MeanGate,
        E2eBackend::LearnedCompiled => GateRule::MeanGate,
        E2eBackend::LearnedDistilledTernary => GateRule::ComputeFraction,
        _ => GateRule::Nothing,
    }
}

// ---------------------------------------------------------------------------
// Welch peaks
// ---------------------------------------------------------------------------

/// The shape of a peaks run.
#[derive(Debug, Clone, Copy, PartialEq, Eq, Structural)]
pub struct PeakShape {
    pub n_fft: usize,
    pub n_segments: usize,
    pub hop: usize,
    pub k: usize,
}

/// The settings that the shape of a peaks run comes from.
#[derive(Debug, Clone, Copy, PartialEq, Eq, Structural)]
pub enum PeakPreset {
    /// The full Welch density: what peaks are compared with.
    Reference,
    /// Few segments.
    Fast,
    /// One segment.
    UltraFast,
}

/// The settings of a backend's peaks run: the reference has its own, and all others those of the
/// pipeline.
pub open spec fn preset_of(p: E2ePipeline, b: E2eBackend) -> PeakPreset {
    if b is RustfftRef {
        PeakPreset::Reference
    } else if p is WelchPeaksUltra {
        PeakPreset::UltraFast
    } else {
        PeakPreset::Fast
    }
}

/// The shapes of the presets, for one size and peak count.
#[derive(Debug, Clone, Copy, PartialEq, Eq, Structural)]
pub struct PeakShapes {
    pub reference: PeakShape,
    pub fast: PeakShape,
    pub ultra_fast: PeakShape,
}

impl PeakShapes {
    pub open spec fn at(self, preset: PeakPreset) -> PeakShape {
        match preset {
            PeakPreset::Reference => self.reference,
            PeakPreset::Fast => self.fast,
            PeakPreset::UltraFast => self.ultra_fast,
        }
    }

    /// The shape of the pipeline: that of every backend but the reference.
    pub open spec fn of_pipeline(self, p: E2ePipeline) -> PeakShape {
        if p is WelchPeaksUltra {
            self.ultra_fast
        } else {
            self.fast
        }
    }
}

/// For which shapes compiled peaks runs are held.
#[derive(Debug, Clone, Copy, PartialEq, Eq, Structural)]
pub struct PeakCaches {
    pub native: Option<PeakShape>,
    pub learned: Option<PeakShape>,
    pub auto_picker: Option<PeakShape>,
}

/// What a peaks run has to do before it runs.
#[derive(Debug, Clone, Copy, PartialEq, Eq, Structural)]
pub struct PeakWork {
    /// The shape that the backend runs on.
    pub shape: PeakShape,
    /// Cut the signal to the frame of the shape; the reference runs on the whole signal.
    pub truncate: bool,
    /// Build what the backend holds compiled.
    pub build: bool,
}

/// A held run, unless it was built for another shape.
pub open spec fn kept_for(held: Option<PeakShape>, shape: PeakShape) -> Option<PeakShape> {
    match held {
        Some(s) if s == shape => held,
        _ => None,
    }
}

/// The held runs and the work of a peaks run: runs for another shape than the pipeline's are dropped,
/// a backend that holds none for it builds one, and the reference runs on its own shape.
pub open spec fn peaks_step(c: PeakCaches, p: E2ePipeline, b: E2eBackend, shapes: PeakShapes) -> (
    PeakCaches,
    PeakWork,
) {
    let here = shapes.of_pipeline(p);
    let native = kept_for(c.native, here);
    let learned = kept_for(c.learned, here);
    let shape = shapes.at(preset_of(p, b));
    let truncate = !(b is RustfftRef);
    match b {
        E2eBackend::RlxOpFft => (
            PeakCaches { native: Some(here), learned, ..c },
            PeakWork { shape, truncate, build: native is None },
        ),
        E2eBackend::LearnedCompiled => (
            PeakCaches { native, learned: Some(here), ..c },
            PeakWork { shape, truncate, build: learned is None },
        ),
        E2eBackend::WelchPeaksAuto => (
            PeakCaches { native, learned, auto_picker: Some(here) },
            PeakWork { shape, truncate, build: kept_for(c.auto_picker, here) is None },
        ),
        _ => (PeakCaches { native, learned, ..c }, PeakWork { shape, truncate, build: false }),
    }
}

fn keep_for(held: Option<PeakShape>, shape: PeakShape) -> (r: Option<PeakShape>)
    ensures
        r == kept_for(held, shape),
{
    match held {
        Some(s) => if s == shape {
            held
        } else {
            None
        },
        None => None,
    }
}

impl PeakCaches {
    /// Nothing held.
    pub fn new() -> (r: PeakCaches)
        ensures
            r == (PeakCaches { native: None, learned: None, auto_picker: None }),
    {
        PeakCaches { native: None, learned: None, auto_picker: None }
    }

    /// Prepares a peaks run, and tells what has to be done for it.
    pub fn prepare(&mut self, p: E2ePipeline, b: E2eBackend, shapes: PeakShapes) -> (r: PeakWork)
        ensures
            (*final(self), r) == peaks_step(*old(self), p, b, shapes),
    {
        let here = match p {
            E2ePipeline::WelchPeaksUltra => shapes.ultra_fast,
            _ => shapes.fast,
        };
        self.native = keep_for(self.native, here);
        self.learned = keep_for(self.learned, here);
        let mut build = false;
        match b {
            E2eBackend::RlxOpFft => {
                build = self.native.is_none();
                self.native = Some(here);
            },
            E2eBackend::LearnedCompiled => {
                build = self.learned.is_none();
                self.learned = Some(here);
            },
            E2eBackend::WelchPeaksAuto => {
                build = keep_for(self.auto_picker, here).is_none();
                self.auto_picker = Some(here);
            },
            _ => {},
        }
        let reference = matches!(b, E2eBackend::RustfftRef);
        let shape = if reference {
            shapes.reference
        } else {
            here
        };
        PeakWork { shape, truncate: !reference, build }
    }
}

/// A peaks run never uses what was built for another shape, and the same run again builds nothing.
pub proof fn held_peaks_fit(c: PeakCaches, p: E2ePipeline, b: E2eBackend, shapes: PeakShapes)
    ensures
        ({
            let here = shapes.of_pipeline(p);
            let (after, work) = peaks_step(c, p, b, shapes);
            &&& after.native is Some ==> after.native == Some(here)
            &&& after.learned is Some ==> after.learned == Some(here)
            &&& b is WelchPeaksAuto ==> after.auto_picker == Some(here)
            &&& peaks_step(after, p, b, shapes) == (after, PeakWork { build: false, ..work })
        }),
{
}

/// The reference runs on the shape that peaks are compared with, on the whole signal; every other
/// backend runs on the pipeline's shape, on the frame of it.
pub proof fn backends_run_on_their_shapes(c: PeakCaches, p: E2ePipeline, b: E2eBackend, shapes: PeakShapes)
    ensures
        ({
            let work = peaks_step(c, p, b, shapes).1;
            &&& b is RustfftRef ==> work.shape == shapes.reference && !work.truncate
            &&& !(b is RustfftRef) ==> work.shape == shapes.of_pipeline(p) && work.truncate
        }),
{
}

// ---------------------------------------------------------------------------
// Rows and reports
// ---------------------------------------------------------------------------

/// One measurement of one backend on one pipeline.
#[derive(Clone, Debug)]
pub struct E2eBenchRow {
    pub pipeline: String,
    pub backend: String,
    pub n_fft: usize,
    pub batch: usize,
    pub device: String,
    pub iters: usize,
    pub ms: Figure,
    pub max_err: Figure,
    /// What it shows of its gates, three decimals, where a backend has some.
    pub mean_gate: Option<String>,
}

/// What a row stands for.
pub struct E2eRowView {
    pub pipeline: Seq<char>,
    pub backend: Seq<char>,
    pub n_fft: usize,
    pub batch: usize,
    pub device: Seq<char>,
    pub iters: usize,
    pub ms: FigureView,
    pub max_err: FigureView,
    pub mean_gate: Option<Seq<char>>,
}

impl View for E2eBenchRow {
    type V = E2eRowView;

    open spec fn view(&self) -> E2eRowView {
        E2eRowView {
            pipeline: self.pipeline@,
            backend: self.backend@,
            n_fft: self.n_fft,
            batch: self.batch,
            device: self.device@,
            iters: self.iters,
            ms: self.ms@,
            max_err: self.max_err@,
            mean_gate: crate::ablation::note_view(self.mean_gate),
        }
    }
}

/// The views of some rows.
pub open spec fn e2e_views(rows: Seq<E2eBenchRow>) -> Seq<E2eRowView> {
    rows.map_values(|r: E2eBenchRow| r@)
}

impl E2eBenchRow {
    /// The row that a run leaves.
    pub fn new(
        i: &E2eBenchInputs,
        p: E2ePipeline,
        b: E2eBackend,
        ms: Figure,
        max_err: Figure,
        mean_gate: Option<String>,
    ) -> (r: E2eBenchRow)
        ensures
            r@ == (E2eRowView {
                pipeline: p.label_text(),
                backend: b.label_text(),
                n_fft: i.n_fft,
                batch: i.batch,
                device: device_token(i.device),
                iters: i.iters,
                ms: ms@,
                max_err: max_err@,
                mean_gate: crate::ablation::note_view(mean_gate),
            }),
    {
        E2eBenchRow {
            pipeline: p.label().to_owned(),
            backend: b.label().to_owned(),
            n_fft: i.n_fft,
            batch: i.batch,
            device: i.device.token().to_owned(),
            iters: i.iters,
            ms,
            max_err,
            mean_gate,
        }
    }

    /// A copy of the row.
    pub fn copy(&self) -> (r: E2eBenchRow)
        ensures
            r@ == self@,
    {
        E2eBenchRow {
            pipeline: copy_text(&self.pipeline),
            backend: copy_text(&self.backend),
            n_fft: self.n_fft,
            batch: self.batch,
            device: copy_text(&self.device),
            iters: self.iters,
            ms: self.ms.copy(),
            max_err: self.max_err.copy(),
            mean_gate: match &self.mean_gate {
                Some(t) => Some(copy_text(t)),
                None => None,
            },
        }
    }
}

/// How the training of a teacher ended.
#[derive(Clone, Debug)]
pub struct TeacherStats {
    pub steps: usize,
    pub spectrum_max_err: Figure,
    pub mel_max_err: Figure,
    pub welch_max_err: Figure,
    /// The mean gate, three decimals.
    pub mean_gate: String,
    pub active_gates: usize,
    pub active_gates_hard: usize,
    pub q8_enabled: bool,
    pub elapsed_ms: Figure,
}

/// What the statistics of a teacher stand for.
pub struct TeacherView {
    pub steps: usize,
    pub spectrum_max_err: FigureView,
    pub mel_max_err: FigureView,
    pub welch_max_err: FigureView,
    pub mean_gate: Seq<char>,
    pub active_gates: usize,
    pub active_gates_hard: usize,
    pub q8_enabled: bool,
    pub elapsed_ms: FigureView,
}

impl View for TeacherStats {
    type V = TeacherView;

    open spec fn view(&self) -> TeacherView {
        TeacherView {
            steps: self.steps,
            spectrum_max_err: self.spectrum_max_err@,
            mel_max_err: self.mel_max_err@,
            welch_max_err: self.welch_max_err@,
            mean_gate: self.mean_gate@,
            active_gates: self.active_gates,
            active_gates_hard: self.active_gates_hard,
            q8_enabled: self.q8_enabled,
            elapsed_ms: self.elapsed_ms@,
        }
    }
}

/// How the distillation of a student ended.
#[derive(Clone, Debug)]
pub struct DistillStats {
    pub steps: usize,
    pub mel_err_vs_teacher: Figure,
    pub welch_err_vs_teacher: Figure,
    pub mel_err_vs_ref: Figure,
    pub elapsed_ms: Figure,
}

/// What the statistics of a distillation stand for.
pub struct DistillView {
    pub steps: usize,
    pub mel_err_vs_teacher: FigureView,
    pub welch_err_vs_teacher: FigureView,
    pub mel_err_vs_ref: FigureView,
    pub elapsed_ms: FigureView,
}

impl View for DistillStats {
    type V = DistillView;

    open spec fn view(&self) -> DistillView {
        DistillView {
            steps: self.steps,
            mel_err_vs_teacher: self.mel_err_vs_teacher@,
            welch_err_vs_teacher: self.welch_err_vs_teacher@,
            mel_err_vs_ref: self.mel_err_vs_ref@,
            elapsed_ms: self.elapsed_ms@,
        }
    }
}

/// The view of an optional statistic.
pub open spec fn teacher_view(t: Option<TeacherStats>) -> Option<TeacherView> {
    match t {
        Some(v) => Some(v@),
        None => None,
    }
}

/// The view of an optional statistic.
pub open spec fn distill_view(t: Option<DistillStats>) -> Option<DistillView> {
    match t {
        Some(v) => Some(v@),
        None => None,
    }
}

fn copy_teacher(t: &Option<TeacherStats>) -> (r: Option<TeacherStats>)
    ensures
        teacher_view(r) == teacher_view(*t),
{
    match t {
        Some(v) => Some(
            TeacherStats {
                steps: v.steps,
                spectrum_max_err: v.spectrum_max_err.copy(),
                mel_max_err: v.mel_max_err.copy(),
                welch_max_err: v.welch_max_err.copy(),
                mean_gate: copy_text(&v.mean_gate),
                active_gates: v.active_gates,
                active_gates_hard: v.active_gates_hard,
                q8_enabled: v.q8_enabled,
                elapsed_ms: v.elapsed_ms.copy(),
            },
        ),
        None => None,
    }
}

fn copy_distill(t: &Option<DistillStats>) -> (r: Option<DistillStats>)
    ensures
        distill_view(r) == distill_view(*t),
{
    match t {
        Some(v) => Some(
            DistillStats {
                steps: v.steps,
                mel_err_vs_teacher: v.mel_err_vs_teacher.copy(),
                welch_err_vs_teacher: v.welch_err_vs_teacher.copy(),
                mel_err_vs_ref: v.mel_err_vs_ref.copy(),
                elapsed_ms: v.elapsed_ms.copy(),
            },
        ),
        None => None,
    }
}

/// How the training for one batch ended.
#[derive(Clone, Debug)]
pub struct E2eBatchTrainMeta {
    pub batch: usize,
    pub teacher: Option<TeacherStats>,
    pub distill: Option<DistillStats>,
}

/// What it stands for.
pub struct BatchMetaView {
    pub batch: usize,
    pub teacher: Option<TeacherView>,
    pub distill: Option<DistillView>,
}

impl View for E2eBatchTrainMeta {
    type V = BatchMetaView;

    open spec fn view(&self) -> BatchMetaView {
        BatchMetaView {
            batch: self.batch,
            teacher: teacher_view(self.teacher),
            distill: distill_view(self.distill),
        }
    }
}

impl E2eBatchTrainMeta {
    fn copy(&self) -> (r: E2eBatchTrainMeta)
        ensures
            r@ == self@,
    {
        E2eBatchTrainMeta {
            batch: self.batch,
            teacher: copy_teacher(&self.teacher),
            distill: copy_distill(&self.distill),
        }
    }
}

/// The views of a list of training outcomes.
pub open spec fn meta_views(v: Seq<E2eBatchTrainMeta>) -> Seq<BatchMetaView> {
    v.map_values(|m: E2eBatchTrainMeta| m@)
}

/// The settings and the training of a bench.
#[derive(Clone, Debug)]
pub struct E2eBenchMeta {
    pub n_fft: usize,
    pub seed: u64,
    pub devices: Vec<String>,
    pub batches: Vec<usize>,
    pub peak_k: usize,
    pub train_steps: Option<usize>,
    pub distill_steps: Option<usize>,
    pub teacher: Option<TeacherStats>,
    pub distill: Option<DistillStats>,
    pub per_batch: Vec<E2eBatchTrainMeta>,
}

/// A bench: its settings and its rows.
#[derive(Clone, Debug)]
pub struct E2eBenchReport {
    pub n_mels: usize,
    pub iters: usize,
    pub elapsed_ms: Figure,
    pub rows: Vec<E2eBenchRow>,
    pub meta: E2eBenchMeta,
}

// ---------------------------------------------------------------------------
// Merging
// ---------------------------------------------------------------------------

/// The rows of several reports, one report after the other.
pub open spec fn merged_rows(reports: Seq<E2eBenchReport>) -> Seq<E2eRowView>
    decreases reports.len(),
{
    if reports.len() == 0 {
        Seq::empty()
    } else {
        merged_rows(reports.drop_last()) + e2e_views(reports.last().rows@)
    }
}

/// The devices of several reports.
pub open spec fn merged_devices(reports: Seq<E2eBenchReport>) -> Seq<Seq<char>>
    decreases reports.len(),
{
    if reports.len() == 0 {
        Seq::empty()
    } else {
        merged_devices(reports.drop_last()) + texts(reports.last().meta.devices@)
    }
}

/// The batches of several reports.
pub open spec fn merged_batches(reports: Seq<E2eBenchReport>) -> Seq<usize>
    decreases reports.len(),
{
    if reports.len() == 0 {
        Seq::empty()
    } else {
        merged_batches(reports.drop_last()) + reports.last().meta.batches@
    }
}

/// The outcomes of a first list, and those of a second whose batch is new.
pub open spec fn joined_meta(a: Seq<BatchMetaView>, b: Seq<BatchMetaView>) -> Seq<BatchMetaView>
    decreases b.len(),
{
    if b.len() == 0 {
        a
    } else {
        let before = joined_meta(a, b.drop_last());
        if has_batch(before, b.last().batch) {
            before
        } else {
            before.push(b.last())
        }
    }
}

/// Whether a list holds an outcome for a batch.
pub open spec fn has_batch(v: Seq<BatchMetaView>, batch: usize) -> bool {
    exists|i: int| 0 <= i < v.len() && (#[trigger] v[i]).batch == batch
}

/// The training outcomes of several reports: those of the first, and of each other the ones whose
/// batch is new.
pub open spec fn merged_meta(reports: Seq<E2eBenchReport>) -> Seq<BatchMetaView>
    decreases reports.len(),
{
    if reports.len() == 0 {
        Seq::empty()
    } else if reports.len() == 1 {
        joined_meta(meta_views(reports[0].meta.per_batch@), meta_views(reports[0].meta.per_batch@))
    } else {
        joined_meta(merged_meta(reports.drop_last()), meta_views(reports.last().meta.per_batch@))
    }
}

/// The first teacher that some report has.
pub open spec fn first_teacher(reports: Seq<E2eBenchReport>) -> Option<TeacherView>
    decreases reports.len(),
{
    if reports.len() == 0 {
        None
    } else {
        match first_teacher(reports.drop_last()) {
            Some(t) => Some(t),
            None => teacher_view(reports.last().meta.teacher),
        }
    }
}

/// The first distillation that some report has.
pub open spec fn first_distill(reports: Seq<E2eBenchReport>) -> Option<DistillView>
    decreases reports.len(),
{
    if reports.len() == 0 {
        None
    } else {
        match first_distill(reports.drop_last()) {
            Some(t) => Some(t),
            None => distill_view(reports.last().meta.distill),
        }
    }
}

/// The batches of some training outcomes.
pub open spec fn batch_keys(v: Seq<BatchMetaView>) -> Seq<usize> {
    v.map_values(|m: BatchMetaView| m.batch)
}

/// The outcomes of `v` at some positions.
pub open spec fn metas_at(v: Seq<BatchMetaView>, order: Seq<usize>) -> Seq<BatchMetaView> {
    order.map_values(|i: usize| v[i as int])
}

/// Whether `out` holds the outcomes of `v` in stable order of their batches.
pub open spec fn sorted_meta(v: Seq<BatchMetaView>, out: Seq<BatchMetaView>) -> bool {
    exists|order: Seq<usize>| #[trigger]
        stable_order_of::<usize>(batch_keys(v), order) && out == metas_at(v, order)
}

fn push_new_meta(out: &mut Vec<E2eBatchTrainMeta>, more: &Vec<E2eBatchTrainMeta>)
    ensures
        meta_views(final(out)@) == joined_meta(meta_views(old(out)@), meta_views(more@)),
{
    let ghost a = meta_views(out@);
    let ghost b = meta_views(more@);
    let mut i: usize = 0;
    assert(b.take(0) =~= Seq::empty());
    while i < more.len()
        invariant
            i <= more.len(),
            b == meta_views(more@),
            meta_views(out@) == joined_meta(a, b.take(i as int)),
        decreases more.len() - i,
    {
        proof {
            assert(b.take(i + 1).drop_last() =~= b.take(i as int));
            assert(b.take(i + 1).last() == more@[i as int]@);
        }
        let ghost now = meta_views(out@);
        let batch: usize = more[i].batch;
        let mut k: usize = 0;
        let mut found = false;
        while k < out.len()
            invariant
                k <= out.len(),
                now == meta_views(out@),
                found == has_batch(now.take(k as int), batch),
            decreases out.len() - k,
        {
            proof {
                let t = now.take(k + 1);
                assert(t[k as int] == out@[k as int]@);
                if found {
                    let q = choose|q: int|
                        0 <= q < k && (#[trigger] now.take(k as int)[q]).batch == batch;
                    assert(t[q].batch == batch);
                }
                if has_batch(t, batch) && out@[k as int].batch != batch {
                    let q = choose|q: int| 0 <= q < t.len() && (#[trigger] t[q]).batch == batch;
                    assert(now.take(k as int)[q].batch == batch);
                }
            }
            if out[k].batch == batch {
                found = true;
            }
            k += 1;
        }
        assert(now.take(now.len() as int) =~= now);
        if !found {
            let m = more[i].copy();
            let ghost mv = m@;
            out.push(m);
            assert(meta_views(out@) =~= now.push(mv));
        }
        i += 1;
    }
    assert(b.take(b.len() as int) =~= b);
}

fn sort_meta(v: &Vec<E2eBatchTrainMeta>) -> (r: Vec<E2eBatchTrainMeta>)
    ensures
        sorted_meta(meta_views(v@), meta_views(r@)),
{
    let ghost m = meta_views(v@);
    let mut keys: Vec<usize> = Vec::new();
    let mut i: usize = 0;
    while i < v.len()
        invariant
            i <= v.len(),
            keys.len() == i,
            forall|k: int| 0 <= k < i ==> #[trigger] keys@[k] == v@[k].batch,
        decreases v.len() - i,
    {
        keys.push(v[i].batch);
        i += 1;
    }
    assert(models(keys@) =~= batch_keys(m));
    let order = stable_order(&keys);
    let mut out: Vec<E2eBatchTrainMeta> = Vec::new();
    let mut k: usize = 0;
    while k < order.len()
        invariant
            k <= order.len(),
            m == meta_views(v@),
            order.len() == v.len(),
            forall|j: int| 0 <= j < order.len() ==> (#[trigger] order@[j]) < v.len(),
            out.len() == k,
            forall|j: int| 0 <= j < k ==> (#[trigger] out@[j])@ == m[order@[j] as int],
        decreases order.len() - k,
    {
        let at: usize = order[k];
        out.push(v[at].copy());
        k += 1;
    }
    assert(meta_views(out@) =~= metas_at(m, order@));
    out
}

/// Merges the reports of several machines: the settings of the first, the rows of all in order, all
/// devices and batches once in ascending order, and one training outcome for each batch.
/// `elapsed_ms` is the total time.
pub fn merge_e2e_reports(reports: &Vec<E2eBenchReport>, elapsed_ms: Figure) -> (r: Result<
    E2eBenchReport,
    E2eError,
>)
    ensures
        reports.len() == 0 ==> (r matches Err(e) && e is NothingToMerge),
        reports.len() > 0 ==> {
            &&& r matches Ok(m)
            &&& m.n_mels == reports@[0].n_mels
            &&& m.iters == reports@[0].iters
            &&& m.elapsed_ms == elapsed_ms
            &&& e2e_views(m.rows@) == merged_rows(reports@)
            &&& m.meta.n_fft == reports@[0].meta.n_fft
            &&& m.meta.seed == reports@[0].meta.seed
            &&& m.meta.peak_k == reports@[0].meta.peak_k
            &&& m.meta.train_steps == reports@[0].meta.train_steps
            &&& m.meta.distill_steps == reports@[0].meta.distill_steps
            &&& ascending::<String>(texts(m.meta.devices@))
            &&& texts(m.meta.devices@).to_set() == merged_devices(reports@).to_set()
            &&& ascending::<usize>(m.meta.batches@)
            &&& m.meta.batches@.to_set() == merged_batches(reports@).to_set()
            &&& sorted_meta(merged_meta(reports@), meta_views(m.meta.per_batch@))
            &&& teacher_view(m.meta.teacher) == first_teacher(reports@)
            &&& distill_view(m.meta.distill) == first_distill(reports@)
        },
{
    if reports.len() == 0 {
        return Err(E2eError::NothingToMerge);
    }
    let first = &reports[0];
    let mut rows: Vec<E2eBenchRow> = Vec::new();
    let mut devices: Vec<String> = Vec::new();
    let mut batches: Vec<usize> = Vec::new();
    let mut per_batch: Vec<E2eBatchTrainMeta> = Vec::new();
    let mut k: usize = 0;
    while k < first.meta.per_batch.len()
        invariant
            k <= first.meta.per_batch.len(),
            per_batch.len() == k,
            forall|j: int|
                0 <= j < k ==> (#[trigger] per_batch@[j])@ == first.meta.per_batch@[j]@,
        decreases first.meta.per_batch.len() - k,
    {
        per_batch.push(first.meta.per_batch[k].copy());
        k += 1;
    }
    assert(meta_views(per_batch@) =~= meta_views(first.meta.per_batch@));
    let mut teacher: Option<TeacherStats> = None;
    let mut distill: Option<DistillStats> = None;
    let mut i: usize = 0;
    assert(e2e_views(rows@) =~= merged_rows(reports@.take(0)));
    assert(texts(devices@) =~= merged_devices(reports@.take(0)));
    assert(batches@ =~= merged_batches(reports@.take(0)));
    while i < reports.len()
        invariant
            i <= reports.len(),
            first == &reports@[0],
            reports.len() > 0,
            e2e_views(rows@) == merged_rows(reports@.take(i as int)),
            texts(devices@) == merged_devices(reports@.take(i as int)),
            batches@ == merged_batches(reports@.take(i as int)),
            i == 0 ==> meta_views(per_batch@) == meta_views(first.meta.per_batch@),
            i > 0 ==> meta_views(per_batch@) == merged_meta(reports@.take(i as int)),
            teacher_view(teacher) == first_teacher(reports@.take(i as int)),
            distill_view(distill) == first_distill(reports@.take(i as int)),
        decreases reports.len() - i,
    {
        let rep = &reports[i];
        let ghost now = reports@.take(i + 1);
        assert(now.drop_last() =~= reports@.take(i as int));
        assert(now.last() == *rep);
        let ghost rows0 = e2e_views(rows@);
        let mut a: usize = 0;
        assert(rows0 + e2e_views(rep.rows@).take(0) =~= rows0);
        while a < rep.rows.len()
            invariant
                a <= rep.rows.len(),
                e2e_views(rows@) == rows0 + e2e_views(rep.rows@).take(a as int),
            decreases rep.rows.len() - a,
        {
            let ghost was = e2e_views(rows@);
            rows.push(rep.rows[a].copy());
            assert(e2e_views(rows@) =~= was.push(rep.rows@[a as int]@));
            assert(e2e_views(rows@) =~= rows0 + e2e_views(rep.rows@).take(a + 1));
            a += 1;
        }
        assert(e2e_views(rep.rows@).take(a as int) =~= e2e_views(rep.rows@));
        let ghost devices0 = texts(devices@);
        let mut b: usize = 0;
        assert(devices0 + texts(rep.meta.devices@).take(0) =~= devices0);
        while b < rep.meta.devices.len()
            invariant
                b <= rep.meta.devices.len(),
                texts(devices@) == devices0 + texts(rep.meta.devices@).take(b as int),
            decreases rep.meta.devices.len() - b,
        {
            let ghost was = texts(devices@);
            devices.push(copy_text(&rep.meta.devices[b]));
            assert(texts(devices@) =~= was.push(rep.meta.devices@[b as int]@));
            assert(texts(devices@) =~= devices0 + texts(rep.meta.devices@).take(b + 1));
            b += 1;
        }
        assert(texts(rep.meta.devices@).take(b as int) =~= texts(rep.meta.devices@));
        let ghost batches0 = batches@;
        let mut c: usize = 0;
        assert(batches0 + rep.meta.batches@.take(0) =~= batches0);
        while c < rep.meta.batches.len()
            invariant
                c <= rep.meta.batches.len(),
                batches@ == batches0 + rep.meta.batches@.take(c as int),
            decreases rep.meta.batches.len() - c,
        {
            batches.push(rep.meta.batches[c]);
            assert(batches@ =~= batches0 + rep.meta.batches@.take(c + 1));
            c += 1;
        }
        assert(rep.meta.batches@.take(c as int) =~= rep.meta.batches@);
        push_new_meta(&mut per_batch, &rep.meta.per_batch);
        proof {
            if i == 0 {
                assert(now.len() == 1 && now[0] == *rep);
            }
        }
        if teacher.is_none() {
            teacher = copy_teacher(&rep.meta.teacher);
        }
        if distill.is_none() {
            distill = copy_distill(&rep.meta.distill);
        }
        i += 1;
    }
    assert(reports@.take(reports@.len() as int) =~= reports@);
    Ok(
        E2eBenchReport {
            n_mels: first.n_mels,
            iters: first.iters,
            elapsed_ms,
            rows,
            meta: E2eBenchMeta {
                n_fft: first.meta.n_fft,
                seed: first.meta.seed,
                devices: distinct_texts(devices),
                batches: distinct_numbers(batches),
                peak_k: first.meta.peak_k,
                train_steps: first.meta.train_steps,
                distill_steps: first.meta.distill_steps,
                teacher,
                distill,
                per_batch: sort_meta(&per_batch),
            },
        },
    )
}

// ---------------------------------------------------------------------------
// Looking rows up
// ---------------------------------------------------------------------------

/// Whether a row is of a pipeline, device, batch and backend.
pub open spec fn row_is(
    r: E2eRowView,
    pipeline: Seq<char>,
    device: Seq<char>,
    batch: usize,
    backend: Seq<char>,
) -> bool {
    r.pipeline == pipeline && r.device == device && r.batch == batch && r.backend == backend
}

/// The first row of a pipeline, device, batch and backend.
pub open spec fn row_for(
    rows: Seq<E2eRowView>,
    pipeline: Seq<char>,
    device: Seq<char>,
    batch: usize,
    backend: Seq<char>,
) -> Option<int>
    decreases rows.len(),
{
    if rows.len() == 0 {
        None
    } else {
        match row_for(rows.drop_last(), pipeline, device, batch, backend) {
            Some(i) => Some(i),
            None => if row_is(rows.last(), pipeline, device, batch, backend) {
                Some(rows.len() - 1)
            } else {
                None
            },
        }
    }
}

proof fn lemma_row_for_stays(
    rows: Seq<E2eRowView>,
    n: int,
    pipeline: Seq<char>,
    device: Seq<char>,
    batch: usize,
    backend: Seq<char>,
)
    requires
        0 <= n <= rows.len(),
        row_for(rows.take(n), pipeline, device, batch, backend) is Some,
    ensures
        row_for(rows, pipeline, device, batch, backend) == row_for(
            rows.take(n),
            pipeline,
            device,
            batch,
            backend,
        ),
    decreases rows.len() - n,
{
    if n == rows.len() {
        assert(rows.take(n) =~= rows);
    } else {
        assert(rows.take(n + 1).drop_last() =~= rows.take(n));
        lemma_row_for_stays(rows, n + 1, pipeline, device, batch, backend);
    }
}

/// The first row of a pipeline, device, batch and backend.
pub fn lookup_row(
    rows: &Vec<E2eBenchRow>,
    pipeline: &str,
    device: &str,
    batch: usize,
    backend: &str,
) -> (r: Option<usize>)
    ensures
        match r {
            Some(i) => i < rows.len() && row_for(
                e2e_views(rows@),
                pipeline@,
                device@,
                batch,
                backend@,
            ) == Some(i as int) && row_is(
                rows@[i as int]@,
                pipeline@,
                device@,
                batch,
                backend@,
            ),
            None => row_for(e2e_views(rows@), pipeline@, device@, batch, backend@) is None,
        },
{
    let ghost v = e2e_views(rows@);
    let mut i: usize = 0;
    assert(v.take(0) =~= Seq::empty());
    while i < rows.len()
        invariant
            i <= rows.len(),
            v == e2e_views(rows@),
            row_for(v.take(i as int), pipeline@, device@, batch, backend@) is None,
        decreases rows.len() - i,
    {
        let r = &rows[i];
        proof {
            assert(v.take(i + 1).drop_last() =~= v.take(i as int));
            assert(v.take(i + 1).last() == r@);
        }
        if same_text(r.pipeline.as_str(), pipeline) && same_text(r.device.as_str(), device)
            && r.batch == batch && same_text(r.backend.as_str(), backend) {
            proof {
                lemma_row_for_stays(v, i + 1, pipeline@, device@, batch, backend@);
            }
            return Some(i);
        }
        i += 1;
    }
    assert(v.take(v.len() as int) =~= v);
    None
}

// ---------------------------------------------------------------------------
// Speed gates
// ---------------------------------------------------------------------------

/// How a backend fares against its baseline.
#[derive(Debug, Clone, Copy, PartialEq, Eq, Structural)]
pub enum GateStatus {
    Pass,
    PassSpeed,
    PassAcc,
    Fail,
}

impl GateStatus {
    /// The status for a speed and an accuracy that are within their limits or not.
    pub open spec fn judged(speed_ok: bool, acc_ok: bool) -> GateStatus {
        if speed_ok && acc_ok {
            GateStatus::Pass
        } else if speed_ok {
            GateStatus::PassSpeed
        } else if acc_ok {
            GateStatus::PassAcc
        } else {
            GateStatus::Fail
        }
    }

    /// The status for a speed and an accuracy that are within their limits or not.
    pub fn of(speed_ok: bool, acc_ok: bool) -> (r: GateStatus)
        ensures
            r == GateStatus::judged(speed_ok, acc_ok),
            r == if speed_ok && acc_ok {
                GateStatus::Pass
            } else if speed_ok {
                GateStatus::PassSpeed
            } else if acc_ok {
                GateStatus::PassAcc
            } else {
                GateStatus::Fail
            },
    {
        if speed_ok && acc_ok {
            GateStatus::Pass
        } else if speed_ok {
            GateStatus::PassSpeed
        } else if acc_ok {
            GateStatus::PassAcc
        } else {
            GateStatus::Fail
        }
    }

    pub open spec fn label_text(self) -> Seq<char> {
        match self {
            GateStatus::Pass => "PASS"@,
            GateStatus::PassSpeed => "PASS_SPEED"@,
            GateStatus::PassAcc => "PASS_ACC"@,
            GateStatus::Fail => "FAIL"@,
        }
    }

    pub fn label(self) -> (r: &'static str)
        ensures
            r@ == self.label_text(),
    {
        match self {
            GateStatus::Pass => "PASS",
            GateStatus::PassSpeed => "PASS_SPEED",
            GateStatus::PassAcc => "PASS_ACC",
            GateStatus::Fail => "FAIL",
        }
    }

    /// The style of a status in a page.
    pub open spec fn class_text(self) -> Seq<char> {
        match self {
            GateStatus::Pass => "pass"@,
            GateStatus::PassSpeed => "warn"@,
            GateStatus::PassAcc => "warn"@,
            GateStatus::Fail => "fail"@,
        }
    }

    pub fn class(self) -> (r: &'static str)
        ensures
            r@ == self.class_text(),
    {
        match self {
            GateStatus::Pass => "pass",
            GateStatus::PassSpeed => "warn",
            GateStatus::PassAcc => "warn",
            GateStatus::Fail => "fail",
        }
    }
}

/// A device and a batch of the mel pipeline whose baseline and candidate both have a row.
#[derive(Clone, Debug)]
pub struct GatePair {
    pub device: String,
    pub batch: usize,
    /// The places of the rows.
    pub baseline: usize,
    pub candidate: usize,
}

/// What a pair stands for.
pub struct GatePairView {
    pub device: Seq<char>,
    pub batch: usize,
    pub baseline: int,
    pub candidate: int,
}

impl View for GatePair {
    type V = GatePairView;

    open spec fn view(&self) -> GatePairView {
        GatePairView {
            device: self.device@,
            batch: self.batch,
            baseline: self.baseline as int,
            candidate: self.candidate as int,
        }
    }
}

/// The devices and batches of the mel rows.
pub open spec fn mel_cells(rows: Seq<E2eRowView>) -> Seq<(Seq<char>, usize)>
    decreases rows.len(),
{
    if rows.len() == 0 {
        Seq::empty()
    } else if rows.last().pipeline == "mel"@ {
        mel_cells(rows.drop_last()).push((rows.last().device, rows.last().batch))
    } else {
        mel_cells(rows.drop_last())
    }
}

/// The pairs of some cells; cells without both rows are left out.
pub open spec fn pairs_of(
    rows: Seq<E2eRowView>,
    cells: Seq<(Seq<char>, usize)>,
    baseline: Seq<char>,
    candidate: Seq<char>,
) -> Seq<GatePairView>
    decreases cells.len(),
{
    if cells.len() == 0 {
        Seq::empty()
    } else {
        let before = pairs_of(rows, cells.drop_last(), baseline, candidate);
        let (device, batch) = cells.last();
        match (
            row_for(rows, "mel"@, device, batch, baseline),
            row_for(rows, "mel"@, device, batch, candidate),
        ) {
            (Some(b), Some(c)) => before.push(
                GatePairView { device, batch, baseline: b, candidate: c },
            ),
            _ => before,
        }
    }
}

/// The views of some pairs.
pub open spec fn pair_views(v: Seq<GatePair>) -> Seq<GatePairView> {
    v.map_values(|p: GatePair| p@)
}

/// The pairs that a speed gate compares: the cells of the mel pipeline in ascending order, each
/// with its first rows of the baseline and the candidate.
pub open spec fn gate_pairs(
    rows: Seq<E2eRowView>,
    baseline: Seq<char>,
    candidate: Seq<char>,
    out: Seq<GatePairView>,
) -> bool {
    exists|cells: Seq<(Seq<char>, usize)>|
        ascending::<(String, usize)>(cells) && cells.to_set() == mel_cells(rows).to_set() && out
            == #[trigger] pairs_of(rows, cells, baseline, candidate)
}

/// The devices and batches of the mel rows, in ascending order, each once.
pub fn distinct_mel_cells(rows: &Vec<E2eBenchRow>) -> (r: Vec<(String, usize)>)
    ensures
        ascending::<(String, usize)>(models(r@)),
        models(r@).to_set() == mel_cells(e2e_views(rows@)).to_set(),
{
    let ghost v = e2e_views(rows@);
    let mut out: Vec<(String, usize)> = Vec::new();
    let mut i: usize = 0;
    assert(models(out@) =~= mel_cells(v.take(0)));
    while i < rows.len()
        invariant
            i <= rows.len(),
            v == e2e_views(rows@),
            models(out@) == mel_cells(v.take(i as int)),
        decreases rows.len() - i,
    {
        let ghost was = models(out@);
        proof {
            assert(v.take(i + 1).drop_last() =~= v.take(i as int));
            assert(v.take(i + 1).last() == rows@[i as int]@);
        }
        if same_text(rows[i].pipeline.as_str(), "mel") {
            let key = (copy_text(&rows[i].device), rows[i].batch);
            let ghost k = key.model();
            out.push(key);
            assert(models(out@) =~= was.push(k));
        }
        i += 1;
    }
    assert(v.take(v.len() as int) =~= v);
    sorted_distinct(out)
}

/// The pairs that a speed gate compares.
pub fn speed_gate_pairs(rows: &Vec<E2eBenchRow>, baseline: &str, candidate: &str) -> (r: Vec<
    GatePair,
>)
    ensures
        gate_pairs(e2e_views(rows@), baseline@, candidate@, pair_views(r@)),
        forall|k: int|
            0 <= k < r.len() ==> (#[trigger] r@[k]).baseline < rows.len() && r@[k].candidate
                < rows.len(),
{
    let cells = distinct_mel_cells(rows);
    let ghost v = e2e_views(rows@);
    let ghost m = models(cells@);
    let mut out: Vec<GatePair> = Vec::new();
    let mut i: usize = 0;
    assert(pair_views(out@) =~= pairs_of(v, m.take(0), baseline@, candidate@));
    while i < cells.len()
        invariant
            i <= cells.len(),
            v == e2e_views(rows@),
            m == models(cells@),
            pair_views(out@) == pairs_of(v, m.take(i as int), baseline@, candidate@),
            forall|k: int|
                0 <= k < out.len() ==> (#[trigger] out@[k]).baseline < rows.len()
                    && out@[k].candidate < rows.len(),
        decreases cells.len() - i,
    {
        let ghost was = pair_views(out@);
        proof {
            assert(m.take(i + 1).drop_last() =~= m.take(i as int));
            assert(m.take(i + 1).last() == (cells@[i as int].0@, cells@[i as int].1));
        }
        let device = cells[i].0.as_str();
        let batch: usize = cells[i].1;
        let b = lookup_row(rows, "mel", device, batch, baseline);
        let c = lookup_row(rows, "mel", device, batch, candidate);
        if let Some(x) = b {
            if let Some(y) = c {
                let p = GatePair {
                    device: device.to_owned(),
                    batch,
                    baseline: x,
                    candidate: y,
                };
                let ghost pv = p@;
                out.push(p);
                assert(pair_views(out@) =~= was.push(pv));
            }
        }
        i += 1;
    }
    assert(m.take(m.len() as int) =~= m);
    out
}

// ---------------------------------------------------------------------------
// Tables
// ---------------------------------------------------------------------------

/// The pipelines of some rows.
pub open spec fn pipelines_of(rows: Seq<E2eRowView>) -> Seq<Seq<char>> {
    rows.map_values(|r: E2eRowView| r.pipeline)
}

/// The pipelines of some rows in dictionary order, each once.
pub fn distinct_pipelines(rows: &Vec<E2eBenchRow>) -> (r: Vec<String>)
    ensures
        ascending::<String>(texts(r@)),
        texts(r@).to_set() == pipelines_of(e2e_views(rows@)).to_set(),
{
    let mut out: Vec<String> = Vec::new();
    let mut i: usize = 0;
    while i < rows.len()
        invariant
            i <= rows.len(),
            out.len() == i,
            forall|k: int| 0 <= k < i ==> (#[trigger] out@[k])@ == rows@[k].pipeline@,
        decreases rows.len() - i,
    {
        out.push(copy_text(&rows[i].pipeline));
        i += 1;
    }
    assert(texts(out@) =~= pipelines_of(e2e_views(rows@)));
    distinct_texts(out)
}

// ---------------------------------------------------------------------------
// Training before a bench
// ---------------------------------------------------------------------------

/// What is trained before a bench.
#[derive(Debug, Clone, Copy, PartialEq, Eq, Structural)]
pub struct TrainFlags {
    pub train_first: bool,
    pub distill_first: bool,
    pub ternary_distill_first: bool,
}

/// Where the distilled student of a bench comes from.
#[derive(Debug, Clone, Copy, PartialEq, Eq, Structural)]
pub enum StudentPlan {
    /// Distilled from the trained teacher, with this seed.
    Distilled { seed: u64 },
    /// Taken over from the trained teacher.
    FromTeacher,
    /// Taken over from a fresh model.
    FromFresh,
}

/// Where the ternary student of a bench comes from.
#[derive(Debug, Clone, Copy, PartialEq, Eq, Structural)]
pub enum TernaryPlan {
    /// Distilled from the teacher and the distilled student, with this seed.
    DistilledFromStudent { seed: u64 },
    /// Taken over from the distilled student and the teacher.
    FromStudent,
    /// Taken over from the trained teacher.
    FromTeacher,
    /// Taken over from a fresh model.
    FromFresh,
}

/// The models of a bench for one batch.
#[derive(Debug, Clone, Copy, PartialEq, Eq, Structural)]
pub struct BatchPlan {
    /// The seed to train the teacher with; a fresh model stands in where it is not trained.
    pub teacher_seed: Option<u64>,
    pub student: StudentPlan,
    pub ternary: TernaryPlan,
    /// The seed of the bench signals.
    pub bench_seed: u64,
}

/// A sum that wraps around at 64 bits.
pub open spec fn wrapped(a: int) -> u64 {
    (a % 0x1_0000_0000_0000_0000) as u64
}

/// The models of a bench for one batch: the teacher is trained when training or distilling is asked
/// for, and every model that is not trained is taken over from the best one there is.
pub open spec fn batch_plan(f: TrainFlags, seed: u64, batch: usize) -> BatchPlan {
    let trained = f.train_first || f.distill_first;
    BatchPlan {
        teacher_seed: if trained {
            Some(wrapped(seed + batch))
        } else {
            None
        },
        student: if f.distill_first {
            StudentPlan::Distilled { seed: wrapped(seed + batch + 1) }
        } else if trained {
            StudentPlan::FromTeacher
        } else {
            StudentPlan::FromFresh
        },
        ternary: if f.ternary_distill_first && trained {
            TernaryPlan::DistilledFromStudent { seed: wrapped(seed + batch + 3) }
        } else if f.distill_first {
            TernaryPlan::FromStudent
        } else if trained && !f.ternary_distill_first {
            TernaryPlan::FromTeacher
        } else {
            TernaryPlan::FromFresh
        },
        bench_seed: wrapped(seed + batch),
    }
}

/// The models of a bench for one batch.
pub fn plan_batch(f: TrainFlags, seed: u64, batch: usize) -> (r: BatchPlan)
    ensures
        r == batch_plan(f, seed, batch),
{
    let trained = f.train_first || f.distill_first;
    let base: u64 = seed.wrapping_add(batch as u64);
    BatchPlan {
        teacher_seed: if trained {
            Some(base)
        } else {
            None
        },
        student: if f.distill_first {
            StudentPlan::Distilled { seed: base.wrapping_add(1) }
        } else if trained {
            StudentPlan::FromTeacher
        } else {
            StudentPlan::FromFresh
        },
        ternary: if f.ternary_distill_first && trained {
            TernaryPlan::DistilledFromStudent { seed: base.wrapping_add(3) }
        } else if f.distill_first {
            TernaryPlan::FromStudent
        } else if trained && !f.ternary_distill_first {
            TernaryPlan::FromTeacher
        } else {
            TernaryPlan::FromFresh
        },
        bench_seed: base,
    }
}

/// The step counts that a report names: those of what was trained.
pub open spec fn steps_named(f: TrainFlags, train_steps: usize, distill_steps: usize) -> (
    Option<usize>,
    Option<usize>,
) {
    (
        if f.train_first || f.distill_first {
            Some(train_steps)
        } else {
            None
        },
        if f.distill_first || f.ternary_distill_first {
            Some(distill_steps)
        } else {
            None
        },
    )
}

/// The step counts that a report names: those of what was trained.
pub fn reported_steps(f: TrainFlags, train_steps: usize, distill_steps: usize) -> (r: (
    Option<usize>,
    Option<usize>,
))
    ensures
        r == steps_named(f, train_steps, distill_steps),
        r.0 == if f.train_first || f.distill_first {
            Some(train_steps)
        } else {
            None
        },
        r.1 == if f.distill_first || f.ternary_distill_first {
            Some(distill_steps)
        } else {
            None
        },
{
    (
        if f.train_first || f.distill_first {
            Some(train_steps)
        } else {
            None
        },
        if f.distill_first || f.ternary_distill_first {
            Some(distill_steps)
        } else {
            None
        },
    )
}

} // verus!

//! The arguments of every subcommand, as read from the command line.

use crate::ablation::note_view;
use crate::cli::{count_given, count_or, counts_given, deferred_texts, dir_or, flag_given, flag_or, get_count,
    get_count_given, get_counts_given, get_dir, get_flag, get_flag_given, get_seed, get_seed_given,
    get_text, get_text_given, list_view, parsed_by, scan_args, seed_given, seed_or, text_given, text_or, End, Opt,
    Outcome, Parsed, ValView};
use crate::cli_flags::{PRECISION_SWEEP, TRAIN_MATRYOSHKA, TRAIN, EVAL, BENCH, COMPARE, TRAIN_ENCDEC, ROUNDTRIP, TRAIN_PHASED, TRAIN_MULTI, BENCH_PHASED, BENCH_SWEEP, MAX_BATCH, REPORT_HTML, STUDY_REPORT, ABLATION, TRAIN_E2E, TRAIN_DISTILL, TRAIN_DISTILL_TERNARY, BENCH_E2E, BENCH_WELCH_PEAKS, BENCH_FUSION_PHASES};
use crate::config::TransformDir;
use crate::text::texts;
use vstd::prelude::*;

verus! {

/// Peaks kept of each spectrum where none are asked for.
pub const DEFAULT_PEAK_K: usize = 16;

/// The arguments of `precision-sweep`.
#[derive(Debug)]
pub struct PrecisionSweepArgs {
    pub n_ffts: Option<Vec<usize>>,
    pub batch: usize,
    pub max_iters: usize,
    pub seed: u64,
    pub json: Option<String>,
}

/// Whether arguments are those that were read.
pub open spec fn precision_sweep_args(ev: Seq<(Opt, ValView)>, a: PrecisionSweepArgs) -> bool {
    &&& list_view(a.n_ffts) == counts_given(ev, Opt::NFft)
    &&& a.batch == count_or(ev, Opt::Batch, 16)
    &&& a.max_iters == count_or(ev, Opt::MaxIters, 3)
    &&& a.seed == seed_or(ev, Opt::Seed, 7)
    &&& note_view(a.json) == text_given(ev, Opt::Json)
}

pub open spec fn precision_sweep_run(ev: Seq<(Opt, ValView)>, o: Outcome<PrecisionSweepArgs>) -> bool {
    o matches Outcome::Run(a) && precision_sweep_args(ev, a)
}

/// Reads the arguments of `precision-sweep`.
pub fn parse_precision_sweep(args: &Vec<String>) -> (r: Parsed<PrecisionSweepArgs>)
    ensures
        parsed_by(
            texts(args@),
            PRECISION_SWEEP@,
            r,
            |ev: Seq<(Opt, ValView)>, o: Outcome<PrecisionSweepArgs>| precision_sweep_run(ev, o),
        ),
{
    let (ev, end) = scan_args(args, PRECISION_SWEEP.as_slice());
    let deferred = deferred_texts(&ev);
    let outcome = match end {
        End::Help => Outcome::Help,
        End::Failed(e) => Outcome::Failed(e),
        End::Finished => Outcome::Run(
            PrecisionSweepArgs {
                n_ffts: get_counts_given(&ev, Opt::NFft),
                batch: get_count(&ev, Opt::Batch, 16),
                max_iters: get_count(&ev, Opt::MaxIters, 3),
                seed: get_seed(&ev, Opt::Seed, 7),
                json: get_text_given(&ev, Opt::Json),
            },
        ),
    };
    Parsed { deferred, outcome }
}

/// The arguments of `train-matryoshka`.
#[derive(Debug)]
pub struct TrainMatryoshkaArgs {
    pub n_fft: usize,
    pub batch: usize,
    pub steps: usize,
    pub lr: Option<String>,
    pub log_every: usize,
    pub half_weight: Option<String>,
    pub perturb: Option<String>,
    pub seed: u64,
    pub json: Option<String>,
    pub html: Option<String>,
}

/// Whether arguments are those that were read.
pub open spec fn train_matryoshka_args(ev: Seq<(Opt, ValView)>, a: TrainMatryoshkaArgs) -> bool {
    &&& a.n_fft == count_or(ev, Opt::NFft, 256)
    &&& a.batch == count_or(ev, Opt::Batch, 16)
    &&& a.steps == count_or(ev, Opt::Steps, 400)
    &&& note_view(a.lr) == text_given(ev, Opt::Lr)
    &&& a.log_every == count_or(ev, Opt::LogEvery, 20)
    &&& note_view(a.half_weight) == text_given(ev, Opt::HalfWeight)
    &&& note_view(a.perturb) == text_given(ev, Opt::Perturb)
    &&& a.seed == seed_or(ev, Opt::Seed, 42)
    &&& note_view(a.json) == text_given(ev, Opt::Json)
    &&& note_view(a.html) == text_given(ev, Opt::Html)
}

pub open spec fn train_matryoshka_run(ev: Seq<(Opt, ValView)>, o: Outcome<TrainMatryoshkaArgs>) -> bool {
    o matches Outcome::Run(a) && train_matryoshka_args(ev, a)
}

/// Reads the arguments of `train-matryoshka`.
pub fn parse_train_matryoshka(args: &Vec<String>) -> (r: Parsed<TrainMatryoshkaArgs>)
    ensures
        parsed_by(
            texts(args@),
            TRAIN_MATRYOSHKA@,
            r,
            |ev: Seq<(Opt, ValView)>, o: Outcome<TrainMatryoshkaArgs>| train_matryoshka_run(ev, o),
        ),
{
    let (ev, end) = scan_args(args, TRAIN_MATRYOSHKA.as_slice());
    let deferred = deferred_texts(&ev);
    let outcome = match end {
        End::Help => Outcome::Help,
        End::Failed(e) => Outcome::Failed(e),
        End::Finished => Outcome::Run(
            TrainMatryoshkaArgs {
                n_fft: get_count(&ev, Opt::NFft, 256),
                batch: get_count(&ev, Opt::Batch, 16),
                steps: get_count(&ev, Opt::Steps, 400),
                lr: get_text_given(&ev, Opt::Lr),
                log_every: get_count(&ev, Opt::LogEvery, 20),
                half_weight: get_text_given(&ev, Opt::HalfWeight),
                perturb: get_text_given(&ev, Opt::Perturb),
                seed: get_seed(&ev, Opt::Seed, 42),
                json: get_text_given(&ev, Opt::Json),
                html: get_text_given(&ev, Opt::Html),
            },
        ),
    };
    Parsed { deferred, outcome }
}

/// The arguments of `train`.
#[derive(Debug)]
pub struct TrainArgs {
    pub n_fft: usize,
    pub batch: usize,
    pub steps: usize,
    pub lr: Option<String>,
    pub seed: u64,
    pub log_every: usize,
    pub device: String,
    pub direction: TransformDir,
    pub out: Option<String>,
}

/// Whether arguments are those that were read.
pub open spec fn train_args(ev: Seq<(Opt, ValView)>, a: TrainArgs) -> bool {
    &&& a.n_fft == count_or(ev, Opt::NFft, 64)
    &&& a.batch == count_or(ev, Opt::Batch, 8)
    &&& a.steps == count_or(ev, Opt::Steps, 500)
    &&& note_view(a.lr) == text_given(ev, Opt::Lr)
    &&& a.seed == seed_or(ev, Opt::Seed, 42)
    &&& a.log_every == count_or(ev, Opt::LogEvery, 50)
    &&& a.device@ == text_or(ev, Opt::Device, "cpu"@)
    &&& a.direction == dir_or(ev, Opt::Direction, TransformDir::Forward)
    &&& note_view(a.out) == text_given(ev, Opt::Out)
}

pub open spec fn train_run(ev: Seq<(Opt, ValView)>, o: Outcome<TrainArgs>) -> bool {
    o matches Outcome::Run(a) && train_args(ev, a)
}

/// Reads the arguments of `train`.
pub fn parse_train(args: &Vec<String>) -> (r: Parsed<TrainArgs>)
    ensures
        parsed_by(
            texts(args@),
            TRAIN@,
            r,
            |ev: Seq<(Opt, ValView)>, o: Outcome<TrainArgs>| train_run(ev, o),
        ),
{
    let (ev, end) = scan_args(args, TRAIN.as_slice());
    let deferred = deferred_texts(&ev);
    let outcome = match end {
        End::Help => Outcome::Help,
        End::Failed(e) => Outcome::Failed(e),
        End::Finished => Outcome::Run(
            TrainArgs {
                n_fft: get_count(&ev, Opt::NFft, 64),
                batch: get_count(&ev, Opt::Batch, 8),
                steps: get_count(&ev, Opt::Steps, 500),
                lr: get_text_given(&ev, Opt::Lr),
                seed: get_seed(&ev, Opt::Seed, 42),
                log_every: get_count(&ev, Opt::LogEvery, 50),
                device: get_text(&ev, Opt::Device, "cpu"),
                direction: get_dir(&ev, Opt::Direction, TransformDir::Forward),
                out: get_text_given(&ev, Opt::Out),
            },
        ),
    };
    Parsed { deferred, outcome }
}

/// The arguments of `eval`.
#[derive(Debug)]
pub struct EvalArgs {
    pub weights: Option<String>,
    pub n_fft: usize,
    pub batch: usize,
    pub batches: usize,
    pub direction: TransformDir,
}

/// Whether arguments are those that were read.
pub open spec fn eval_args(ev: Seq<(Opt, ValView)>, a: EvalArgs) -> bool {
    &&& note_view(a.weights) == text_given(ev, Opt::Weights)
    &&& a.n_fft == count_or(ev, Opt::NFft, 64)
    &&& a.batch == count_or(ev, Opt::Batch, 8)
    &&& a.batches == count_or(ev, Opt::Batches, 32)
    &&& a.direction == dir_or(ev, Opt::Direction, TransformDir::Forward)
}

pub open spec fn eval_run(ev: Seq<(Opt, ValView)>, o: Outcome<EvalArgs>) -> bool {
    o matches Outcome::Run(a) && eval_args(ev, a)
}

/// Reads the arguments of `eval`.
pub fn parse_eval(args: &Vec<String>) -> (r: Parsed<EvalArgs>)
    ensures
        parsed_by(
            texts(args@),
            EVAL@,
            r,
            |ev: Seq<(Opt, ValView)>, o: Outcome<EvalArgs>| eval_run(ev, o),
        ),
{
    let (ev, end) = scan_args(args, EVAL.as_slice());
    let deferred = deferred_texts(&ev);
    let outcome = match end {
        End::Help => Outcome::Help,
        End::Failed(e) => Outcome::Failed(e),
        End::Finished => Outcome::Run(
            EvalArgs {
                weights: get_text_given(&ev, Opt::Weights),
                n_fft: get_count(&ev, Opt::NFft, 64),
                batch: get_count(&ev, Opt::Batch, 8),
                batches: get_count(&ev, Opt::Batches, 32),
                direction: get_dir(&ev, Opt::Direction, TransformDir::Forward),
            },
        ),
    };
    Parsed { deferred, outcome }
}

/// The arguments of `bench`.
#[derive(Debug)]
pub struct BenchArgs {
    pub n_fft: usize,
    pub batch: usize,
    pub iters: usize,
    pub device: String,
    pub with_butterfly_compiled: bool,
    pub weights: Option<String>,
    pub direction: TransformDir,
}

/// Whether arguments are those that were read.
pub open spec fn bench_args(ev: Seq<(Opt, ValView)>, a: BenchArgs) -> bool {
    &&& a.n_fft == count_or(ev, Opt::NFft, 256)
    &&& a.batch == count_or(ev, Opt::Batch, 32)
    &&& a.iters == count_or(ev, Opt::Iters, 200)
    &&& a.device@ == text_or(ev, Opt::Device, "auto"@)
    &&& a.with_butterfly_compiled == flag_or(ev, Opt::WithCompiled, false)
    &&& note_view(a.weights) == text_given(ev, Opt::Weights)
    &&& a.direction == dir_or(ev, Opt::Direction, TransformDir::Forward)
}

pub open spec fn bench_run(ev: Seq<(Opt, ValView)>, o: Outcome<BenchArgs>) -> bool {
    o matches Outcome::Run(a) && bench_args(ev, a)
}

/// Reads the arguments of `bench`.
pub fn parse_bench(args: &Vec<String>) -> (r: Parsed<BenchArgs>)
    ensures
        parsed_by(
            texts(args@),
            BENCH@,
            r,
            |ev: Seq<(Opt, ValView)>, o: Outcome<BenchArgs>| bench_run(ev, o),
        ),
{
    let (ev, end) = scan_args(args, BENCH.as_slice());
    let deferred = deferred_texts(&ev);
    let outcome = match end {
        End::Help => Outcome::Help,
        End::Failed(e) => Outcome::Failed(e),
        End::Finished => Outcome::Run(
            BenchArgs {
                n_fft: get_count(&ev, Opt::NFft, 256),
                batch: get_count(&ev, Opt::Batch, 32),
                iters: get_count(&ev, Opt::Iters, 200),
                device: get_text(&ev, Opt::Device, "auto"),
                with_butterfly_compiled: get_flag(&ev, Opt::WithCompiled, false),
                weights: get_text_given(&ev, Opt::Weights),
                direction: get_dir(&ev, Opt::Direction, TransformDir::Forward),
            },
        ),
    };
    Parsed { deferred, outcome }
}

/// The arguments of `compare`.
#[derive(Debug)]
pub struct CompareArgs {
    pub n_fft: usize,
    pub batch: usize,
    pub weights: Option<String>,
    pub device: String,
    pub compile: bool,
    pub direction: TransformDir,
}

/// Whether arguments are those that were read.
pub open spec fn compare_args(ev: Seq<(Opt, ValView)>, a: CompareArgs) -> bool {
    &&& a.n_fft == count_or(ev, Opt::NFft, 64)
    &&& a.batch == count_or(ev, Opt::Batch, 4)
    &&& note_view(a.weights) == text_given(ev, Opt::Weights)
    &&& a.device@ == text_or(ev, Opt::Device, "cpu"@)
    &&& a.compile == flag_or(ev, Opt::Compile, false)
    &&& a.direction == dir_or(ev, Opt::Direction, TransformDir::Forward)
}

pub open spec fn compare_run(ev: Seq<(Opt, ValView)>, o: Outcome<CompareArgs>) -> bool {
    o matches Outcome::Run(a) && compare_args(ev, a)
}

/// Reads the arguments of `compare`.
pub fn parse_compare(args: &Vec<String>) -> (r: Parsed<CompareArgs>)
    ensures
        parsed_by(
            texts(args@),
            COMPARE@,
            r,
            |ev: Seq<(Opt, ValView)>, o: Outcome<CompareArgs>| compare_run(ev, o),
        ),
{
    let (ev, end) = scan_args(args, COMPARE.as_slice());
    let deferred = deferred_texts(&ev);
    let outcome = match end {
        End::Help => Outcome::Help,
        End::Failed(e) => Outcome::Failed(e),
        End::Finished => Outcome::Run(
            CompareArgs {
                n_fft: get_count(&ev, Opt::NFft, 64),
                batch: get_count(&ev, Opt::Batch, 4),
                weights: get_text_given(&ev, Opt::Weights),
                device: get_text(&ev, Opt::Device, "cpu"),
                compile: get_flag(&ev, Opt::Compile, false),
                direction: get_dir(&ev, Opt::Direction, TransformDir::Forward),
            },
        ),
    };
    Parsed { deferred, outcome }
}

/// The arguments of `train-encdec`.
#[derive(Debug)]
pub struct TrainEncdecArgs {
    pub n_fft: usize,
    pub batch: usize,
    pub steps: usize,
    pub lr: Option<String>,
    pub seed: u64,
    pub log_every: usize,
    pub device: String,
    pub spectrum_weight: Option<String>,
    pub out: Option<String>,
}

/// Whether arguments are those that were read.
pub open spec fn train_encdec_args(ev: Seq<(Opt, ValView)>, a: TrainEncdecArgs) -> bool {
    &&& a.n_fft == count_or(ev, Opt::NFft, 64)
    &&& a.batch == count_or(ev, Opt::Batch, 8)
    &&& a.steps == count_or(ev, Opt::Steps, 500)
    &&& note_view(a.lr) == text_given(ev, Opt::Lr)
    &&& a.seed == seed_or(ev, Opt::Seed, 42)
    &&& a.log_every == count_or(ev, Opt::LogEvery, 50)
    &&& a.device@ == text_or(ev, Opt::Device, "auto"@)
    &&& note_view(a.spectrum_weight) == text_given(ev, Opt::SpectrumWeight)
    &&& note_view(a.out) == text_given(ev, Opt::Out)
}

pub open spec fn train_encdec_run(ev: Seq<(Opt, ValView)>, o: Outcome<TrainEncdecArgs>) -> bool {
    o matches Outcome::Run(a) && train_encdec_args(ev, a)
}

/// Reads the arguments of `train-encdec`.
pub fn parse_train_encdec(args: &Vec<String>) -> (r: Parsed<TrainEncdecArgs>)
    ensures
        parsed_by(
            texts(args@),
            TRAIN_ENCDEC@,
            r,
            |ev: Seq<(Opt, ValView)>, o: Outcome<TrainEncdecArgs>| train_encdec_run(ev, o),
        ),
{
    let (ev, end) = scan_args(args, TRAIN_ENCDEC.as_slice());
    let deferred = deferred_texts(&ev);
    let outcome = match end {
        End::Help => Outcome::Help,
        End::Failed(e) => Outcome::Failed(e),
        End::Finished => Outcome::Run(
            TrainEncdecArgs {
                n_fft: get_count(&ev, Opt::NFft, 64),
                batch: get_count(&ev, Opt::Batch, 8),
                steps: get_count(&ev, Opt::Steps, 500),
                lr: get_text_given(&ev, Opt::Lr),
                seed: get_seed(&ev, Opt::Seed, 42),
                log_every: get_count(&ev, Opt::LogEvery, 50),
                device: get_text(&ev, Opt::Device, "auto"),
                spectrum_weight: get_text_given(&ev, Opt::SpectrumWeight),
                out: get_text_given(&ev, Opt::Out),
            },
        ),
    };
    Parsed { deferred, outcome }
}

/// The arguments of `roundtrip`.
#[derive(Debug)]
pub struct RoundtripArgs {
    pub n_fft: usize,
    pub batch: usize,
}

/// Whether arguments are those that were read.
pub open spec fn roundtrip_args(ev: Seq<(Opt, ValView)>, a: RoundtripArgs) -> bool {
    &&& a.n_fft == count_or(ev, Opt::NFft, 64)
    &&& a.batch == count_or(ev, Opt::Batch, 4)
}

pub open spec fn roundtrip_run(ev: Seq<(Opt, ValView)>, o: Outcome<RoundtripArgs>) -> bool {
    o matches Outcome::Run(a) && roundtrip_args(ev, a)
}

/// Reads the arguments of `roundtrip`.
pub fn parse_roundtrip(args: &Vec<String>) -> (r: Parsed<RoundtripArgs>)
    ensures
        parsed_by(
            texts(args@),
            ROUNDTRIP@,
            r,
            |ev: Seq<(Opt, ValView)>, o: Outcome<RoundtripArgs>| roundtrip_run(ev, o),
        ),
{
    let (ev, end) = scan_args(args, ROUNDTRIP.as_slice());
    let deferred = deferred_texts(&ev);
    let outcome = match end {
        End::Help => Outcome::Help,
        End::Failed(e) => Outcome::Failed(e),
        End::Finished => Outcome::Run(
            RoundtripArgs {
                n_fft: get_count(&ev, Opt::NFft, 64),
                batch: get_count(&ev, Opt::Batch, 4),
            },
        ),
    };
    Parsed { deferred, outcome }
}

/// The arguments of `train-phased`.
#[derive(Debug)]
pub struct TrainPhasedArgs {
    pub n_fft: usize,
    pub batch: usize,
    pub encoder_steps: usize,
    pub decoder_steps: usize,
    pub joint_steps: usize,
    pub lr: Option<String>,
    pub spectrum_weight: Option<String>,
    pub seed: u64,
    pub log_every: usize,
    pub out: Option<String>,
}

/// Whether arguments are those that were read.
pub open spec fn train_phased_args(ev: Seq<(Opt, ValView)>, a: TrainPhasedArgs) -> bool {
    &&& a.n_fft == count_or(ev, Opt::NFft, 64)
    &&& a.batch == count_or(ev, Opt::Batch, 8)
    &&& a.encoder_steps == count_or(ev, Opt::EncoderSteps, 300)
    &&& a.decoder_steps == count_or(ev, Opt::DecoderSteps, 300)
    &&& a.joint_steps == count_or(ev, Opt::JointSteps, 300)
    &&& note_view(a.lr) == text_given(ev, Opt::Lr)
    &&& note_view(a.spectrum_weight) == text_given(ev, Opt::SpectrumWeight)
    &&& a.seed == seed_or(ev, Opt::Seed, 42)
    &&& a.log_every == count_or(ev, Opt::LogEvery, 50)
    &&& note_view(a.out) == text_given(ev, Opt::Out)
}

pub open spec fn train_phased_run(ev: Seq<(Opt, ValView)>, o: Outcome<TrainPhasedArgs>) -> bool {
    o matches Outcome::Run(a) && train_phased_args(ev, a)
}

/// Reads the arguments of `train-phased`.
pub fn parse_train_phased(args: &Vec<String>) -> (r: Parsed<TrainPhasedArgs>)
    ensures
        parsed_by(
            texts(args@),
            TRAIN_PHASED@,
            r,
            |ev: Seq<(Opt, ValView)>, o: Outcome<TrainPhasedArgs>| train_phased_run(ev, o),
        ),
{
    let (ev, end) = scan_args(args, TRAIN_PHASED.as_slice());
    let deferred = deferred_texts(&ev);
    let outcome = match end {
        End::Help => Outcome::Help,
        End::Failed(e) => Outcome::Failed(e),
        End::Finished => Outcome::Run(
            TrainPhasedArgs {
                n_fft: get_count(&ev, Opt::NFft, 64),
                batch: get_count(&ev, Opt::Batch, 8),
                encoder_steps: get_count(&ev, Opt::EncoderSteps, 300),
                decoder_steps: get_count(&ev, Opt::DecoderSteps, 300),
                joint_steps: get_count(&ev, Opt::JointSteps, 300),
                lr: get_text_given(&ev, Opt::Lr),
                spectrum_weight: get_text_given(&ev, Opt::SpectrumWeight),
                seed: get_seed(&ev, Opt::Seed, 42),
                log_every: get_count(&ev, Opt::LogEvery, 50),
                out: get_text_given(&ev, Opt::Out),
            },
        ),
    };
    Parsed { deferred, outcome }
}

/// The arguments of `train-multi`.
#[derive(Debug)]
pub struct TrainMultiArgs {
    pub n_fft: String,
    pub batch: usize,
    pub steps: usize,
    pub min_steps: usize,
    pub until_converged: bool,
    pub converge_every: usize,
    pub converge_patience: usize,
    pub converge_delta: Option<String>,
    pub schedules: String,
    pub lr: Option<String>,
    pub spectrum_weight: Option<String>,
    pub seed: u64,
    pub log_every: usize,
    pub eval_batches: usize,
    pub out: Option<String>,
    pub json: Option<String>,
    pub html: Option<String>,
    pub optimizer: String,
    pub grad_clip: Option<String>,
    pub project_twiddles: bool,
    pub use_fused_train: bool,
}

/// Whether arguments are those that were read.
pub open spec fn train_multi_args(ev: Seq<(Opt, ValView)>, a: TrainMultiArgs) -> bool {
    &&& a.n_fft@ == text_or(ev, Opt::NFft, "64,128,256"@)
    &&& a.batch == count_or(ev, Opt::Batch, 8)
    &&& a.steps == count_or(ev, Opt::Steps, 10000)
    &&& a.min_steps == count_or(ev, Opt::MinSteps, 300)
    &&& a.until_converged == flag_or(ev, Opt::UntilConverged, true)
    &&& a.converge_every == count_or(ev, Opt::ConvergeEvery, 25)
    &&& a.converge_patience == count_or(ev, Opt::ConvergePatience, 5)
    &&& note_view(a.converge_delta) == text_given(ev, Opt::ConvergeDelta)
    &&& a.schedules@ == text_or(ev, Opt::Schedules, "single,round_robin,random,balanced"@)
    &&& note_view(a.lr) == text_given(ev, Opt::Lr)
    &&& note_view(a.spectrum_weight) == text_given(ev, Opt::SpectrumWeight)
    &&& a.seed == seed_or(ev, Opt::Seed, 42)
    &&& a.log_every == count_or(ev, Opt::LogEvery, 50)
    &&& a.eval_batches == count_or(ev, Opt::EvalBatches, 8)
    &&& note_view(a.out) == text_given(ev, Opt::Out)
    &&& note_view(a.json) == text_given(ev, Opt::Json)
    &&& note_view(a.html) == text_given(ev, Opt::Html)
    &&& a.optimizer@ == text_or(ev, Opt::Optimizer, "sgd"@)
    &&& note_view(a.grad_clip) == text_given(ev, Opt::GradClip)
    &&& a.project_twiddles == flag_or(ev, Opt::ProjectTwiddles, true)
    &&& a.use_fused_train == flag_or(ev, Opt::UseFusedTrain, true)
}

pub open spec fn train_multi_run(ev: Seq<(Opt, ValView)>, o: Outcome<TrainMultiArgs>) -> bool {
    o matches Outcome::Run(a) && train_multi_args(ev, a)
}

/// Reads the arguments of `train-multi`.
pub fn parse_train_multi(args: &Vec<String>) -> (r: Parsed<TrainMultiArgs>)
    ensures
        parsed_by(
            texts(args@),
            TRAIN_MULTI@,
            r,
            |ev: Seq<(Opt, ValView)>, o: Outcome<TrainMultiArgs>| train_multi_run(ev, o),
        ),
{
    let (ev, end) = scan_args(args, TRAIN_MULTI.as_slice());
    let deferred = deferred_texts(&ev);
    let outcome = match end {
        End::Help => Outcome::Help,
        End::Failed(e) => Outcome::Failed(e),
        End::Finished => Outcome::Run(
            TrainMultiArgs {
                n_fft: get_text(&ev, Opt::NFft, "64,128,256"),
                batch: get_count(&ev, Opt::Batch, 8),
                steps: get_count(&ev, Opt::Steps, 10000),
                min_steps: get_count(&ev, Opt::MinSteps, 300),
                until_converged: get_flag(&ev, Opt::UntilConverged, true),
                converge_every: get_count(&ev, Opt::ConvergeEvery, 25),
                converge_patience: get_count(&ev, Opt::ConvergePatience, 5),
                converge_delta: get_text_given(&ev, Opt::ConvergeDelta),
                schedules: get_text(&ev, Opt::Schedules, "single,round_robin,random,balanced"),
                lr: get_text_given(&ev, Opt::Lr),
                spectrum_weight: get_text_given(&ev, Opt::SpectrumWeight),
                seed: get_seed(&ev, Opt::Seed, 42),
                log_every: get_count(&ev, Opt::LogEvery, 50),
                eval_batches: get_count(&ev, Opt::EvalBatches, 8),
                out: get_text_given(&ev, Opt::Out),
                json: get_text_given(&ev, Opt::Json),
                html: get_text_given(&ev, Opt::Html),
                optimizer: get_text(&ev, Opt::Optimizer, "sgd"),
                grad_clip: get_text_given(&ev, Opt::GradClip),
                project_twiddles: get_flag(&ev, Opt::ProjectTwiddles, true),
                use_fused_train: get_flag(&ev, Opt::UseFusedTrain, true),
            },
        ),
    };
    Parsed { deferred, outcome }
}

/// The arguments of `bench-phased`.
#[derive(Debug)]
pub struct BenchPhasedArgs {
    pub dir: Option<String>,
    pub n_fft: usize,
    pub batch: usize,
    pub iters: usize,
    pub device: String,
    pub with_compiled: bool,
    pub json: Option<String>,
}

/// Whether arguments are those that were read.
pub open spec fn bench_phased_args(ev: Seq<(Opt, ValView)>, a: BenchPhasedArgs) -> bool {
    &&& note_view(a.dir) == text_given(ev, Opt::Dir)
    &&& a.n_fft == count_or(ev, Opt::NFft, 64)
    &&& a.batch == count_or(ev, Opt::Batch, 8)
    &&& a.iters == count_or(ev, Opt::Iters, 100)
    &&& a.device@ == text_or(ev, Opt::Device, "auto"@)
    &&& a.with_compiled == flag_or(ev, Opt::WithCompiled, false)
    &&& note_view(a.json) == text_given(ev, Opt::Json)
}

pub open spec fn bench_phased_run(ev: Seq<(Opt, ValView)>, o: Outcome<BenchPhasedArgs>) -> bool {
    o matches Outcome::Run(a) && bench_phased_args(ev, a)
}

/// Reads the arguments of `bench-phased`.
pub fn parse_bench_phased(args: &Vec<String>) -> (r: Parsed<BenchPhasedArgs>)
    ensures
        parsed_by(
            texts(args@),
            BENCH_PHASED@,
            r,
            |ev: Seq<(Opt, ValView)>, o: Outcome<BenchPhasedArgs>| bench_phased_run(ev, o),
        ),
{
    let (ev, end) = scan_args(args, BENCH_PHASED.as_slice());
    let deferred = deferred_texts(&ev);
    let outcome = match end {
        End::Help => Outcome::Help,
        End::Failed(e) => Outcome::Failed(e),
        End::Finished => Outcome::Run(
            BenchPhasedArgs {
                dir: get_text_given(&ev, Opt::Dir),
                n_fft: get_count(&ev, Opt::NFft, 64),
                batch: get_count(&ev, Opt::Batch, 8),
                iters: get_count(&ev, Opt::Iters, 100),
                device: get_text(&ev, Opt::Device, "auto"),
                with_compiled: get_flag(&ev, Opt::WithCompiled, false),
                json: get_text_given(&ev, Opt::Json),
            },
        ),
    };
    Parsed { deferred, outcome }
}

/// The arguments of `bench-sweep`.
#[derive(Debug)]
pub struct BenchSweepArgs {
    pub n_fft: Option<String>,
    pub batch: String,
    pub devices: Option<String>,
    pub iters: usize,
    pub both_dirs: bool,
    pub sweep_all: bool,
    pub with_butterfly_compiled: bool,
    pub weights: Option<String>,
    pub json: Option<String>,
    pub md: Option<String>,
    pub html: Option<String>,
}

/// Whether arguments are those that were read.
pub open spec fn bench_sweep_args(ev: Seq<(Opt, ValView)>, a: BenchSweepArgs) -> bool {
    &&& note_view(a.n_fft) == text_given(ev, Opt::NFft)
    &&& a.batch@ == text_or(ev, Opt::Batch, "1,8,32,64,128,256,512,1024,2048,4096"@)
    &&& note_view(a.devices) == text_given(ev, Opt::Devices)
    &&& a.iters == count_or(ev, Opt::Iters, 30)
    &&& a.both_dirs == flag_or(ev, Opt::BothDirs, false)
    &&& a.sweep_all == flag_or(ev, Opt::All, false)
    &&& a.with_butterfly_compiled == flag_or(ev, Opt::WithCompiled, false)
    &&& note_view(a.weights) == text_given(ev, Opt::Weights)
    &&& note_view(a.json) == text_given(ev, Opt::Json)
    &&& note_view(a.md) == text_given(ev, Opt::Md)
    &&& note_view(a.html) == text_given(ev, Opt::Html)
}

pub open spec fn bench_sweep_run(ev: Seq<(Opt, ValView)>, o: Outcome<BenchSweepArgs>) -> bool {
    o matches Outcome::Run(a) && bench_sweep_args(ev, a)
}

/// Reads the arguments of `bench-sweep`.
pub fn parse_bench_sweep(args: &Vec<String>) -> (r: Parsed<BenchSweepArgs>)
    ensures
        parsed_by(
            texts(args@),
            BENCH_SWEEP@,
            r,
            |ev: Seq<(Opt, ValView)>, o: Outcome<BenchSweepArgs>| bench_sweep_run(ev, o),
        ),
{
    let (ev, end) = scan_args(args, BENCH_SWEEP.as_slice());
    let deferred = deferred_texts(&ev);
    let outcome = match end {
        End::Help => Outcome::Help,
        End::Failed(e) => Outcome::Failed(e),
        End::Finished => Outcome::Run(
            BenchSweepArgs {
                n_fft: get_text_given(&ev, Opt::NFft),
                batch: get_text(&ev, Opt::Batch, "1,8,32,64,128,256,512,1024,2048,4096"),
                devices: get_text_given(&ev, Opt::Devices),
                iters: get_count(&ev, Opt::Iters, 30),
                both_dirs: get_flag(&ev, Opt::BothDirs, false),
                sweep_all: get_flag(&ev, Opt::All, false),
                with_butterfly_compiled: get_flag(&ev, Opt::WithCompiled, false),
                weights: get_text_given(&ev, Opt::Weights),
                json: get_text_given(&ev, Opt::Json),
                md: get_text_given(&ev, Opt::Md),
                html: get_text_given(&ev, Opt::Html),
            },
        ),
    };
    Parsed { deferred, outcome }
}

/// The arguments of `max-batch`.
#[derive(Debug)]
pub struct MaxBatchArgs {
    pub n_fft: usize,
    pub devices: Option<String>,
    pub elem_bytes: usize,
    pub limbs: usize,
}

/// Whether arguments are those that were read.
pub open spec fn max_batch_args(ev: Seq<(Opt, ValView)>, a: MaxBatchArgs) -> bool {
    &&& a.n_fft == count_or(ev, Opt::NFft, 256)
    &&& note_view(a.devices) == text_given(ev, Opt::Devices)
    &&& a.elem_bytes == count_or(ev, Opt::Dtype, 4)
    &&& a.limbs == count_or(ev, Opt::Limbs, 1)
}

pub open spec fn max_batch_run(ev: Seq<(Opt, ValView)>, o: Outcome<MaxBatchArgs>) -> bool {
    o matches Outcome::Run(a) && max_batch_args(ev, a)
}

/// Reads the arguments of `max-batch`.
pub fn parse_max_batch(args: &Vec<String>) -> (r: Parsed<MaxBatchArgs>)
    ensures
        parsed_by(
            texts(args@),
            MAX_BATCH@,
            r,
            |ev: Seq<(Opt, ValView)>, o: Outcome<MaxBatchArgs>| max_batch_run(ev, o),
        ),
{
    let (ev, end) = scan_args(args, MAX_BATCH.as_slice());
    let deferred = deferred_texts(&ev);
    let outcome = match end {
        End::Help => Outcome::Help,
        End::Failed(e) => Outcome::Failed(e),
        End::Finished => Outcome::Run(
            MaxBatchArgs {
                n_fft: get_count(&ev, Opt::NFft, 256),
                devices: get_text_given(&ev, Opt::Devices),
                elem_bytes: get_count(&ev, Opt::Dtype, 4),
                limbs: get_count(&ev, Opt::Limbs, 1),
            },
        ),
    };
    Parsed { deferred, outcome }
}

/// The arguments of `report-html`.
#[derive(Debug)]
pub struct ReportHtmlArgs {
    pub json: Option<String>,
    pub html: Option<String>,
}

/// Whether arguments are those that were read.
pub open spec fn report_html_args(ev: Seq<(Opt, ValView)>, a: ReportHtmlArgs) -> bool {
    &&& note_view(a.json) == text_given(ev, Opt::Json)
    &&& note_view(a.html) == text_given(ev, Opt::Html)
}

pub open spec fn report_html_run(ev: Seq<(Opt, ValView)>, o: Outcome<ReportHtmlArgs>) -> bool {
    o matches Outcome::Run(a) && report_html_args(ev, a)
}

/// Reads the arguments of `report-html`.
pub fn parse_report_html(args: &Vec<String>) -> (r: Parsed<ReportHtmlArgs>)
    ensures
        parsed_by(
            texts(args@),
            REPORT_HTML@,
            r,
            |ev: Seq<(Opt, ValView)>, o: Outcome<ReportHtmlArgs>| report_html_run(ev, o),
        ),
{
    let (ev, end) = scan_args(args, REPORT_HTML.as_slice());
    let deferred = deferred_texts(&ev);
    let outcome = match end {
        End::Help => Outcome::Help,
        End::Failed(e) => Outcome::Failed(e),
        End::Finished => Outcome::Run(
            ReportHtmlArgs {
                json: get_text_given(&ev, Opt::Json),
                html: get_text_given(&ev, Opt::Html),
            },
        ),
    };
    Parsed { deferred, outcome }
}

/// The arguments of `study-report`.
#[derive(Debug)]
pub struct StudyReportArgs {
    pub ablation_json: Option<String>,
    pub ablation_csv_dir: Option<String>,
    pub ablation_csv_out: Option<String>,
    pub ablation_out: Option<String>,
    pub train_json: Option<String>,
    pub html: Option<String>,
    pub run_ablation: bool,
    pub limit_sweep: bool,
    pub run_model_studies: bool,
    pub model_study_n_fft: usize,
    pub model_study_steps: usize,
    pub n_fft: String,
    pub batch: String,
    pub devices: Option<String>,
    pub iters: usize,
    pub train_steps: usize,
    pub with_compiled: bool,
    pub both_dirs: bool,
    pub with_welch: bool,
}

/// Whether arguments are those that were read.
pub open spec fn study_report_args(ev: Seq<(Opt, ValView)>, a: StudyReportArgs) -> bool {
    &&& note_view(a.ablation_json) == text_given(ev, Opt::AblationJson)
    &&& note_view(a.ablation_csv_dir) == text_given(ev, Opt::AblationCsvDir)
    &&& note_view(a.ablation_csv_out) == text_given(ev, Opt::AblationCsvOut)
    &&& note_view(a.ablation_out) == text_given(ev, Opt::AblationOut)
    &&& note_view(a.train_json) == text_given(ev, Opt::TrainJson)
    &&& note_view(a.html) == text_given(ev, Opt::Html)
    &&& a.run_ablation == flag_or(ev, Opt::RunAblation, false)
    &&& a.limit_sweep == flag_or(ev, Opt::LimitSweep, false)
    &&& a.run_model_studies == flag_or(ev, Opt::ModelStudies, false)
    &&& a.model_study_n_fft == count_or(ev, Opt::ModelStudyNFft, 128)
    &&& a.model_study_steps == count_or(ev, Opt::ModelStudySteps, 120)
    &&& a.n_fft@ == text_or(ev, Opt::NFft, "64,128,256,512,1024,2048,4096,8192,16384,32768,65536,131072"@)
    &&& a.batch@ == text_or(ev, Opt::Batch, "1,8,32,64,128,256,512,1024,2048,4096"@)
    &&& note_view(a.devices) == text_given(ev, Opt::Devices)
    &&& a.iters == count_or(ev, Opt::Iters, 15)
    &&& a.train_steps == count_or(ev, Opt::TrainSteps, 30)
    &&& a.with_compiled == flag_or(ev, Opt::WithCompiled, true)
    &&& a.both_dirs == flag_or(ev, Opt::BothDirs, true)
    &&& a.with_welch == flag_or(ev, Opt::WithWelch, true)
}

pub open spec fn study_report_run(ev: Seq<(Opt, ValView)>, o: Outcome<StudyReportArgs>) -> bool {
    o matches Outcome::Run(a) && study_report_args(ev, a)
}

/// Reads the arguments of `study-report`.
pub fn parse_study_report(args: &Vec<String>) -> (r: Parsed<StudyReportArgs>)
    ensures
        parsed_by(
            texts(args@),
            STUDY_REPORT@,
            r,
            |ev: Seq<(Opt, ValView)>, o: Outcome<StudyReportArgs>| study_report_run(ev, o),
        ),
{
    let (ev, end) = scan_args(args, STUDY_REPORT.as_slice());
    let deferred = deferred_texts(&ev);
    let outcome = match end {
        End::Help => Outcome::Help,
        End::Failed(e) => Outcome::Failed(e),
        End::Finished => Outcome::Run(
            StudyReportArgs {
                ablation_json: get_text_given(&ev, Opt::AblationJson),
                ablation_csv_dir: get_text_given(&ev, Opt::AblationCsvDir),
                ablation_csv_out: get_text_given(&ev, Opt::AblationCsvOut),
                ablation_out: get_text_given(&ev, Opt::AblationOut),
                train_json: get_text_given(&ev, Opt::TrainJson),
                html: get_text_given(&ev, Opt::Html),
                run_ablation: get_flag(&ev, Opt::RunAblation, false),
                limit_sweep: get_flag(&ev, Opt::LimitSweep, false),
                run_model_studies: get_flag(&ev, Opt::ModelStudies, false),
                model_study_n_fft: get_count(&ev, Opt::ModelStudyNFft, 128),
                model_study_steps: get_count(&ev, Opt::ModelStudySteps, 120),
                n_fft: get_text(&ev, Opt::NFft, "64,128,256,512,1024,2048,4096,8192,16384,32768,65536,131072"),
                batch: get_text(&ev, Opt::Batch, "1,8,32,64,128,256,512,1024,2048,4096"),
                devices: get_text_given(&ev, Opt::Devices),
                iters: get_count(&ev, Opt::Iters, 15),
                train_steps: get_count(&ev, Opt::TrainSteps, 30),
                with_compiled: get_flag(&ev, Opt::WithCompiled, true),
                both_dirs: get_flag(&ev, Opt::BothDirs, true),
                with_welch: get_flag(&ev, Opt::WithWelch, true),
            },
        ),
    };
    Parsed { deferred, outcome }
}

/// The arguments of `ablation`.
#[derive(Debug)]
pub struct AblationArgs {
    pub n_fft: String,
    pub batch: String,
    pub devices: Option<String>,
    pub iters: usize,
    pub train_steps: usize,
    pub seed: u64,
    pub with_compiled: bool,
    pub both_dirs: bool,
    pub with_welch: bool,
    pub json: Option<String>,
    pub csv_dir: Option<String>,
    pub html: Option<String>,
}

/// Whether arguments are those that were read.
pub open spec fn ablation_args(ev: Seq<(Opt, ValView)>, a: AblationArgs) -> bool {
    &&& a.n_fft@ == text_or(ev, Opt::NFft, "256,1024,4096"@)
    &&& a.batch@ == text_or(ev, Opt::Batch, "8,64,256,512,1024,2048,4096"@)
    &&& note_view(a.devices) == text_given(ev, Opt::Devices)
    &&& a.iters == count_or(ev, Opt::Iters, 20)
    &&& a.train_steps == count_or(ev, Opt::TrainSteps, 40)
    &&& a.seed == seed_or(ev, Opt::Seed, 42)
    &&& a.with_compiled == flag_or(ev, Opt::WithCompiled, false)
    &&& a.both_dirs == flag_or(ev, Opt::BothDirs, true)
    &&& a.with_welch == flag_or(ev, Opt::WithWelch, true)
    &&& note_view(a.json) == text_given(ev, Opt::Json)
    &&& note_view(a.csv_dir) == text_given(ev, Opt::CsvDir)
    &&& note_view(a.html) == text_given(ev, Opt::Html)
}

pub open spec fn ablation_run(ev: Seq<(Opt, ValView)>, o: Outcome<AblationArgs>) -> bool {
    o matches Outcome::Run(a) && ablation_args(ev, a)
}

/// Reads the arguments of `ablation`.
pub fn parse_ablation(args: &Vec<String>) -> (r: Parsed<AblationArgs>)
    ensures
        parsed_by(
            texts(args@),
            ABLATION@,
            r,
            |ev: Seq<(Opt, ValView)>, o: Outcome<AblationArgs>| ablation_run(ev, o),
        ),
{
    let (ev, end) = scan_args(args, ABLATION.as_slice());
    let deferred = deferred_texts(&ev);
    let outcome = match end {
        End::Help => Outcome::Help,
        End::Failed(e) => Outcome::Failed(e),
        End::Finished => Outcome::Run(
            AblationArgs {
                n_fft: get_text(&ev, Opt::NFft, "256,1024,4096"),
                batch: get_text(&ev, Opt::Batch, "8,64,256,512,1024,2048,4096"),
                devices: get_text_given(&ev, Opt::Devices),
                iters: get_count(&ev, Opt::Iters, 20),
                train_steps: get_count(&ev, Opt::TrainSteps, 40),
                seed: get_seed(&ev, Opt::Seed, 42),
                with_compiled: get_flag(&ev, Opt::WithCompiled, false),
                both_dirs: get_flag(&ev, Opt::BothDirs, true),
                with_welch: get_flag(&ev, Opt::WithWelch, true),
                json: get_text_given(&ev, Opt::Json),
                csv_dir: get_text_given(&ev, Opt::CsvDir),
                html: get_text_given(&ev, Opt::Html),
            },
        ),
    };
    Parsed { deferred, outcome }
}

/// The arguments of `train-e2e`.
#[derive(Debug)]
pub struct TrainE2eArgs {
    pub n_fft: Option<usize>,
    pub batch: Option<usize>,
    pub n_mels: Option<usize>,
    pub steps: Option<usize>,
    pub lr: Option<String>,
    pub sparsity_weight: Option<String>,
    pub gate_lr: Option<String>,
    pub mel_weight: Option<String>,
    pub welch_weight: Option<String>,
    pub peak_weight: Option<String>,
    pub peak_k: Option<usize>,
    pub spectrum_weight: Option<String>,
    pub log_every: Option<usize>,
    pub train_q8: bool,
    pub seed: Option<u64>,
    pub json: Option<String>,
}

/// Whether arguments are those that were read.
pub open spec fn train_e2e_args(ev: Seq<(Opt, ValView)>, a: TrainE2eArgs) -> bool {
    &&& a.n_fft == count_given(ev, Opt::NFft)
    &&& a.batch == count_given(ev, Opt::Batch)
    &&& a.n_mels == count_given(ev, Opt::NMels)
    &&& a.steps == count_given(ev, Opt::Steps)
    &&& note_view(a.lr) == text_given(ev, Opt::Lr)
    &&& note_view(a.sparsity_weight) == text_given(ev, Opt::SparsityWeight)
    &&& note_view(a.gate_lr) == text_given(ev, Opt::GateLr)
    &&& note_view(a.mel_weight) == text_given(ev, Opt::MelWeight)
    &&& note_view(a.welch_weight) == text_given(ev, Opt::WelchWeight)
    &&& note_view(a.peak_weight) == text_given(ev, Opt::PeakWeight)
    &&& a.peak_k == count_given(ev, Opt::PeakK)
    &&& note_view(a.spectrum_weight) == text_given(ev, Opt::SpectrumWeight)
    &&& a.log_every == count_given(ev, Opt::LogEvery)
    &&& a.train_q8 == flag_or(ev, Opt::TrainQ8, true)
    &&& a.seed == seed_given(ev, Opt::Seed)
    &&& note_view(a.json) == text_given(ev, Opt::Json)
}

pub open spec fn train_e2e_run(ev: Seq<(Opt, ValView)>, o: Outcome<TrainE2eArgs>) -> bool {
    o matches Outcome::Run(a) && train_e2e_args(ev, a)
}

/// Reads the arguments of `train-e2e`.
pub fn parse_train_e2e(args: &Vec<String>) -> (r: Parsed<TrainE2eArgs>)
    ensures
        parsed_by(
            texts(args@),
            TRAIN_E2E@,
            r,
            |ev: Seq<(Opt, ValView)>, o: Outcome<TrainE2eArgs>| train_e2e_run(ev, o),
        ),
{
    let (ev, end) = scan_args(args, TRAIN_E2E.as_slice());
    let deferred = deferred_texts(&ev);
    let outcome = match end {
        End::Help => Outcome::Help,
        End::Failed(e) => Outcome::Failed(e),
        End::Finished => Outcome::Run(
            TrainE2eArgs {
                n_fft: get_count_given(&ev, Opt::NFft),
                batch: get_count_given(&ev, Opt::Batch),
                n_mels: get_count_given(&ev, Opt::NMels),
                steps: get_count_given(&ev, Opt::Steps),
                lr: get_text_given(&ev, Opt::Lr),
                sparsity_weight: get_text_given(&ev, Opt::SparsityWeight),
                gate_lr: get_text_given(&ev, Opt::GateLr),
                mel_weight: get_text_given(&ev, Opt::MelWeight),
                welch_weight: get_text_given(&ev, Opt::WelchWeight),
                peak_weight: get_text_given(&ev, Opt::PeakWeight),
                peak_k: get_count_given(&ev, Opt::PeakK),
                spectrum_weight: get_text_given(&ev, Opt::SpectrumWeight),
                log_every: get_count_given(&ev, Opt::LogEvery),
                train_q8: get_flag(&ev, Opt::TrainQ8, true),
                seed: get_seed_given(&ev, Opt::Seed),
                json: get_text_given(&ev, Opt::Json),
            },
        ),
    };
    Parsed { deferred, outcome }
}

/// The arguments of `train-distill`.
#[derive(Debug)]
pub struct TrainDistillArgs {
    pub n_fft: Option<usize>,
    pub batch: Option<usize>,
    pub n_mels: Option<usize>,
    pub steps: Option<usize>,
    pub lr: Option<String>,
    pub teacher_steps: Option<usize>,
    pub seed: Option<u64>,
    pub json: Option<String>,
}

/// Whether arguments are those that were read.
pub open spec fn train_distill_args(ev: Seq<(Opt, ValView)>, a: TrainDistillArgs) -> bool {
    &&& a.n_fft == count_given(ev, Opt::NFft)
    &&& a.batch == count_given(ev, Opt::Batch)
    &&& a.n_mels == count_given(ev, Opt::NMels)
    &&& a.steps == count_given(ev, Opt::Steps)
    &&& note_view(a.lr) == text_given(ev, Opt::Lr)
    &&& a.teacher_steps == count_given(ev, Opt::TeacherSteps)
    &&& a.seed == seed_given(ev, Opt::Seed)
    &&& note_view(a.json) == text_given(ev, Opt::Json)
}

pub open spec fn train_distill_run(ev: Seq<(Opt, ValView)>, o: Outcome<TrainDistillArgs>) -> bool {
    o matches Outcome::Run(a) && train_distill_args(ev, a)
}

/// Reads the arguments of `train-distill`.
pub fn parse_train_distill(args: &Vec<String>) -> (r: Parsed<TrainDistillArgs>)
    ensures
        parsed_by(
            texts(args@),
            TRAIN_DISTILL@,
            r,
            |ev: Seq<(Opt, ValView)>, o: Outcome<TrainDistillArgs>| train_distill_run(ev, o),
        ),
{
    let (ev, end) = scan_args(args, TRAIN_DISTILL.as_slice());
    let deferred = deferred_texts(&ev);
    let outcome = match end {
        End::Help => Outcome::Help,
        End::Failed(e) => Outcome::Failed(e),
        End::Finished => Outcome::Run(
            TrainDistillArgs {
                n_fft: get_count_given(&ev, Opt::NFft),
                batch: get_count_given(&ev, Opt::Batch),
                n_mels: get_count_given(&ev, Opt::NMels),
                steps: get_count_given(&ev, Opt::Steps),
                lr: get_text_given(&ev, Opt::Lr),
                teacher_steps: get_count_given(&ev, Opt::TeacherSteps),
                seed: get_seed_given(&ev, Opt::Seed),
                json: get_text_given(&ev, Opt::Json),
            },
        ),
    };
    Parsed { deferred, outcome }
}

/// The arguments of `train-distill-ternary`.
#[derive(Debug)]
pub struct TrainDistillTernaryArgs {
    pub n_fft: Option<usize>,
    pub batch: Option<usize>,
    pub n_mels: Option<usize>,
    pub steps: Option<usize>,
    pub lr: Option<String>,
    pub compute_weight: Option<String>,
    pub teacher_steps: Option<usize>,
    pub seed: Option<u64>,
    pub json: Option<String>,
}

/// Whether arguments are those that were read.
pub open spec fn train_distill_ternary_args(ev: Seq<(Opt, ValView)>, a: TrainDistillTernaryArgs) -> bool {
    &&& a.n_fft == count_given(ev, Opt::NFft)
    &&& a.batch == count_given(ev, Opt::Batch)
    &&& a.n_mels == count_given(ev, Opt::NMels)
    &&& a.steps == count_given(ev, Opt::Steps)
    &&& note_view(a.lr) == text_given(ev, Opt::Lr)
    &&& note_view(a.compute_weight) == text_given(ev, Opt::ComputeWeight)
    &&& a.teacher_steps == count_given(ev, Opt::TeacherSteps)
    &&& a.seed == seed_given(ev, Opt::Seed)
    &&& note_view(a.json) == text_given(ev, Opt::Json)
}

pub open spec fn train_distill_ternary_run(ev: Seq<(Opt, ValView)>, o: Outcome<TrainDistillTernaryArgs>) -> bool {
    o matches Outcome::Run(a) && train_distill_ternary_args(ev, a)
}

/// Reads the arguments of `train-distill-ternary`.
pub fn parse_train_distill_ternary(args: &Vec<String>) -> (r: Parsed<TrainDistillTernaryArgs>)
    ensures
        parsed_by(
            texts(args@),
            TRAIN_DISTILL_TERNARY@,
            r,
            |ev: Seq<(Opt, ValView)>, o: Outcome<TrainDistillTernaryArgs>| train_distill_ternary_run(ev, o),
        ),
{
    let (ev, end) = scan_args(args, TRAIN_DISTILL_TERNARY.as_slice());
    let deferred = deferred_texts(&ev);
    let outcome = match end {
        End::Help => Outcome::Help,
        End::Failed(e) => Outcome::Failed(e),
        End::Finished => Outcome::Run(
            TrainDistillTernaryArgs {
                n_fft: get_count_given(&ev, Opt::NFft),
                batch: get_count_given(&ev, Opt::Batch),
                n_mels: get_count_given(&ev, Opt::NMels),
                steps: get_count_given(&ev, Opt::Steps),
                lr: get_text_given(&ev, Opt::Lr),
                compute_weight: get_text_given(&ev, Opt::ComputeWeight),
                teacher_steps: get_count_given(&ev, Opt::TeacherSteps),
                seed: get_seed_given(&ev, Opt::Seed),
                json: get_text_given(&ev, Opt::Json),
            },
        ),
    };
    Parsed { deferred, outcome }
}

/// The arguments of `bench-e2e`.
#[derive(Debug)]
pub struct BenchE2eArgs {
    pub n_fft: usize,
    pub batch: String,
    pub n_mels: usize,
    pub peak_k: usize,
    pub iters: usize,
    pub device: String,
    pub train_first: bool,
    pub distill: Option<bool>,
    pub steps: usize,
    pub distill_steps: usize,
    pub compute_weight: Option<String>,
    pub target_compute_fraction: Option<String>,
    pub seed: u64,
    pub with_learned_hard: bool,
    pub with_learned_compiled: bool,
    pub with_learned_distilled: bool,
    pub with_learned_distilled_ternary: bool,
    pub with_eager_learned: bool,
    pub json: Option<String>,
    pub html: Option<String>,
}

/// Whether arguments are those that were read.
pub open spec fn bench_e2e_args(ev: Seq<(Opt, ValView)>, a: BenchE2eArgs) -> bool {
    &&& a.n_fft == count_or(ev, Opt::NFft, 256)
    &&& a.batch@ == text_or(ev, Opt::Batch, "8"@)
    &&& a.n_mels == count_or(ev, Opt::NMels, 40)
    &&& a.peak_k == count_or(ev, Opt::PeakK, DEFAULT_PEAK_K)
    &&& a.iters == count_or(ev, Opt::Iters, 20)
    &&& a.device@ == text_or(ev, Opt::Device, "all"@)
    &&& a.train_first == flag_or(ev, Opt::TrainFirst, false)
    &&& a.distill == flag_given(ev, Opt::Distill)
    &&& a.steps == count_or(ev, Opt::Steps, 2000)
    &&& a.distill_steps == count_or(ev, Opt::DistillSteps, 1200)
    &&& note_view(a.compute_weight) == text_given(ev, Opt::ComputeWeight)
    &&& note_view(a.target_compute_fraction) == text_given(ev, Opt::TargetComputeFraction)
    &&& a.seed == seed_or(ev, Opt::Seed, 42)
    &&& a.with_learned_hard == flag_or(ev, Opt::LearnedHard, true)
    &&& a.with_learned_compiled == flag_or(ev, Opt::LearnedCompiled, true)
    &&& a.with_learned_distilled == flag_or(ev, Opt::LearnedDistilled, true)
    &&& a.with_learned_distilled_ternary == flag_or(ev, Opt::LearnedTernary, true)
    &&& a.with_eager_learned == flag_or(ev, Opt::EagerLearned, false)
    &&& note_view(a.json) == text_given(ev, Opt::Json)
    &&& note_view(a.html) == text_given(ev, Opt::Html)
}

pub open spec fn bench_e2e_run(ev: Seq<(Opt, ValView)>, o: Outcome<BenchE2eArgs>) -> bool {
    o matches Outcome::Run(a) && bench_e2e_args(ev, a)
}

/// Reads the arguments of `bench-e2e`.
pub fn parse_bench_e2e(args: &Vec<String>) -> (r: Parsed<BenchE2eArgs>)
    ensures
        parsed_by(
            texts(args@),
            BENCH_E2E@,
            r,
            |ev: Seq<(Opt, ValView)>, o: Outcome<BenchE2eArgs>| bench_e2e_run(ev, o),
        ),
{
    let (ev, end) = scan_args(args, BENCH_E2E.as_slice());
    let deferred = deferred_texts(&ev);
    let outcome = match end {
        End::Help => Outcome::Help,
        End::Failed(e) => Outcome::Failed(e),
        End::Finished => Outcome::Run(
            BenchE2eArgs {
                n_fft: get_count(&ev, Opt::NFft, 256),
                batch: get_text(&ev, Opt::Batch, "8"),
                n_mels: get_count(&ev, Opt::NMels, 40),
                peak_k: get_count(&ev, Opt::PeakK, DEFAULT_PEAK_K),
                iters: get_count(&ev, Opt::Iters, 20),
                device: get_text(&ev, Opt::Device, "all"),
                train_first: get_flag(&ev, Opt::TrainFirst, false),
                distill: get_flag_given(&ev, Opt::Distill),
                steps: get_count(&ev, Opt::Steps, 2000),
                distill_steps: get_count(&ev, Opt::DistillSteps, 1200),
                compute_weight: get_text_given(&ev, Opt::ComputeWeight),
                target_compute_fraction: get_text_given(&ev, Opt::TargetComputeFraction),
                seed: get_seed(&ev, Opt::Seed, 42),
                with_learned_hard: get_flag(&ev, Opt::LearnedHard, true),
                with_learned_compiled: get_flag(&ev, Opt::LearnedCompiled, true),
                with_learned_distilled: get_flag(&ev, Opt::LearnedDistilled, true),
                with_learned_distilled_ternary: get_flag(&ev, Opt::LearnedTernary, true),
                with_eager_learned: get_flag(&ev, Opt::EagerLearned, false),
                json: get_text_given(&ev, Opt::Json),
                html: get_text_given(&ev, Opt::Html),
            },
        ),
    };
    Parsed { deferred, outcome }
}

/// The arguments of `bench-welch-peaks`.
#[derive(Debug)]
pub struct BenchWelchPeaksArgs {
    pub n_fft: usize,
    pub batch: String,
    pub k: String,
    pub device: String,
    pub strategy: Option<String>,
    pub iters: usize,
    pub train_steps: usize,
    pub seed: u64,
    pub with_compiled: bool,
    pub with_ultra_fast: bool,
    pub json: Option<String>,
}

/// Whether arguments are those that were read.
pub open spec fn bench_welch_peaks_args(ev: Seq<(Opt, ValView)>, a: BenchWelchPeaksArgs) -> bool {
    &&& a.n_fft == count_or(ev, Opt::NFft, 256)
    &&& a.batch@ == text_or(ev, Opt::Batch, "32"@)
    &&& a.k@ == text_or(ev, Opt::K, "16"@)
    &&& a.device@ == text_or(ev, Opt::Device, "auto"@)
    &&& note_view(a.strategy) == text_given(ev, Opt::Strategy)
    &&& a.iters == count_or(ev, Opt::Iters, 50)
    &&& a.train_steps == count_or(ev, Opt::TrainSteps, 200)
    &&& a.seed == seed_or(ev, Opt::Seed, 42)
    &&& a.with_compiled == flag_or(ev, Opt::WithCompiled, true)
    &&& a.with_ultra_fast == flag_or(ev, Opt::UltraFast, true)
    &&& note_view(a.json) == text_given(ev, Opt::Json)
}

pub open spec fn bench_welch_peaks_run(ev: Seq<(Opt, ValView)>, o: Outcome<BenchWelchPeaksArgs>) -> bool {
    o matches Outcome::Run(a) && bench_welch_peaks_args(ev, a)
}

/// Reads the arguments of `bench-welch-peaks`.
pub fn parse_bench_welch_peaks(args: &Vec<String>) -> (r: Parsed<BenchWelchPeaksArgs>)
    ensures
        parsed_by(
            texts(args@),
            BENCH_WELCH_PEAKS@,
            r,
            |ev: Seq<(Opt, ValView)>, o: Outcome<BenchWelchPeaksArgs>| bench_welch_peaks_run(ev, o),
        ),
{
    let (ev, end) = scan_args(args, BENCH_WELCH_PEAKS.as_slice());
    let deferred = deferred_texts(&ev);
    let outcome = match end {
        End::Help => Outcome::Help,
        End::Failed(e) => Outcome::Failed(e),
        End::Finished => Outcome::Run(
            BenchWelchPeaksArgs {
                n_fft: get_count(&ev, Opt::NFft, 256),
                batch: get_text(&ev, Opt::Batch, "32"),
                k: get_text(&ev, Opt::K, "16"),
                device: get_text(&ev, Opt::Device, "auto"),
                strategy: get_text_given(&ev, Opt::Strategy),
                iters: get_count(&ev, Opt::Iters, 50),
                train_steps: get_count(&ev, Opt::TrainSteps, 200),
                seed: get_seed(&ev, Opt::Seed, 42),
                with_compiled: get_flag(&ev, Opt::WithCompiled, true),
                with_ultra_fast: get_flag(&ev, Opt::UltraFast, true),
                json: get_text_given(&ev, Opt::Json),
            },
        ),
    };
    Parsed { deferred, outcome }
}

/// The arguments of `bench-fusion-phases`.
#[derive(Debug)]
pub struct BenchFusionPhasesArgs {
    pub n_fft: usize,
    pub batch: String,
    pub k: usize,
    pub device: String,
    pub iters: usize,
    pub seed: u64,
    pub json: Option<String>,
}

/// Whether arguments are those that were read.
pub open spec fn bench_fusion_phases_args(ev: Seq<(Opt, ValView)>, a: BenchFusionPhasesArgs) -> bool {
    &&& a.n_fft == count_or(ev, Opt::NFft, 256)
    &&& a.batch@ == text_or(ev, Opt::Batch, "32"@)
    &&& a.k == count_or(ev, Opt::K, 16)
    &&& a.device@ == text_or(ev, Opt::Device, "auto"@)
    &&& a.iters == count_or(ev, Opt::Iters, 30)
    &&& a.seed == seed_or(ev, Opt::Seed, 42)
    &&& note_view(a.json) == text_given(ev, Opt::Json)
}

pub open spec fn bench_fusion_phases_run(ev: Seq<(Opt, ValView)>, o: Outcome<BenchFusionPhasesArgs>) -> bool {
    o matches Outcome::Run(a) && bench_fusion_phases_args(ev, a)
}

/// Reads the arguments of `bench-fusion-phases`.
pub fn parse_bench_fusion_phases(args: &Vec<String>) -> (r: Parsed<BenchFusionPhasesArgs>)
    ensures
        parsed_by(
            texts(args@),
            BENCH_FUSION_PHASES@,
            r,
            |ev: Seq<(Opt, ValView)>, o: Outcome<BenchFusionPhasesArgs>| bench_fusion_phases_run(ev, o),
        ),
{
    let (ev, end) = scan_args(args, BENCH_FUSION_PHASES.as_slice());
    let deferred = deferred_texts(&ev);
    let outcome = match end {
        End::Help => Outcome::Help,
        End::Failed(e) => Outcome::Failed(e),
        End::Finished => Outcome::Run(
            BenchFusionPhasesArgs {
                n_fft: get_count(&ev, Opt::NFft, 256),
                batch: get_text(&ev, Opt::Batch, "32"),
                k: get_count(&ev, Opt::K, 16),
                device: get_text(&ev, Opt::Device, "auto"),
                iters: get_count(&ev, Opt::Iters, 30),
                seed: get_seed(&ev, Opt::Seed, 42),
                json: get_text_given(&ev, Opt::Json),
            },
        ),
    };
    Parsed { deferred, outcome }
}

} // verus!

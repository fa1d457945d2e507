//! The flags of every subcommand.

use crate::cli::{Flag, Kind, Opt};
use vstd::prelude::*;

verus! {

/// The flags of `precision-sweep`.
pub const PRECISION_SWEEP: [Flag; 7] = [
    ("--n-fft", Opt::NFft, Kind::Counts, "--n-fft"),
    ("--batch", Opt::Batch, Kind::Count, "--batch"),
    ("--max-iters", Opt::MaxIters, Kind::Count, "--max-iters"),
    ("--seed", Opt::Seed, Kind::Seed, "--seed"),
    ("--json", Opt::Json, Kind::Text, "--json"),
    ("--help", Opt::Help, Kind::Help, "--help"),
    ("-h", Opt::Help, Kind::Help, "-h"),
];

/// The flags of `train-matryoshka`.
pub const TRAIN_MATRYOSHKA: [Flag; 12] = [
    ("--n-fft", Opt::NFft, Kind::Size, "--n-fft"),
    ("--batch", Opt::Batch, Kind::Count, "--batch"),
    ("--steps", Opt::Steps, Kind::Count, "--steps"),
    ("--lr", Opt::Lr, Kind::Deferred, "--lr"),
    ("--log-every", Opt::LogEvery, Kind::Count, "--log-every"),
    ("--f16-weight", Opt::HalfWeight, Kind::Deferred, "--f16-weight"),
    ("--perturb", Opt::Perturb, Kind::Deferred, "--perturb"),
    ("--seed", Opt::Seed, Kind::Seed, "--seed"),
    ("--json", Opt::Json, Kind::Text, "--json"),
    ("--html", Opt::Html, Kind::Text, "--html"),
    ("--help", Opt::Help, Kind::Help, "--help"),
    ("-h", Opt::Help, Kind::Help, "-h"),
];

/// The flags of `train`.
pub const TRAIN: [Flag; 13] = [
    ("--ifft", Opt::Direction, Kind::Inverse, "--ifft"),
    ("--inverse", Opt::Direction, Kind::Inverse, "--inverse"),
    ("--n-fft", Opt::NFft, Kind::Size, "--n-fft"),
    ("--batch", Opt::Batch, Kind::Count, "--batch"),
    ("--steps", Opt::Steps, Kind::Count, "--steps"),
    ("--lr", Opt::Lr, Kind::Deferred, "--lr"),
    ("--seed", Opt::Seed, Kind::Seed, "--seed"),
    ("--log-every", Opt::LogEvery, Kind::Count, "--log-every"),
    ("--device", Opt::Device, Kind::Text, "--device"),
    ("--direction", Opt::Direction, Kind::Dir, "--direction"),
    ("--out", Opt::Out, Kind::Text, "--out"),
    ("--help", Opt::Help, Kind::Help, "--help"),
    ("-h", Opt::Help, Kind::Help, "-h"),
];

/// The flags of `eval`.
pub const EVAL: [Flag; 7] = [
    ("--ifft", Opt::Direction, Kind::Inverse, "--ifft"),
    ("--inverse", Opt::Direction, Kind::Inverse, "--inverse"),
    ("--weights", Opt::Weights, Kind::Text, "--weights"),
    ("--n-fft", Opt::NFft, Kind::Size, "--n-fft"),
    ("--batch", Opt::Batch, Kind::Count, "--batch"),
    ("--batches", Opt::Batches, Kind::Count, "--batches"),
    ("--direction", Opt::Direction, Kind::Dir, "--direction"),
];

/// The flags of `bench`.
pub const BENCH: [Flag; 9] = [
    ("--ifft", Opt::Direction, Kind::Inverse, "--ifft"),
    ("--inverse", Opt::Direction, Kind::Inverse, "--inverse"),
    ("--n-fft", Opt::NFft, Kind::Size, "--n-fft"),
    ("--batch", Opt::Batch, Kind::Count, "--batch"),
    ("--iters", Opt::Iters, Kind::Count, "--iters"),
    ("--device", Opt::Device, Kind::Text, "--device"),
    ("--with-butterfly-compiled", Opt::WithCompiled, Kind::On, "--with-butterfly-compiled"),
    ("--weights", Opt::Weights, Kind::Text, "--weights"),
    ("--direction", Opt::Direction, Kind::Dir, "--direction"),
];

/// The flags of `compare`.
pub const COMPARE: [Flag; 8] = [
    ("--ifft", Opt::Direction, Kind::Inverse, "--ifft"),
    ("--inverse", Opt::Direction, Kind::Inverse, "--inverse"),
    ("--n-fft", Opt::NFft, Kind::Size, "--n-fft"),
    ("--batch", Opt::Batch, Kind::Count, "--batch"),
    ("--weights", Opt::Weights, Kind::Text, "--weights"),
    ("--device", Opt::Device, Kind::Text, "--device"),
    ("--direction", Opt::Direction, Kind::Dir, "--direction"),
    ("--compile", Opt::Compile, Kind::On, "--compile"),
];

/// The flags of `train-encdec`.
pub const TRAIN_ENCDEC: [Flag; 11] = [
    ("--n-fft", Opt::NFft, Kind::Size, "--n-fft"),
    ("--batch", Opt::Batch, Kind::Count, "--batch"),
    ("--steps", Opt::Steps, Kind::Count, "--steps"),
    ("--lr", Opt::Lr, Kind::Deferred, "--lr"),
    ("--seed", Opt::Seed, Kind::Seed, "--seed"),
    ("--log-every", Opt::LogEvery, Kind::Count, "--log-every"),
    ("--device", Opt::Device, Kind::Text, "--device"),
    ("--spectrum-weight", Opt::SpectrumWeight, Kind::Deferred, "--spectrum-weight"),
    ("--out", Opt::Out, Kind::Text, "--out"),
    ("--help", Opt::Help, Kind::Help, "--help"),
    ("-h", Opt::Help, Kind::Help, "-h"),
];

/// The flags of `roundtrip`.
pub const ROUNDTRIP: [Flag; 2] = [
    ("--n-fft", Opt::NFft, Kind::Size, "--n-fft"),
    ("--batch", Opt::Batch, Kind::Count, "--batch"),
];

/// The flags of `train-phased`.
pub const TRAIN_PHASED: [Flag; 12] = [
    ("--n-fft", Opt::NFft, Kind::Size, "--n-fft"),
    ("--batch", Opt::Batch, Kind::Count, "--batch"),
    ("--encoder-steps", Opt::EncoderSteps, Kind::Count, "--encoder-steps"),
    ("--decoder-steps", Opt::DecoderSteps, Kind::Count, "--decoder-steps"),
    ("--joint-steps", Opt::JointSteps, Kind::Count, "--joint-steps"),
    ("--lr", Opt::Lr, Kind::Deferred, "--lr"),
    ("--spectrum-weight", Opt::SpectrumWeight, Kind::Deferred, "--spectrum-weight"),
    ("--seed", Opt::Seed, Kind::Seed, "--seed"),
    ("--log-every", Opt::LogEvery, Kind::Count, "--log-every"),
    ("--out", Opt::Out, Kind::Text, "--out"),
    ("--help", Opt::Help, Kind::Help, "--help"),
    ("-h", Opt::Help, Kind::Help, "-h"),
];

/// The flags of `train-multi`.
pub const TRAIN_MULTI: [Flag; 26] = [
    ("--n-fft", Opt::NFft, Kind::Text, "--n-fft"),
    ("--batch", Opt::Batch, Kind::Count, "--batch"),
    ("--steps", Opt::Steps, Kind::Count, "--steps"),
    ("--min-steps", Opt::MinSteps, Kind::Count, "--min-steps"),
    ("--until-converged", Opt::UntilConverged, Kind::On, "--until-converged"),
    ("--fixed-steps", Opt::UntilConverged, Kind::Off, "--fixed-steps"),
    ("--converge-every", Opt::ConvergeEvery, Kind::Count, "--converge-every"),
    ("--converge-patience", Opt::ConvergePatience, Kind::Count, "--converge-patience"),
    ("--converge-delta", Opt::ConvergeDelta, Kind::Deferred, "--converge-delta"),
    ("--schedules", Opt::Schedules, Kind::Text, "--schedules"),
    ("--lr", Opt::Lr, Kind::Deferred, "--lr"),
    ("--spectrum-weight", Opt::SpectrumWeight, Kind::Deferred, "--spectrum-weight"),
    ("--seed", Opt::Seed, Kind::Seed, "--seed"),
    ("--log-every", Opt::LogEvery, Kind::Count, "--log-every"),
    ("--eval-batches", Opt::EvalBatches, Kind::Count, "--eval-batches"),
    ("--out", Opt::Out, Kind::Text, "--out"),
    ("--json", Opt::Json, Kind::Text, "--json"),
    ("--html", Opt::Html, Kind::Text, "--html"),
    ("--optimizer", Opt::Optimizer, Kind::Text, "--optimizer"),
    ("--grad-clip", Opt::GradClip, Kind::Deferred, "--grad-clip"),
    ("--project-twiddles", Opt::ProjectTwiddles, Kind::On, "--project-twiddles"),
    ("--no-project-twiddles", Opt::ProjectTwiddles, Kind::Off, "--no-project-twiddles"),
    ("--fused-train", Opt::UseFusedTrain, Kind::On, "--fused-train"),
    ("--eager-train", Opt::UseFusedTrain, Kind::Off, "--eager-train"),
    ("--help", Opt::Help, Kind::Help, "--help"),
    ("-h", Opt::Help, Kind::Help, "-h"),
];

/// The flags of `bench-phased`.
pub const BENCH_PHASED: [Flag; 9] = [
    ("--dir", Opt::Dir, Kind::Text, "--dir"),
    ("--n-fft", Opt::NFft, Kind::Size, "--n-fft"),
    ("--batch", Opt::Batch, Kind::Count, "--batch"),
    ("--iters", Opt::Iters, Kind::Count, "--iters"),
    ("--device", Opt::Device, Kind::Text, "--device"),
    ("--with-compiled", Opt::WithCompiled, Kind::On, "--with-compiled"),
    ("--json", Opt::Json, Kind::Text, "--json"),
    ("--help", Opt::Help, Kind::Help, "--help"),
    ("-h", Opt::Help, Kind::Help, "-h"),
];

/// The flags of `bench-sweep`.
pub const BENCH_SWEEP: [Flag; 13] = [
    ("--n-fft", Opt::NFft, Kind::Text, "--n-fft"),
    ("--batch", Opt::Batch, Kind::Text, "--batch"),
    ("--devices", Opt::Devices, Kind::Text, "--devices"),
    ("--iters", Opt::Iters, Kind::Count, "--iters"),
    ("--both-dirs", Opt::BothDirs, Kind::On, "--both-dirs"),
    ("--all", Opt::All, Kind::On, "--all"),
    ("--with-butterfly-compiled", Opt::WithCompiled, Kind::On, "--with-butterfly-compiled"),
    ("--weights", Opt::Weights, Kind::Text, "--weights"),
    ("--json", Opt::Json, Kind::Text, "--json"),
    ("--md", Opt::Md, Kind::Text, "--md"),
    ("--html", Opt::Html, Kind::Text, "--html"),
    ("--help", Opt::Help, Kind::Help, "--help"),
    ("-h", Opt::Help, Kind::Help, "-h"),
];

/// The flags of `max-batch`.
pub const MAX_BATCH: [Flag; 6] = [
    ("--n-fft", Opt::NFft, Kind::Count, "--n-fft"),
    ("--devices", Opt::Devices, Kind::Text, "--devices"),
    ("--dtype", Opt::Dtype, Kind::Dtype, "--dtype"),
    ("--limbs", Opt::Limbs, Kind::Count, "--limbs"),
    ("--help", Opt::Help, Kind::Help, "--help"),
    ("-h", Opt::Help, Kind::Help, "-h"),
];

/// The flags of `report-html`.
pub const REPORT_HTML: [Flag; 4] = [
    ("--json", Opt::Json, Kind::Text, "--json"),
    ("--html", Opt::Html, Kind::Text, "--html"),
    ("--help", Opt::Help, Kind::Help, "--help"),
    ("-h", Opt::Help, Kind::Help, "-h"),
];

/// The flags of `study-report`.
pub const STUDY_REPORT: [Flag; 22] = [
    ("--ablation-json", Opt::AblationJson, Kind::Text, "--ablation-json"),
    ("--ablation-csv-dir", Opt::AblationCsvDir, Kind::Text, "--ablation-csv-dir"),
    ("--ablation-csv-out", Opt::AblationCsvOut, Kind::Text, "--ablation-csv-out"),
    ("--ablation-out", Opt::AblationOut, Kind::Text, "--ablation-out"),
    ("--train-json", Opt::TrainJson, Kind::Text, "--train-json"),
    ("--html", Opt::Html, Kind::Text, "--html"),
    ("--run-ablation", Opt::RunAblation, Kind::On, "--run-ablation"),
    ("--limit-sweep", Opt::LimitSweep, Kind::On, "--limit-sweep"),
    ("--run-model-studies", Opt::ModelStudies, Kind::On, "--run-model-studies"),
    ("--model-study-n-fft", Opt::ModelStudyNFft, Kind::Count, "--model-study-n-fft"),
    ("--model-study-steps", Opt::ModelStudySteps, Kind::Count, "--model-study-steps"),
    ("--n-fft", Opt::NFft, Kind::Text, "--n-fft"),
    ("--batch", Opt::Batch, Kind::Text, "--batch"),
    ("--devices", Opt::Devices, Kind::Text, "--devices"),
    ("--iters", Opt::Iters, Kind::Count, "--iters"),
    ("--train-steps", Opt::TrainSteps, Kind::Count, "--train-steps"),
    ("--with-compiled", Opt::WithCompiled, Kind::On, "--with-compiled"),
    ("--eager-only", Opt::WithCompiled, Kind::Off, "--eager-only"),
    ("--forward-only", Opt::BothDirs, Kind::Off, "--forward-only"),
    ("--no-welch", Opt::WithWelch, Kind::Off, "--no-welch"),
    ("--help", Opt::Help, Kind::Help, "--help"),
    ("-h", Opt::Help, Kind::Help, "-h"),
];

/// The flags of `ablation-ternary`.
pub const ABLATION_TERNARY: [Flag; 15] = [
    ("--quick", Opt::Quick, Kind::On, "--quick"),
    ("--n-fft", Opt::NFft, Kind::Text, "--n-fft"),
    ("--batch", Opt::Batch, Kind::Text, "--batch"),
    ("--devices", Opt::Devices, Kind::Text, "--devices"),
    ("--iters", Opt::Iters, Kind::Count, "--iters"),
    ("--teacher-steps", Opt::TeacherSteps, Kind::Count, "--teacher-steps"),
    ("--distill-steps", Opt::DistillSteps, Kind::Count, "--distill-steps"),
    ("--ternary-steps", Opt::TernarySteps, Kind::Count, "--ternary-steps"),
    ("--prune-targets", Opt::PruneTargets, Kind::Text, "--prune-targets"),
    ("--seed", Opt::Seed, Kind::Seed, "--seed"),
    ("--json", Opt::Json, Kind::Text, "--json"),
    ("--csv", Opt::Csv, Kind::Text, "--csv"),
    ("--html", Opt::Html, Kind::Text, "--html"),
    ("--help", Opt::Help, Kind::Help, "--help"),
    ("-h", Opt::Help, Kind::Help, "-h"),
];

/// The flags of `ablation`.
pub const ABLATION: [Flag; 16] = [
    ("--n-fft", Opt::NFft, Kind::Text, "--n-fft"),
    ("--batch", Opt::Batch, Kind::Text, "--batch"),
    ("--devices", Opt::Devices, Kind::Text, "--devices"),
    ("--iters", Opt::Iters, Kind::Count, "--iters"),
    ("--train-steps", Opt::TrainSteps, Kind::Count, "--train-steps"),
    ("--with-compiled", Opt::WithCompiled, Kind::On, "--with-compiled"),
    ("--both-dirs", Opt::BothDirs, Kind::On, "--both-dirs"),
    ("--forward-only", Opt::BothDirs, Kind::Off, "--forward-only"),
    ("--with-welch", Opt::WithWelch, Kind::On, "--with-welch"),
    ("--no-welch", Opt::WithWelch, Kind::Off, "--no-welch"),
    ("--seed", Opt::Seed, Kind::Seed, "--seed"),
    ("--json", Opt::Json, Kind::Text, "--json"),
    ("--csv-dir", Opt::CsvDir, Kind::Text, "--csv-dir"),
    ("--html", Opt::Html, Kind::Text, "--html"),
    ("--help", Opt::Help, Kind::Help, "--help"),
    ("-h", Opt::Help, Kind::Help, "-h"),
];

/// The flags of `train-e2e`.
pub const TRAIN_E2E: [Flag; 19] = [
    ("--n-fft", Opt::NFft, Kind::Size, "--n-fft"),
    ("--batch", Opt::Batch, Kind::Count, "--batch"),
    ("--n-mels", Opt::NMels, Kind::Count, "--n-mels"),
    ("--steps", Opt::Steps, Kind::Count, "--steps"),
    ("--lr", Opt::Lr, Kind::Deferred, "--lr"),
    ("--sparsity-weight", Opt::SparsityWeight, Kind::Deferred, "--sparsity-weight"),
    ("--gate-lr", Opt::GateLr, Kind::Deferred, "--gate-lr"),
    ("--mel-weight", Opt::MelWeight, Kind::Deferred, "--mel-weight"),
    ("--welch-weight", Opt::WelchWeight, Kind::Deferred, "--welch-weight"),
    ("--peak-weight", Opt::PeakWeight, Kind::Deferred, "--peak-weight"),
    ("--peak-k", Opt::PeakK, Kind::Count, "--peak-k"),
    ("--k", Opt::PeakK, Kind::Count, "--peak-k"),
    ("--spectrum-weight", Opt::SpectrumWeight, Kind::Deferred, "--spectrum-weight"),
    ("--log-every", Opt::LogEvery, Kind::Count, "--log-every"),
    ("--no-q8", Opt::TrainQ8, Kind::Off, "--no-q8"),
    ("--seed", Opt::Seed, Kind::Seed, "--seed"),
    ("--json", Opt::Json, Kind::Text, "--json"),
    ("--help", Opt::Help, Kind::Help, "--help"),
    ("-h", Opt::Help, Kind::Help, "-h"),
];

/// The flags of `train-distill`.
pub const TRAIN_DISTILL: [Flag; 10] = [
    ("--n-fft", Opt::NFft, Kind::Size, "--n-fft"),
    ("--batch", Opt::Batch, Kind::Count, "--batch"),
    ("--n-mels", Opt::NMels, Kind::Count, "--n-mels"),
    ("--steps", Opt::Steps, Kind::Count, "--steps"),
    ("--lr", Opt::Lr, Kind::Deferred, "--lr"),
    ("--teacher-steps", Opt::TeacherSteps, Kind::Count, "--teacher-steps"),
    ("--seed", Opt::Seed, Kind::Seed, "--seed"),
    ("--json", Opt::Json, Kind::Text, "--json"),
    ("--help", Opt::Help, Kind::Help, "--help"),
    ("-h", Opt::Help, Kind::Help, "-h"),
];

/// The flags of `train-distill-ternary`.
pub const TRAIN_DISTILL_TERNARY: [Flag; 11] = [
    ("--n-fft", Opt::NFft, Kind::Size, "--n-fft"),
    ("--batch", Opt::Batch, Kind::Count, "--batch"),
    ("--n-mels", Opt::NMels, Kind::Count, "--n-mels"),
    ("--steps", Opt::Steps, Kind::Count, "--steps"),
    ("--lr", Opt::Lr, Kind::Deferred, "--lr"),
    ("--compute-weight", Opt::ComputeWeight, Kind::Deferred, "--compute-weight"),
    ("--teacher-steps", Opt::TeacherSteps, Kind::Count, "--teacher-steps"),
    ("--seed", Opt::Seed, Kind::Seed, "--seed"),
    ("--json", Opt::Json, Kind::Text, "--json"),
    ("--help", Opt::Help, Kind::Help, "--help"),
    ("-h", Opt::Help, Kind::Help, "-h"),
];

/// The flags of `bench-e2e`.
pub const BENCH_E2E: [Flag; 25] = [
    ("--n-fft", Opt::NFft, Kind::Size, "--n-fft"),
    ("--batch", Opt::Batch, Kind::Text, "--batch"),
    ("--n-mels", Opt::NMels, Kind::Count, "--n-mels"),
    ("--peak-k", Opt::PeakK, Kind::Count, "--peak-k"),
    ("--k", Opt::PeakK, Kind::Count, "--peak-k"),
    ("--iters", Opt::Iters, Kind::Count, "--iters"),
    ("--device", Opt::Device, Kind::Text, "--device"),
    ("--train-first", Opt::TrainFirst, Kind::On, "--train-first"),
    ("--distill-first", Opt::Distill, Kind::On, "--distill-first"),
    ("--distill-only", Opt::Distill, Kind::Off, "--distill-only"),
    ("--ternary-distill", Opt::Distill, Kind::On, "--ternary-distill"),
    ("--steps", Opt::Steps, Kind::Count, "--steps"),
    ("--distill-steps", Opt::DistillSteps, Kind::Count, "--distill-steps"),
    ("--compute-weight", Opt::ComputeWeight, Kind::Deferred, "--compute-weight"),
    ("--target-compute-fraction", Opt::TargetComputeFraction, Kind::Deferred, "--target-compute-fraction"),
    ("--seed", Opt::Seed, Kind::Seed, "--seed"),
    ("--no-hard-gates", Opt::LearnedHard, Kind::Off, "--no-hard-gates"),
    ("--no-compiled", Opt::LearnedCompiled, Kind::Off, "--no-compiled"),
    ("--no-distilled", Opt::LearnedDistilled, Kind::Off, "--no-distilled"),
    ("--no-ternary-distilled", Opt::LearnedTernary, Kind::Off, "--no-ternary-distilled"),
    ("--with-eager-learned", Opt::EagerLearned, Kind::On, "--with-eager-learned"),
    ("--json", Opt::Json, Kind::Text, "--json"),
    ("--html", Opt::Html, Kind::Text, "--html"),
    ("--help", Opt::Help, Kind::Help, "--help"),
    ("-h", Opt::Help, Kind::Help, "-h"),
];

/// The flags of `bench-welch-peaks`.
pub const BENCH_WELCH_PEAKS: [Flag; 14] = [
    ("--n-fft", Opt::NFft, Kind::Size, "--n-fft"),
    ("--batch", Opt::Batch, Kind::Text, "--batch"),
    ("--k", Opt::K, Kind::Text, "--k"),
    ("--peak-k", Opt::K, Kind::Text, "--peak-k"),
    ("--device", Opt::Device, Kind::Text, "--device"),
    ("--strategy", Opt::Strategy, Kind::Deferred, "--strategy"),
    ("--iters", Opt::Iters, Kind::Count, "--iters"),
    ("--train-steps", Opt::TrainSteps, Kind::Count, "--train-steps"),
    ("--seed", Opt::Seed, Kind::Seed, "--seed"),
    ("--no-compiled", Opt::WithCompiled, Kind::Off, "--no-compiled"),
    ("--no-ultra-fast", Opt::UltraFast, Kind::Off, "--no-ultra-fast"),
    ("--json", Opt::Json, Kind::Text, "--json"),
    ("--help", Opt::Help, Kind::Help, "--help"),
    ("-h", Opt::Help, Kind::Help, "-h"),
];

/// The flags of `bench-fusion-phases`.
pub const BENCH_FUSION_PHASES: [Flag; 10] = [
    ("--n-fft", Opt::NFft, Kind::Size, "--n-fft"),
    ("--batch", Opt::Batch, Kind::Text, "--batch"),
    ("--k", Opt::K, Kind::Count, "--k"),
    ("--peak-k", Opt::K, Kind::Count, "--k"),
    ("--device", Opt::Device, Kind::Text, "--device"),
    ("--iters", Opt::Iters, Kind::Count, "--iters"),
    ("--seed", Opt::Seed, Kind::Seed, "--seed"),
    ("--json", Opt::Json, Kind::Text, "--json"),
    ("--help", Opt::Help, Kind::Help, "--help"),
    ("-h", Opt::Help, Kind::Help, "-h"),
];

} // verus!

//! What a subcommand does with its arguments: lists, devices, outputs and sources.

use crate::ablation::note_view;
use crate::ablation_csv::{decimals, number_texts, starts_with, text_starts_with};
use crate::cli::{
    count_or, deferred_texts, events, get_text_given, last_value, parsed_by, scan_args, seed_or,
    text_given, CliError, End, Opt, Outcome, Parsed, Val, ValView,
};
use crate::cli_args::{AblationArgs, BenchE2eArgs, BenchSweepArgs, StudyReportArgs, TrainMultiArgs};
use crate::cli_flags::ABLATION_TERNARY;
use crate::compile::{parse_precision, precision_named, Precision};
use crate::config::{lower_entries, schedules_of, ConfigError, MultiTrainSchedule, TransformDir,
    SUPPORTED_N_FFT};
use crate::device::{available_devices_in, device_list_outcome, labels, parse_bench_device_list_in,
    swept_devices, Available, DeviceError};
use crate::e2e_bench::TrainFlags;
use crate::spec_list::{csv_outcome, list_outcome, list_readable, listed, parse_batch_spec, parse_csv_usize, parse_k_spec,
    ListError};
use crate::text::{chars_of, copy_text, join_texts, joined, lower_text, pieces, same_text, split_text,
    text_of, texts, trim_text, trimmed};
use vstd::prelude::*;

verus! {

/// The subcommands.
#[derive(Debug, Clone, Copy, PartialEq, Eq, Structural)]
pub enum Subcommand {
    Train,
    Eval,
    Bench,
    Compare,
    Roundtrip,
    TrainEncdec,
    TrainPhased,
    TrainMulti,
    BenchPhased,
    BenchSweep,
    MaxBatch,
    ReportHtml,
    StudyReport,
    Ablation,
    AblationTernary,
    TrainE2e,
    TrainMatryoshka,
    PrecisionSweep,
    TrainDistill,
    TrainDistillTernary,
    BenchE2e,
    BenchWelchPeaks,
    BenchFusionPhases,
}

/// The subcommand with a name.
pub open spec fn subcommand_named(s: Seq<char>) -> Option<Subcommand> {
    if s == "train"@ {
        Some(Subcommand::Train)
    } else if s == "eval"@ {
        Some(Subcommand::Eval)
    } else if s == "bench"@ {
        Some(Subcommand::Bench)
    } else if s == "compare"@ {
        Some(Subcommand::Compare)
    } else if s == "roundtrip"@ {
        Some(Subcommand::Roundtrip)
    } else if s == "train-encdec"@ {
        Some(Subcommand::TrainEncdec)
    } else if s == "train-phased"@ {
        Some(Subcommand::TrainPhased)
    } else if s == "train-multi"@ {
        Some(Subcommand::TrainMulti)
    } else if s == "bench-phased"@ {
        Some(Subcommand::BenchPhased)
    } else if s == "bench-sweep"@ {
        Some(Subcommand::BenchSweep)
    } else if s == "max-batch"@ {
        Some(Subcommand::MaxBatch)
    } else if s == "report-html"@ {
        Some(Subcommand::ReportHtml)
    } else if s == "study-report"@ {
        Some(Subcommand::StudyReport)
    } else if s == "ablation"@ {
        Some(Subcommand::Ablation)
    } else if s == "ablation-ternary"@ {
        Some(Subcommand::AblationTernary)
    } else if s == "train-e2e"@ {
        Some(Subcommand::TrainE2e)
    } else if s == "train-matryoshka"@ {
        Some(Subcommand::TrainMatryoshka)
    } else if s == "precision-sweep"@ {
        Some(Subcommand::PrecisionSweep)
    } else if s == "train-distill"@ {
        Some(Subcommand::TrainDistill)
    } else if s == "train-distill-ternary"@ {
        Some(Subcommand::TrainDistillTernary)
    } else if s == "bench-e2e"@ {
        Some(Subcommand::BenchE2e)
    } else if s == "bench-welch-peaks"@ {
        Some(Subcommand::BenchWelchPeaks)
    } else if s == "bench-fusion-phases"@ {
        Some(Subcommand::BenchFusionPhases)
    } else {
        None
    }
}

fn find_subcommand(s: &str) -> (r: Option<Subcommand>)
    ensures
        r == subcommand_named(s@),
{
    if same_text(s, "train") {
        Some(Subcommand::Train)
    } else if same_text(s, "eval") {
        Some(Subcommand::Eval)
    } else if same_text(s, "bench") {
        Some(Subcommand::Bench)
    } else if same_text(s, "compare") {
        Some(Subcommand::Compare)
    } else if same_text(s, "roundtrip") {
        Some(Subcommand::Roundtrip)
    } else if same_text(s, "train-encdec") {
        Some(Subcommand::TrainEncdec)
    } else if same_text(s, "train-phased") {
        Some(Subcommand::TrainPhased)
    } else if same_text(s, "train-multi") {
        Some(Subcommand::TrainMulti)
    } else if same_text(s, "bench-phased") {
        Some(Subcommand::BenchPhased)
    } else if same_text(s, "bench-sweep") {
        Some(Subcommand::BenchSweep)
    } else if same_text(s, "max-batch") {
        Some(Subcommand::MaxBatch)
    } else if same_text(s, "report-html") {
        Some(Subcommand::ReportHtml)
    } else if same_text(s, "study-report") {
        Some(Subcommand::StudyReport)
    } else if same_text(s, "ablation") {
        Some(Subcommand::Ablation)
    } else if same_text(s, "ablation-ternary") {
        Some(Subcommand::AblationTernary)
    } else if same_text(s, "train-e2e") {
        Some(Subcommand::TrainE2e)
    } else if same_text(s, "train-matryoshka") {
        Some(Subcommand::TrainMatryoshka)
    } else if same_text(s, "precision-sweep") {
        Some(Subcommand::PrecisionSweep)
    } else if same_text(s, "train-distill") {
        Some(Subcommand::TrainDistill)
    } else if same_text(s, "train-distill-ternary") {
        Some(Subcommand::TrainDistillTernary)
    } else if same_text(s, "bench-e2e") {
        Some(Subcommand::BenchE2e)
    } else if same_text(s, "bench-welch-peaks") {
        Some(Subcommand::BenchWelchPeaks)
    } else if same_text(s, "bench-fusion-phases") {
        Some(Subcommand::BenchFusionPhases)
    } else {
        None
    }
}

/// What a command line asks for.
#[derive(Debug)]
pub enum Dispatch {
    Help,
    Command(Subcommand),
}

/// Reads the subcommand of a command line: no argument, `--help` and `-h` ask for help.
pub fn dispatch(args: &Vec<String>) -> (r: Result<Dispatch, CliError>)
    ensures
        if args.len() == 0 || args@[0]@ == "--help"@ || args@[0]@ == "-h"@ {
            r matches Ok(d) && d is Help
        } else {
            match subcommand_named(args@[0]@) {
                Some(c) => r matches Ok(Dispatch::Command(s)) && s == c,
                None => r matches Err(CliError::UnknownCommand { name }) && name@ == args@[0]@,
            }
        },
{
    if args.len() == 0 || same_text(args[0].as_str(), "--help") || same_text(
        args[0].as_str(),
        "-h",
    ) {
        return Ok(Dispatch::Help);
    }
    match find_subcommand(args[0].as_str()) {
        Some(c) => Ok(Dispatch::Command(c)),
        None => Err(CliError::UnknownCommand { name: copy_text(&args[0]) }),
    }
}

// ---------------------------------------------------------------------------
// The global precision flag
// ---------------------------------------------------------------------------

/// What taking the precision flags out of a command line gives.
pub enum Stripped {
    /// The other arguments, and the precision that was given last.
    Kept(Seq<Seq<char>>, Option<Precision>),
    /// The flag stands last, without a value.
    NoValue,
    /// The value is no precision.
    BadValue(Seq<char>),
}

/// The command line behind the arguments that are read already.
pub open spec fn with_arg(a: Seq<char>, rest: Stripped) -> Stripped {
    match rest {
        Stripped::Kept(v, p) => Stripped::Kept(seq![a] + v, p),
        other => other,
    }
}

/// The command line behind a precision.
pub open spec fn with_precision(value: Seq<char>, rest: Stripped) -> Stripped {
    match precision_named(lower_text(trimmed(value))) {
        None => Stripped::BadValue(lower_text(trimmed(value))),
        Some(p) => match rest {
            Stripped::Kept(v, Some(q)) => Stripped::Kept(v, Some(q)),
            Stripped::Kept(v, None) => Stripped::Kept(v, Some(p)),
            other => other,
        },
    }
}

/// Takes `--precision VALUE` and `--precision=VALUE` out of a command line, wherever they stand.
pub open spec fn strip_precision(args: Seq<Seq<char>>) -> Stripped
    decreases args.len(),
{
    if args.len() == 0 {
        Stripped::Kept(Seq::empty(), None)
    } else if args[0] == "--precision"@ {
        if args.len() < 2 {
            Stripped::NoValue
        } else {
            with_precision(args[1], strip_precision(args.skip(2)))
        }
    } else if starts_with(args[0], "--precision="@) {
        with_precision(args[0].skip("--precision="@.len() as int), strip_precision(args.skip(1)))
    } else {
        with_arg(args[0], strip_precision(args.skip(1)))
    }
}

/// What stands before the rest of a command line.
pub open spec fn behind(kept: Seq<Seq<char>>, p: Option<Precision>, rest: Stripped) -> Stripped {
    match rest {
        Stripped::Kept(v, Some(q)) => Stripped::Kept(kept + v, Some(q)),
        Stripped::Kept(v, None) => Stripped::Kept(kept + v, p),
        other => other,
    }
}

/// Takes the precision flags out of a command line, and gives the precision that was named last.
pub fn apply_global_precision(args: &Vec<String>) -> (r: Result<
    (Vec<String>, Option<Precision>),
    CliError,
>)
    ensures
        match strip_precision(texts(args@)) {
            Stripped::Kept(v, p) => r matches Ok((out, q)) && texts(out@) == v && q == p,
            Stripped::NoValue => r matches Err(CliError::Required { what }) && what@
                == "--precision needs a value (f32|f16|bf16)"@,
            Stripped::BadValue(s) => r matches Err(CliError::BadPrecision { text }) && text@ == s,
        },
{
    let ghost all = texts(args@);
    let mut out: Vec<String> = Vec::new();
    let mut precision: Option<Precision> = None;
    let mut i: usize = 0;
    let head = chars_of("--precision=").len();
    proof {
        assert(all.skip(0) =~= all);
        let s = strip_precision(all);
        assert(texts(out@) =~= Seq::empty());
        match s {
            Stripped::Kept(v, p) => {
                assert(texts(out@) + v =~= v);
            },
            _ => {},
        }
    }
    while i < args.len()
        invariant
            i <= args.len(),
            all == texts(args@),
            head == "--precision="@.len(),
            strip_precision(all) == behind(
                texts(out@),
                precision,
                strip_precision(all.skip(i as int)),
            ),
        decreases args.len() - i,
    {
        let ghost here = all.skip(i as int);
        let ghost was = texts(out@);
        assert(here[0] == args@[i as int]@);
        assert(here.skip(1) =~= all.skip(i + 1));
        if same_text(args[i].as_str(), "--precision") {
            if args.len() - i < 2 {
                return Err(
                    CliError::Required { what: "--precision needs a value (f32|f16|bf16)" },
                );
            }
            assert(here[1] == args@[i + 1]@);
            assert(here.skip(2) =~= all.skip(i + 2));
            match parse_precision(args[i + 1].as_str()) {
                Ok(p) => {
                    precision = Some(p);
                },
                Err(text) => {
                    return Err(CliError::BadPrecision { text });
                },
            }
            i += 2;
        } else if text_starts_with(args[i].as_str(), "--precision=") {
            let chars = chars_of(args[i].as_str());
            let value = text_of(&chars, head, chars.len());
            assert(value@ =~= here[0].skip("--precision="@.len() as int));
            match parse_precision(value.as_str()) {
                Ok(p) => {
                    precision = Some(p);
                },
                Err(text) => {
                    return Err(CliError::BadPrecision { text });
                },
            }
            i += 1;
        } else {
            let ghost rest = strip_precision(here.skip(1));
            out.push(copy_text(&args[i]));
            proof {
                assert(texts(out@) =~= was.push(here[0]));
                match rest {
                    Stripped::Kept(v, p) => {
                        assert(was + (seq![here[0]] + v) =~= was.push(here[0]) + v);
                    },
                    _ => {},
                }
            }
            i += 1;
        }
    }
    assert(all.skip(i as int) =~= Seq::empty());
    assert(texts(out@) + Seq::<Seq<char>>::empty() =~= texts(out@));
    Ok((out, precision))
}

/// A command line without precision flags is left as it is.
pub proof fn plain_lines_are_kept(args: Seq<Seq<char>>)
    requires
        forall|i: int|
            0 <= i < args.len() ==> (#[trigger] args[i]) != "--precision"@ && !starts_with(
                args[i],
                "--precision="@,
            ),
    ensures
        strip_precision(args) == Stripped::Kept(args, None),
    decreases args.len(),
{
    if args.len() > 0 {
        assert(args[0] != "--precision"@);
        let rest = args.skip(1);
        assert forall|i: int| 0 <= i < rest.len() implies (#[trigger] rest[i]) != "--precision"@
            && !starts_with(rest[i], "--precision="@) by {
            assert(rest[i] == args[i + 1]);
        }
        plain_lines_are_kept(rest);
        assert(seq![args[0]] + rest =~= args);
    } else {
        assert(args =~= Seq::empty());
    }
}

// ---------------------------------------------------------------------------
// Lists and devices
// ---------------------------------------------------------------------------

/// The numbers of a comma-separated list, where it is one.
pub open spec fn numbers_of(csv: Seq<char>) -> Option<Seq<usize>> {
    match listed(pieces(csv, ',')) {
        Ok(v) => if v.len() > 0 {
            Some(v)
        } else {
            None
        },
        Err(_) => None,
    }
}

/// Whether an error reports a list that is none.
pub open spec fn bad_list(e: CliError, csv: Seq<char>, label: Seq<char>) -> bool {
    e matches CliError::List(l) && csv_outcome(csv, label, Err::<Vec<usize>, ListError>(l))
}

fn read_numbers(csv: &str, label: &'static str) -> (r: Result<Vec<usize>, CliError>)
    ensures
        match numbers_of(csv@) {
            Some(v) => r matches Ok(out) && out@ == v,
            None => r matches Err(e) && bad_list(e, csv@, label@),
        },
{
    match parse_csv_usize(csv, label) {
        Ok(v) => Ok(v),
        Err(e) => Err(CliError::List(e)),
    }
}

/// The devices that are asked for, or all that a sweep covers.
pub open spec fn devices_chosen(
    asked: Option<Seq<char>>,
    a: Available,
    r: Result<Vec<String>, DeviceError>,
) -> bool {
    match asked {
        Some(csv) => device_list_outcome(csv, a, r),
        None => r matches Ok(v) && texts(v@) == labels(swept_devices(a)),
    }
}

/// The devices that are asked for, or all that a sweep covers.
pub fn choose_devices(asked: &Option<String>, a: Available) -> (r: Result<Vec<String>, DeviceError>)
    ensures
        devices_chosen(note_view(*asked), a, r),
{
    match asked {
        Some(csv) => parse_bench_device_list_in(csv.as_str(), a),
        None => Ok(available_devices_in(a)),
    }
}

/// The text of all supported sizes.
pub open spec fn all_sizes_text() -> Seq<char> {
    joined(decimals(SUPPORTED_N_FFT@), ","@)
}

/// The text of all supported sizes.
pub fn default_n_fft_csv() -> (r: String)
    ensures
        r@ == all_sizes_text(),
{
    sizes_joined(",")
}

/// All supported sizes with a text between them.
pub fn sizes_joined(sep: &str) -> (r: String)
    ensures
        r@ == joined(decimals(SUPPORTED_N_FFT@), sep@),
{
    let mut all: Vec<usize> = Vec::new();
    let mut i: usize = 0;
    while i < 12
        invariant
            i <= 12,
            all@ == SUPPORTED_N_FFT@.take(i as int),
        decreases 12 - i,
    {
        all.push(SUPPORTED_N_FFT[i]);
        assert(all@ =~= SUPPORTED_N_FFT@.take(i + 1));
        i += 1;
    }
    assert(all@ =~= SUPPORTED_N_FFT@);
    let cells = number_texts(&all);
    join_texts(&cells, sep)
}

/// The batches of a sweep where none are asked for.
pub const DEFAULT_BATCH_CSV: &'static str = "1,8,32,64,128,256,512,1024,2048,4096";

/// The directions of a run, in order.
pub fn directions_of(both: bool) -> (r: Vec<TransformDir>)
    ensures
        r@ == if both {
            seq![TransformDir::Forward, TransformDir::Inverse]
        } else {
            seq![TransformDir::Forward]
        },
{
    let mut out: Vec<TransformDir> = Vec::new();
    out.push(TransformDir::Forward);
    if both {
        out.push(TransformDir::Inverse);
    }
    assert(out@ =~= if both {
        seq![TransformDir::Forward, TransformDir::Inverse]
    } else {
        seq![TransformDir::Forward]
    });
    out
}

/// What a benchmark sweep covers.
#[derive(Debug)]
pub struct SweepPlan {
    pub n_ffts: Vec<usize>,
    pub batches: Vec<usize>,
    pub devices: Vec<String>,
    pub directions: Vec<TransformDir>,
}

/// What a benchmark sweep covers, or the first argument that is wrong. A full sweep overrides the
/// sizes, the batches and the directions.
pub open spec fn sweep_planned(a: BenchSweepArgs, live: Available, r: Result<SweepPlan, CliError>) -> bool {
    let sizes = match note_view(a.n_fft) {
        Some(s) if !a.sweep_all => s,
        _ => all_sizes_text(),
    };
    let batches = if a.sweep_all {
        DEFAULT_BATCH_CSV@
    } else {
        a.batch@
    };
    match (numbers_of(sizes), numbers_of(batches)) {
        (None, _) => r matches Err(e) && bad_list(e, sizes, "--n-fft"@),
        (_, None) => r matches Err(e) && bad_list(e, batches, "--batch"@),
        (Some(n), Some(b)) => match r {
            Err(e) => e matches CliError::Device(d) && devices_chosen(
                note_view(a.devices),
                live,
                Err::<Vec<String>, DeviceError>(d),
            ),
            Ok(p) => p.n_ffts@ == n && p.batches@ == b && devices_chosen(
                note_view(a.devices),
                live,
                Ok::<Vec<String>, DeviceError>(p.devices),
            ) && p.directions@ == if a.both_dirs || a.sweep_all {
                seq![TransformDir::Forward, TransformDir::Inverse]
            } else {
                seq![TransformDir::Forward]
            },
        },
    }
}

/// What a benchmark sweep covers.
pub fn plan_bench_sweep(a: &BenchSweepArgs, live: Available) -> (r: Result<SweepPlan, CliError>)
    ensures
        sweep_planned(*a, live, r),
{
    let sizes = match &a.n_fft {
        Some(s) => if a.sweep_all {
            default_n_fft_csv()
        } else {
            copy_text(s)
        },
        None => default_n_fft_csv(),
    };
    let batches = if a.sweep_all {
        DEFAULT_BATCH_CSV.to_owned()
    } else {
        copy_text(&a.batch)
    };
    let n_ffts = match read_numbers(sizes.as_str(), "--n-fft") {
        Ok(v) => v,
        Err(e) => {
            return Err(e);
        },
    };
    let batches = match read_numbers(batches.as_str(), "--batch") {
        Ok(v) => v,
        Err(e) => {
            return Err(e);
        },
    };
    match choose_devices(&a.devices, live) {
        Ok(devices) => Ok(
            SweepPlan {
                n_ffts,
                batches,
                devices,
                directions: directions_of(a.both_dirs || a.sweep_all),
            },
        ),
        Err(e) => Err(CliError::Device(e)),
    }
}

// ---------------------------------------------------------------------------
// Ablation studies
// ---------------------------------------------------------------------------

/// What an ablation study covers, and the directory for its files.
#[derive(Debug)]
pub struct AblationPlan {
    pub n_ffts: Vec<usize>,
    pub batches: Vec<usize>,
    pub devices: Vec<String>,
    /// Where CSV files go: asked for, or a default when any output is asked for.
    pub csv_dir: Option<String>,
}

/// The directory for CSV files of a study.
pub open spec fn study_csv_dir(a: AblationArgs) -> Option<Seq<char>> {
    match note_view(a.csv_dir) {
        Some(d) => Some(d),
        None => if a.json is Some || a.html is Some {
            Some("/tmp/rlx-fft-ablation-csv"@)
        } else {
            None
        },
    }
}

/// What an ablation study covers, or the first argument that is wrong.
pub open spec fn ablation_planned(a: AblationArgs, live: Available, r: Result<AblationPlan, CliError>) -> bool {
    match (numbers_of(a.n_fft@), numbers_of(a.batch@)) {
        (None, _) => r matches Err(e) && bad_list(e, a.n_fft@, "--n-fft"@),
        (_, None) => r matches Err(e) && bad_list(e, a.batch@, "--batch"@),
        (Some(n), Some(b)) => match r {
            Err(e) => e matches CliError::Device(d) && devices_chosen(
                note_view(a.devices),
                live,
                Err::<Vec<String>, DeviceError>(d),
            ),
            Ok(p) => p.n_ffts@ == n && p.batches@ == b && devices_chosen(
                note_view(a.devices),
                live,
                Ok::<Vec<String>, DeviceError>(p.devices),
            ) && note_view(p.csv_dir) == study_csv_dir(a),
        },
    }
}

/// What an ablation study covers.
pub fn plan_ablation_study(a: &AblationArgs, live: Available) -> (r: Result<AblationPlan, CliError>)
    ensures
        ablation_planned(*a, live, r),
{
    let n_ffts = match read_numbers(a.n_fft.as_str(), "--n-fft") {
        Ok(v) => v,
        Err(e) => {
            return Err(e);
        },
    };
    let batches = match read_numbers(a.batch.as_str(), "--batch") {
        Ok(v) => v,
        Err(e) => {
            return Err(e);
        },
    };
    let csv_dir = match &a.csv_dir {
        Some(d) => Some(copy_text(d)),
        None => if a.json.is_some() || a.html.is_some() {
            Some("/tmp/rlx-fft-ablation-csv".to_owned())
        } else {
            None
        },
    };
    match choose_devices(&a.devices, live) {
        Ok(devices) => Ok(AblationPlan { n_ffts, batches, devices, csv_dir }),
        Err(e) => Err(CliError::Device(e)),
    }
}

/// Where the ablation of a study report comes from.
#[derive(Debug)]
pub enum StudySource {
    /// Run a limit sweep on these devices.
    LimitSweep { devices: Vec<String> },
    /// Run an ablation.
    Run { n_ffts: Vec<usize>, batches: Vec<usize>, devices: Vec<String> },
    /// Read CSV files below a directory.
    CsvDir { dir: String },
    /// Read a JSON file.
    Json { path: String },
    /// None.
    Nothing,
}

/// What a study report does.
#[derive(Debug)]
pub struct StudyPlan {
    pub source: StudySource,
    pub html: String,
    /// Where the CSV files of the ablation go.
    pub csv_dir: Option<String>,
    /// Size and steps of the model studies.
    pub telemetry: Option<(usize, usize)>,
}

/// The non-blank entries of a list, trimmed.
pub open spec fn entries(parts: Seq<Seq<char>>) -> Seq<Seq<char>>
    decreases parts.len(),
{
    if parts.len() == 0 {
        Seq::empty()
    } else {
        let before = entries(parts.drop_last());
        let p = trimmed(parts.last());
        if p.len() == 0 {
            before
        } else {
            before.push(p)
        }
    }
}

/// The non-blank entries of a comma-separated list, trimmed.
pub fn list_entries(s: &str) -> (r: Vec<String>)
    ensures
        texts(r@) == entries(pieces(s@, ',')),
{
    let parts = split_text(s, ',');
    let ghost all = texts(parts@);
    let mut out: Vec<String> = Vec::new();
    let mut i: usize = 0;
    assert(texts(out@) =~= entries(all.take(0)));
    while i < parts.len()
        invariant
            i <= parts.len(),
            all == texts(parts@),
            texts(out@) == entries(all.take(i as int)),
        decreases parts.len() - i,
    {
        let ghost was = texts(out@);
        assert(all.take(i + 1).drop_last() =~= all.take(i as int));
        let p = trim_text(parts[i].as_str());
        if !p.as_str().is_empty() {
            let ghost pv = p@;
            out.push(p);
            assert(texts(out@) =~= was.push(pv));
        }
        i += 1;
    }
    assert(all.take(all.len() as int) =~= all);
    out
}

/// The devices of a study report.
pub open spec fn study_devices(a: StudyReportArgs, live: Available) -> Seq<Seq<char>> {
    match note_view(a.devices) {
        Some(csv) => entries(pieces(csv, ',')),
        None => labels(swept_devices(live)),
    }
}

/// Whether a study report runs its ablation itself.
pub open spec fn runs_ablation(a: StudyReportArgs) -> bool {
    a.run_ablation || a.limit_sweep
}

/// Whether a source is the one that the arguments ask for: a run when one is asked for, else the
/// CSV directory, else the JSON file.
pub open spec fn study_source(a: StudyReportArgs, live: Available, s: StudySource) -> bool {
    let devices = study_devices(a, live);
    if runs_ablation(a) {
        if a.limit_sweep {
            s matches StudySource::LimitSweep { devices: d } && texts(d@) == devices
        } else {
            s matches StudySource::Run { n_ffts, batches, devices: d } && texts(d@) == devices
                && Some(n_ffts@) == numbers_of(a.n_fft@) && Some(batches@) == numbers_of(a.batch@)
        }
    } else {
        match (note_view(a.ablation_csv_dir), note_view(a.ablation_json)) {
            (Some(d), _) => s matches StudySource::CsvDir { dir } && dir@ == d,
            (None, Some(p)) => s matches StudySource::Json { path } && path@ == p,
            (None, None) => s is Nothing,
        }
    }
}

/// Where the CSV files of a study report go.
pub open spec fn report_csv_dir(a: StudyReportArgs, s: StudySource) -> Option<Seq<char>> {
    if s is Nothing {
        None
    } else {
        match note_view(a.ablation_csv_out) {
            Some(d) => Some(d),
            None => if runs_ablation(a) {
                Some("/tmp/rlx-fft-study-csv"@)
            } else {
                None
            },
        }
    }
}

/// What a study report does, or what is wrong with its arguments.
pub open spec fn study_planned(a: StudyReportArgs, live: Available, r: Result<StudyPlan, CliError>) -> bool {
    if runs_ablation(a) && study_devices(a, live).len() == 0 {
        r matches Err(CliError::Device(d)) && d is NoneSelected
    } else if runs_ablation(a) && !a.limit_sweep && numbers_of(a.n_fft@) is None {
        r matches Err(e) && bad_list(e, a.n_fft@, "--n-fft"@)
    } else if runs_ablation(a) && !a.limit_sweep && numbers_of(a.batch@) is None {
        r matches Err(e) && bad_list(e, a.batch@, "--batch"@)
    } else if !runs_ablation(a) && a.ablation_csv_dir is None && a.ablation_json is None
        && a.train_json is None {
        r matches Err(CliError::Required { what }) && what@
            == "provide --ablation-csv-dir / --ablation-json / --train-json, or pass --run-ablation"@
    } else {
        r matches Ok(p) && study_source(a, live, p.source) && p.html@ == (match note_view(a.html) {
            Some(h) => h,
            None => "/tmp/rlx-fft-study.html"@,
        }) && note_view(p.csv_dir) == report_csv_dir(a, p.source) && p.telemetry
            == if a.run_model_studies {
            Some((a.model_study_n_fft, a.model_study_steps))
        } else {
            None
        }
    }
}

/// What a study report does.
pub fn plan_study_report(a: &StudyReportArgs, live: Available) -> (r: Result<StudyPlan, CliError>)
    ensures
        study_planned(*a, live, r),
{
    let source = if a.run_ablation || a.limit_sweep {
        let devices = match &a.devices {
            Some(csv) => list_entries(csv.as_str()),
            None => available_devices_in(live),
        };
        assert(texts(devices@) == study_devices(*a, live));
        if devices.len() == 0 {
            return Err(CliError::Device(DeviceError::NoneSelected));
        }
        if a.limit_sweep {
            StudySource::LimitSweep { devices }
        } else {
            let n_ffts = match read_numbers(a.n_fft.as_str(), "--n-fft") {
                Ok(v) => v,
                Err(e) => {
                    return Err(e);
                },
            };
            let batches = match read_numbers(a.batch.as_str(), "--batch") {
                Ok(v) => v,
                Err(e) => {
                    return Err(e);
                },
            };
            StudySource::Run { n_ffts, batches, devices }
        }
    } else {
        match &a.ablation_csv_dir {
            Some(d) => StudySource::CsvDir { dir: copy_text(d) },
            None => match &a.ablation_json {
                Some(p) => StudySource::Json { path: copy_text(p) },
                None => {
                    if a.train_json.is_none() {
                        return Err(
                            CliError::Required {
                                what: "provide --ablation-csv-dir / --ablation-json / --train-json, or pass --run-ablation",
                            },
                        );
                    }
                    StudySource::Nothing
                },
            },
        }
    };
    let html = match &a.html {
        Some(h) => copy_text(h),
        None => "/tmp/rlx-fft-study.html".to_owned(),
    };
    let csv_dir = match source {
        StudySource::Nothing => None,
        _ => match &a.ablation_csv_out {
            Some(d) => Some(copy_text(d)),
            None => if a.run_ablation || a.limit_sweep {
                Some("/tmp/rlx-fft-study-csv".to_owned())
            } else {
                None
            },
        },
    };
    let telemetry = if a.run_model_studies {
        Some((a.model_study_n_fft, a.model_study_steps))
    } else {
        None
    };
    Ok(StudyPlan { source, html, csv_dir, telemetry })
}

// ---------------------------------------------------------------------------
// Benches and multi-size training
// ---------------------------------------------------------------------------

/// What an end-to-end bench covers.
#[derive(Debug)]
pub struct BenchE2ePlan {
    pub batches: Vec<usize>,
    pub devices: Vec<String>,
    pub flags: TrainFlags,
}

/// What is trained first: distilling is asked for by any of its flags, and the one given last says
/// whether ternary distilling comes too.
pub open spec fn train_flags(a: BenchE2eArgs) -> TrainFlags {
    TrainFlags {
        train_first: a.train_first,
        distill_first: a.distill is Some,
        ternary_distill_first: a.distill == Some(true),
    }
}

/// What an end-to-end bench covers, or the first argument that is wrong.
pub open spec fn e2e_planned(a: BenchE2eArgs, live: Available, r: Result<BenchE2ePlan, CliError>) -> bool {
    match r {
        Ok(p) => list_outcome(a.batch@, "--batch"@, Ok::<Vec<usize>, ListError>(p.batches))
            && device_list_outcome(a.device@, live, Ok::<Vec<String>, DeviceError>(p.devices))
            && p.flags == train_flags(a),
        Err(CliError::List(e)) => list_outcome(
            a.batch@,
            "--batch"@,
            Err::<Vec<usize>, ListError>(e),
        ),
        Err(CliError::Device(e)) => list_readable(a.batch@) && device_list_outcome(
            a.device@,
            live,
            Err::<Vec<String>, DeviceError>(e),
        ),
        Err(_) => false,
    }
}

/// What an end-to-end bench covers.
pub fn plan_bench_e2e(a: &BenchE2eArgs, live: Available) -> (r: Result<BenchE2ePlan, CliError>)
    ensures
        e2e_planned(*a, live, r),
{
    let read = parse_batch_spec(a.batch.as_str(), "--batch");
    proof {
        crate::spec_list::readable_lists_are_read(a.batch@, "--batch"@, read);
    }
    let batches = match read {
        Ok(v) => v,
        Err(e) => {
            return Err(CliError::List(e));
        },
    };
    let devices = match parse_bench_device_list_in(a.device.as_str(), live) {
        Ok(v) => v,
        Err(e) => {
            return Err(CliError::Device(e));
        },
    };
    let flags = TrainFlags {
        train_first: a.train_first,
        distill_first: a.distill.is_some(),
        ternary_distill_first: match a.distill {
            Some(t) => t,
            None => false,
        },
    };
    Ok(BenchE2ePlan { batches, devices, flags })
}

/// Whether a text holds a character.
pub fn holds_char(s: &str, c: char) -> (r: bool)
    ensures
        r == s@.contains(c),
{
    let chars = chars_of(s);
    let mut i: usize = 0;
    while i < chars.len()
        invariant
            i <= chars.len(),
            chars@ == s@,
            forall|k: int| 0 <= k < i ==> chars@[k] != c,
        decreases chars.len() - i,
    {
        if chars[i] == c {
            assert(chars@[i as int] == c);
            return true;
        }
        i += 1;
    }
    false
}

/// Whether a list text is neither a list nor a range.
pub open spec fn single_text(s: Seq<char>) -> bool {
    !s.contains(',') && !s.contains('-')
}

/// What a Welch peaks bench covers.
#[derive(Debug)]
pub struct PeaksPlan {
    pub batches: Vec<usize>,
    pub ks: Vec<usize>,
    /// Whether one bench runs, and no sweep.
    pub single: bool,
}

/// What a Welch peaks bench covers, or the first list that is wrong.
pub open spec fn peaks_planned(batch: Seq<char>, k: Seq<char>, r: Result<PeaksPlan, ListError>) -> bool {
    match r {
        Ok(p) => list_outcome(batch, "--batch"@, Ok::<Vec<usize>, ListError>(p.batches))
            && list_outcome(k, "--k"@, Ok::<Vec<usize>, ListError>(p.ks)) && p.batches@.len() > 0
            && p.ks@.len() > 0 && p.single == (p.batches@.len() == 1 && p.ks@.len() == 1
            && single_text(batch) && single_text(k)),
        Err(e) => if !list_readable(batch) {
            list_outcome(batch, "--batch"@, Err::<Vec<usize>, ListError>(e))
        } else {
            list_outcome(k, "--k"@, Err::<Vec<usize>, ListError>(e))
        },
    }
}

/// What a Welch peaks bench covers.
pub fn plan_welch_peaks(batch: &str, k: &str) -> (r: Result<PeaksPlan, ListError>)
    ensures
        peaks_planned(batch@, k@, r),
{
    let read = parse_batch_spec(batch, "--batch");
    proof {
        crate::spec_list::readable_lists_are_read(batch@, "--batch"@, read);
    }
    let batches = match read {
        Ok(v) => v,
        Err(e) => {
            return Err(e);
        },
    };
    let ks = match parse_k_spec(k, "--k") {
        Ok(v) => v,
        Err(e) => {
            return Err(e);
        },
    };
    proof {
        crate::spec_list::lists_are_not_empty(
            batch@,
            "--batch"@,
            Ok::<Vec<usize>, ListError>(batches),
        );
        crate::spec_list::lists_are_not_empty(k@, "--k"@, Ok::<Vec<usize>, ListError>(ks));
    }
    let single = batches.len() == 1 && ks.len() == 1 && !holds_char(batch, ',') && !holds_char(
        batch,
        '-',
    ) && !holds_char(k, ',') && !holds_char(k, '-');
    Ok(PeaksPlan { batches, ks, single })
}

/// What a fusion bench covers: the batches, and whether it is one bench and no sweep.
pub fn plan_fusion_phases(batch: &str) -> (r: Result<(Vec<usize>, bool), ListError>)
    ensures
        match r {
            Ok(p) => list_outcome(batch@, "--batch"@, Ok::<Vec<usize>, ListError>(p.0))
                && p.0@.len() > 0 && p.1 == (p.0@.len() == 1 && single_text(batch@)),
            Err(e) => list_outcome(batch@, "--batch"@, Err::<Vec<usize>, ListError>(e)),
        },
{
    match parse_batch_spec(batch, "--batch") {
        Ok(v) => {
            proof {
                crate::spec_list::lists_are_not_empty(
                    batch@,
                    "--batch"@,
                    Ok::<Vec<usize>, ListError>(v),
                );
            }
            let single = v.len() == 1 && !holds_char(batch, ',') && !holds_char(batch, '-');
            Ok((v, single))
        },
        Err(e) => Err(e),
    }
}

/// What multi-size training covers.
#[derive(Debug)]
pub struct MultiPlan {
    pub n_ffts: Vec<usize>,
    pub schedules: Vec<MultiTrainSchedule>,
}

/// What multi-size training covers, or the first list that is wrong.
pub open spec fn multi_planned(a: TrainMultiArgs, r: Result<MultiPlan, CliError>) -> bool {
    match numbers_of(a.n_fft@) {
        None => r matches Err(e) && bad_list(e, a.n_fft@, "--n-fft"@),
        Some(n) => match schedules_of(lower_entries(pieces(a.schedules@, ','))) {
            Err(s) => r matches Err(CliError::Config(ConfigError::UnknownSchedule { name })) && name@
                == s,
            Ok(v) => if v.len() == 0 {
                r matches Err(CliError::Config(e)) && e is NoSchedules
            } else {
                r matches Ok(p) && p.n_ffts@ == n && p.schedules@ == v
            },
        },
    }
}

/// What multi-size training covers.
pub fn plan_train_multi(a: &TrainMultiArgs) -> (r: Result<MultiPlan, CliError>)
    ensures
        multi_planned(*a, r),
{
    let n_ffts = match read_numbers(a.n_fft.as_str(), "--n-fft") {
        Ok(v) => v,
        Err(e) => {
            return Err(e);
        },
    };
    match MultiTrainSchedule::parse_csv(a.schedules.as_str()) {
        Ok(schedules) => Ok(MultiPlan { n_ffts, schedules }),
        Err(e) => Err(CliError::Config(e)),
    }
}

/// An argument that a subcommand cannot do without.
pub fn required(value: &Option<String>, what: &'static str) -> (r: Result<String, CliError>)
    ensures
        match note_view(*value) {
            Some(s) => r matches Ok(t) && t@ == s,
            None => r matches Err(CliError::Required { what: w }) && w@ == what@,
        },
{
    match value {
        Some(s) => Ok(copy_text(s)),
        None => Err(CliError::Required { what }),
    }
}

// ---------------------------------------------------------------------------
// Ternary ablation
// ---------------------------------------------------------------------------

/// The arguments of a ternary ablation.
#[derive(Debug)]
pub struct AblationTernaryArgs {
    pub quick: bool,
    pub iters: usize,
    pub teacher_steps: usize,
    pub distill_steps: usize,
    pub ternary_steps: usize,
    pub seed: u64,
    pub n_fft: Option<String>,
    pub batch: Option<String>,
    pub devices: Option<String>,
    pub prune_targets: Option<String>,
    pub json: Option<String>,
    pub csv: Option<String>,
    pub html: Option<String>,
}

/// What was given after the last `--quick`, which resets everything numeric before it.
pub open spec fn since_quick(ev: Seq<(Opt, ValView)>) -> Seq<(Opt, ValView)>
    decreases ev.len(),
{
    if ev.len() == 0 || ev.last().0 == Opt::Quick {
        Seq::empty()
    } else {
        since_quick(ev.drop_last()).push(ev.last())
    }
}

/// A default, or the one of a quick study.
pub open spec fn either(quick: bool, fast: usize, full: usize) -> usize {
    if quick {
        fast
    } else {
        full
    }
}

/// Whether arguments are those that were read.
pub open spec fn ablation_ternary_args(ev: Seq<(Opt, ValView)>, a: AblationTernaryArgs) -> bool {
    let late = since_quick(ev);
    &&& a.quick == (last_value(ev, Opt::Quick) is Some)
    &&& a.iters == count_or(late, Opt::Iters, either(a.quick, 12, 20))
    &&& a.teacher_steps == count_or(late, Opt::TeacherSteps, either(a.quick, 200, 400))
    &&& a.distill_steps == count_or(late, Opt::DistillSteps, either(a.quick, 300, 600))
    &&& a.ternary_steps == count_or(late, Opt::TernarySteps, either(a.quick, 300, 600))
    &&& a.seed == seed_or(late, Opt::Seed, 42)
    &&& note_view(a.n_fft) == text_given(ev, Opt::NFft)
    &&& note_view(a.batch) == text_given(ev, Opt::Batch)
    &&& note_view(a.devices) == text_given(ev, Opt::Devices)
    &&& note_view(a.prune_targets) == text_given(ev, Opt::PruneTargets)
    &&& note_view(a.json) == text_given(ev, Opt::Json)
    &&& note_view(a.csv) == text_given(ev, Opt::Csv)
    &&& note_view(a.html) == text_given(ev, Opt::Html)
}

pub open spec fn ablation_ternary_run(
    ev: Seq<(Opt, ValView)>,
    o: Outcome<AblationTernaryArgs>,
) -> bool {
    o matches Outcome::Run(a) && ablation_ternary_args(ev, a)
}

fn after_quick(ev: &Vec<(Opt, Val)>) -> (r: usize)
    ensures
        r <= ev.len(),
        events(ev@).skip(r as int) == since_quick(events(ev@)),
        (r > 0) == (last_value(events(ev@), Opt::Quick) is Some),
{
    let ghost v = events(ev@);
    let mut i: usize = ev.len();
    assert(v.take(i as int) =~= v);
    assert(since_quick(v) =~= since_quick(v.take(i as int)) + v.skip(i as int));
    while i > 0
        invariant
            i <= ev.len(),
            v == events(ev@),
            since_quick(v) == since_quick(v.take(i as int)) + v.skip(i as int),
            last_value(v, Opt::Quick) == last_value(v.take(i as int), Opt::Quick),
        decreases i,
    {
        let ghost t = v.take(i as int);
        assert(t.last() == v[i - 1]);
        assert(t.drop_last() =~= v.take(i - 1));
        if ev[i - 1].0 == Opt::Quick {
            assert(v.skip(i as int) =~= Seq::<(Opt, ValView)>::empty() + v.skip(i as int));
            return i;
        }
        assert(since_quick(t.drop_last()).push(v[i - 1]) + v.skip(i as int) =~= since_quick(
            v.take(i - 1),
        ) + v.skip(i - 1));
        i -= 1;
    }
    assert(v.take(0) =~= Seq::empty());
    assert(since_quick(v.take(0)) + v.skip(0) =~= v.skip(0));
    0
}

fn find_late(ev: &Vec<(Opt, Val)>, from: usize, o: Opt) -> (r: Option<usize>)
    requires
        from <= ev.len(),
    ensures
        match r {
            Some(i) => i < ev.len() && last_value(events(ev@).skip(from as int), o) == Some(
                ev@[i as int].1@,
            ),
            None => last_value(events(ev@).skip(from as int), o) is None,
        },
{
    let ghost v = events(ev@).skip(from as int);
    let mut i: usize = ev.len();
    assert(v.take(i - from) =~= v);
    while i > from
        invariant
            from <= i <= ev.len(),
            v == events(ev@).skip(from as int),
            last_value(v, o) == last_value(v.take(i - from), o),
        decreases i,
    {
        assert(v.take(i - from).last() == events(ev@)[i - 1]);
        assert(v.take(i - from).drop_last() =~= v.take(i - from - 1));
        if ev[i - 1].0 == o {
            return Some(i - 1);
        }
        i -= 1;
    }
    None
}

fn late_count(ev: &Vec<(Opt, Val)>, from: usize, o: Opt, default: usize) -> (r: usize)
    requires
        from <= ev.len(),
    ensures
        r == count_or(events(ev@).skip(from as int), o, default),
{
    match find_late(ev, from, o) {
        Some(i) => match &ev[i].1 {
            Val::Count(n) => *n,
            _ => default,
        },
        None => default,
    }
}

fn late_seed(ev: &Vec<(Opt, Val)>, from: usize, o: Opt, default: u64) -> (r: u64)
    requires
        from <= ev.len(),
    ensures
        r == seed_or(events(ev@).skip(from as int), o, default),
{
    match find_late(ev, from, o) {
        Some(i) => match &ev[i].1 {
            Val::Seed(n) => *n,
            _ => default,
        },
        None => default,
    }
}

fn pick(quick: bool, fast: usize, full: usize) -> (r: usize)
    ensures
        r == either(quick, fast, full),
{
    if quick {
        fast
    } else {
        full
    }
}

/// Reads the arguments of a ternary ablation.
pub fn parse_ablation_ternary(args: &Vec<String>) -> (r: Parsed<AblationTernaryArgs>)
    ensures
        parsed_by(
            texts(args@),
            ABLATION_TERNARY@,
            r,
            |ev: Seq<(Opt, ValView)>, o: Outcome<AblationTernaryArgs>| ablation_ternary_run(ev, o),
        ),
{
    let (ev, end) = scan_args(args, ABLATION_TERNARY.as_slice());
    let deferred = deferred_texts(&ev);
    let outcome = match end {
        End::Help => Outcome::Help,
        End::Failed(e) => Outcome::Failed(e),
        End::Finished => {
            let at: usize = after_quick(&ev);
            let quick = at > 0;
            Outcome::Run(
                AblationTernaryArgs {
                    quick,
                    iters: late_count(&ev, at, Opt::Iters, pick(quick, 12, 20)),
                    teacher_steps: late_count(&ev, at, Opt::TeacherSteps, pick(quick, 200, 400)),
                    distill_steps: late_count(&ev, at, Opt::DistillSteps, pick(quick, 300, 600)),
                    ternary_steps: late_count(&ev, at, Opt::TernarySteps, pick(quick, 300, 600)),
                    seed: late_seed(&ev, at, Opt::Seed, 42),
                    n_fft: get_text_given(&ev, Opt::NFft),
                    batch: get_text_given(&ev, Opt::Batch),
                    devices: get_text_given(&ev, Opt::Devices),
                    prune_targets: get_text_given(&ev, Opt::PruneTargets),
                    json: get_text_given(&ev, Opt::Json),
                    csv: get_text_given(&ev, Opt::Csv),
                    html: get_text_given(&ev, Opt::Html),
                },
            )
        },
    };
    Parsed { deferred, outcome }
}

/// What a ternary ablation covers.
#[derive(Debug)]
pub struct TernaryPlanLists {
    pub n_ffts: Vec<usize>,
    pub batches: Vec<usize>,
    pub devices: Vec<String>,
}

/// What a ternary ablation covers, or the first argument that is wrong: one size and one batch
/// where none are given, and every device a sweep covers for none or `auto`.
pub open spec fn ternary_planned(
    a: AblationTernaryArgs,
    live: Available,
    r: Result<TernaryPlanLists, CliError>,
) -> bool {
    let n = match note_view(a.n_fft) {
        Some(s) => numbers_of(s),
        None => Some(seq![128usize]),
    };
    let b = match note_view(a.batch) {
        Some(s) => numbers_of(s),
        None => Some(seq![8usize]),
    };
    let asked = match note_view(a.devices) {
        Some(s) if s == "auto"@ => None,
        other => other,
    };
    match (n, b) {
        (None, _) => r matches Err(e) && bad_list(e, note_view(a.n_fft)->0, "--n-fft"@),
        (_, None) => r matches Err(e) && bad_list(e, note_view(a.batch)->0, "--batch"@),
        (Some(n), Some(b)) => match r {
            Err(e) => e matches CliError::Device(d) && devices_chosen(
                asked,
                live,
                Err::<Vec<String>, DeviceError>(d),
            ),
            Ok(p) => p.n_ffts@ == n && p.batches@ == b && devices_chosen(
                asked,
                live,
                Ok::<Vec<String>, DeviceError>(p.devices),
            ),
        },
    }
}

/// What a ternary ablation covers.
pub fn plan_ternary_lists(a: &AblationTernaryArgs, live: Available) -> (r: Result<
    TernaryPlanLists,
    CliError,
>)
    ensures
        ternary_planned(*a, live, r),
{
    let n_ffts = match &a.n_fft {
        Some(s) => match read_numbers(s.as_str(), "--n-fft") {
            Ok(v) => v,
            Err(e) => {
                return Err(e);
            },
        },
        None => {
            let v: Vec<usize> = vec![128];
            assert(v@ =~= seq![128usize]);
            v
        },
    };
    let batches = match &a.batch {
        Some(s) => match read_numbers(s.as_str(), "--batch") {
            Ok(v) => v,
            Err(e) => {
                return Err(e);
            },
        },
        None => {
            let v: Vec<usize> = vec![8];
            assert(v@ =~= seq![8usize]);
            v
        },
    };
    let chosen = match &a.devices {
        Some(s) => if same_text(s.as_str(), "auto") {
            Ok(available_devices_in(live))
        } else {
            parse_bench_device_list_in(s.as_str(), live)
        },
        None => Ok(available_devices_in(live)),
    };
    match chosen {
        Ok(devices) => Ok(TernaryPlanLists { n_ffts, batches, devices }),
        Err(e) => Err(CliError::Device(e)),
    }
}

} // verus!

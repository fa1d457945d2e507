//! Command-line arguments: one scanner over tables of flags, and the options of each subcommand.

use crate::ablation::note_view;
use crate::config::{dir_named, parse_n_fft, parse_transform_dir, size_read, ConfigError, TransformDir};
use crate::device::DeviceError;
use crate::spec_list::{csv_outcome, listed, parse_csv_usize, ListError};
use crate::text::{copy_text, lower_text, number_within, parse_u64, parse_usize, pieces, same_text, texts,
    to_lower, trim_text, trimmed};
use vstd::prelude::*;

verus! {

/// What an argument sets.
#[derive(Debug, Clone, Copy, PartialEq, Eq, Structural)]
pub enum Opt {
    All,
    AblationCsvDir,
    AblationCsvOut,
    AblationJson,
    AblationOut,
    Batch,
    Batches,
    BothDirs,
    Compile,
    ComputeWeight,
    ConvergeDelta,
    ConvergeEvery,
    ConvergePatience,
    Csv,
    CsvDir,
    DecoderSteps,
    Device,
    Devices,
    Dir,
    Direction,
    Distill,
    DistillSteps,
    Dtype,
    EagerLearned,
    EncoderSteps,
    EvalBatches,
    GateLr,
    GradClip,
    HalfWeight,
    Help,
    Html,
    Iters,
    JointSteps,
    Json,
    K,
    LearnedCompiled,
    LearnedDistilled,
    LearnedHard,
    LearnedTernary,
    Limbs,
    LimitSweep,
    LogEvery,
    Lr,
    MaxIters,
    Md,
    MelWeight,
    MinSteps,
    ModelStudies,
    ModelStudyNFft,
    ModelStudySteps,
    NFft,
    NMels,
    Optimizer,
    Out,
    PeakK,
    PeakWeight,
    Perturb,
    ProjectTwiddles,
    PruneTargets,
    Quick,
    RunAblation,
    Schedules,
    Seed,
    SparsityWeight,
    SpectrumWeight,
    Steps,
    Strategy,
    TargetComputeFraction,
    TeacherSteps,
    TernarySteps,
    TrainFirst,
    TrainJson,
    TrainQ8,
    TrainSteps,
    UltraFast,
    UntilConverged,
    UseFusedTrain,
    Weights,
    WelchWeight,
    WithCompiled,
    WithWelch,
}

/// How an argument is read.
#[derive(Debug, Clone, Copy, PartialEq, Eq, Structural)]
pub enum Kind {
    /// A switch that turns something on.
    On,
    /// A switch that turns something off.
    Off,
    /// A switch for the inverse direction.
    Inverse,
    /// A request for help: nothing after it is read.
    Help,
    /// A text.
    Text,
    /// A text that its user reads, such as a fraction.
    Deferred,
    /// A count.
    Count,
    /// A 64-bit number.
    Seed,
    /// A transform size.
    Size,
    /// A direction.
    Dir,
    /// A comma-separated list of counts.
    Counts,
    /// The name of a number format, read as its width in bytes.
    Dtype,
}

/// A flag: its name, what it sets, how it is read, and how errors call it.
pub type Flag = (&'static str, Opt, Kind, &'static str);

/// What a read argument holds.
#[derive(Debug)]
pub enum Val {
    Flag(bool),
    Text(String),
    Deferred(&'static str, String),
    Count(usize),
    Seed(u64),
    Dir(TransformDir),
    Counts(Vec<usize>),
}

/// What a value stands for.
pub enum ValView {
    Flag(bool),
    Text(Seq<char>),
    Deferred(Seq<char>, Seq<char>),
    Count(usize),
    Seed(u64),
    Dir(TransformDir),
    Counts(Seq<usize>),
}

impl View for Val {
    type V = ValView;

    open spec fn view(&self) -> ValView {
        match self {
            Val::Flag(b) => ValView::Flag(*b),
            Val::Text(s) => ValView::Text(s@),
            Val::Deferred(l, s) => ValView::Deferred(l@, s@),
            Val::Count(n) => ValView::Count(*n),
            Val::Seed(n) => ValView::Seed(*n),
            Val::Dir(d) => ValView::Dir(*d),
            Val::Counts(v) => ValView::Counts(v@),
        }
    }
}

/// The views of read arguments.
pub open spec fn events(v: Seq<(Opt, Val)>) -> Seq<(Opt, ValView)> {
    v.map_values(|e: (Opt, Val)| (e.0, e.1@))
}

/// What is wrong with the arguments.
#[derive(Debug)]
pub enum CliError {
    UnknownCommand { name: String },
    UnknownFlag { flag: String },
    MissingValue { flag: String },
    BadNumber { label: &'static str },
    BadDtype { text: String },
    BadPrecision { text: String },
    /// An argument that the subcommand cannot do without.
    Required { what: &'static str },
    Config(ConfigError),
    List(ListError),
    Device(DeviceError),
}

/// What stops a reading.
pub enum Fault {
    UnknownFlag(Seq<char>),
    MissingValue(Seq<char>),
    BadNumber(Seq<char>),
    BadDtype(Seq<char>),
    BadSize(Seq<char>),
    BadDir(Seq<char>),
    BadList(Seq<char>, Seq<char>),
}

/// Whether an error reports a fault.
pub open spec fn error_is(e: CliError, f: Fault) -> bool {
    match f {
        Fault::UnknownFlag(s) => e matches CliError::UnknownFlag { flag } && flag@ == s,
        Fault::MissingValue(s) => e matches CliError::MissingValue { flag } && flag@ == s,
        Fault::BadNumber(s) => e matches CliError::BadNumber { label } && label@ == s,
        Fault::BadDtype(s) => e matches CliError::BadDtype { text } && text@ == s,
        Fault::BadSize(s) => e matches CliError::Config(c) && size_read(s) == Err::<
            usize,
            ConfigError,
        >(c),
        Fault::BadDir(s) => e matches CliError::Config(ConfigError::UnknownDirection { name })
            && name@ == lower_text(s),
        Fault::BadList(s, label) => e matches CliError::List(l) && csv_outcome(
            s,
            label,
            Err::<Vec<usize>, ListError>(l),
        ),
    }
}

/// The width in bytes of a named number format.
pub open spec fn dtype_bytes(s: Seq<char>) -> Option<usize> {
    if s == "f16"@ || s == "bf16"@ {
        Some(2)
    } else if s == "f32"@ {
        Some(4)
    } else if s == "f64"@ {
        Some(8)
    } else {
        None
    }
}

/// What a switch holds.
pub open spec fn switch_value(k: Kind) -> Option<ValView> {
    match k {
        Kind::On => Some(ValView::Flag(true)),
        Kind::Off => Some(ValView::Flag(false)),
        Kind::Inverse => Some(ValView::Dir(TransformDir::Inverse)),
        _ => None,
    }
}

/// What an argument with a value holds.
pub open spec fn value_read(k: Kind, label: Seq<char>, s: Seq<char>) -> Result<ValView, Fault> {
    match k {
        Kind::Deferred => Ok(ValView::Deferred(label, s)),
        Kind::Count => match number_within(s, usize::MAX as nat) {
            Some(n) => Ok(ValView::Count(n as usize)),
            None => Err(Fault::BadNumber(label)),
        },
        Kind::Seed => match number_within(s, u64::MAX as nat) {
            Some(n) => Ok(ValView::Seed(n as u64)),
            None => Err(Fault::BadNumber(label)),
        },
        Kind::Size => match size_read(s) {
            Ok(n) => Ok(ValView::Count(n)),
            Err(_) => Err(Fault::BadSize(s)),
        },
        Kind::Dir => match dir_named(lower_text(s)) {
            Some(d) => Ok(ValView::Dir(d)),
            None => Err(Fault::BadDir(s)),
        },
        Kind::Counts => match listed(pieces(s, ',')) {
            Ok(v) => if v.len() > 0 {
                Ok(ValView::Counts(v))
            } else {
                Err(Fault::BadList(s, label))
            },
            Err(_) => Err(Fault::BadList(s, label)),
        },
        Kind::Dtype => match dtype_bytes(lower_text(trimmed(s))) {
            Some(n) => Ok(ValView::Count(n)),
            None => Err(Fault::BadDtype(lower_text(trimmed(s)))),
        },
        _ => Ok(ValView::Text(s)),
    }
}

/// How a reading ends.
pub enum EndView {
    Finished,
    Help,
    Failed(Fault),
}

/// The flag of a table with a name.
pub open spec fn flag_named(table: Seq<Flag>, name: Seq<char>) -> Option<Flag>
    decreases table.len(),
{
    if table.len() == 0 {
        None
    } else if table[0].0@ == name {
        Some(table[0])
    } else {
        flag_named(table.drop_first(), name)
    }
}

/// Reads arguments from left to right: every flag of the table with its value, until a request for
/// help or the first fault.
pub open spec fn scan(args: Seq<Seq<char>>, table: Seq<Flag>) -> (Seq<(Opt, ValView)>, EndView)
    decreases args.len(),
{
    if args.len() == 0 {
        (Seq::empty(), EndView::Finished)
    } else {
        match flag_named(table, args[0]) {
            None => (Seq::empty(), EndView::Failed(Fault::UnknownFlag(args[0]))),
            Some(f) => if f.2 is Help {
                (Seq::empty(), EndView::Help)
            } else {
                match switch_value(f.2) {
                    Some(v) => {
                        let (rest, end) = scan(args.skip(1), table);
                        (seq![(f.1, v)] + rest, end)
                    },
                    None => if args.len() < 2 {
                        (Seq::empty(), EndView::Failed(Fault::MissingValue(args[0])))
                    } else {
                        match value_read(f.2, f.3@, args[1]) {
                            Err(e) => (Seq::empty(), EndView::Failed(e)),
                            Ok(v) => {
                                let (rest, end) = scan(args.skip(2), table);
                                (seq![(f.1, v)] + rest, end)
                            },
                        }
                    },
                }
            },
        }
    }
}

/// How a reading ended.
#[derive(Debug)]
pub enum End {
    Finished,
    Help,
    Failed(CliError),
}

/// Whether a reading ended as described.
pub open spec fn end_is(e: End, v: EndView) -> bool {
    match v {
        EndView::Finished => e is Finished,
        EndView::Help => e is Help,
        EndView::Failed(f) => e matches End::Failed(c) && error_is(c, f),
    }
}

/// The argument behind the flag at `i`, where there is one.
fn value_behind(args: &Vec<String>, i: usize) -> (r: Option<String>)
    requires
        i < args.len(),
    ensures
        match r {
            Some(s) => i + 1 < args.len() && s@ == args@[i + 1]@,
            None => i + 1 == args.len(),
        },
{
    let len: usize = args.len();
    if i + 1 < len {
        Some(copy_text(&args[i + 1]))
    } else {
        None
    }
}

fn find_flag(table: &[Flag], name: &str) -> (r: Option<usize>)
    ensures
        match r {
            Some(i) => i < table@.len() && flag_named(table@, name@) == Some(table@[i as int]),
            None => flag_named(table@, name@) is None,
        },
{
    let mut i: usize = 0;
    assert(table@.skip(0) =~= table@);
    while i < table.len()
        invariant
            i <= table.len(),
            flag_named(table@, name@) == flag_named(table@.skip(i as int), name@),
        decreases table.len() - i,
    {
        assert(table@.skip(i as int)[0] == table@[i as int]);
        if same_text(table[i].0, name) {
            return Some(i);
        }
        assert(table@.skip(i as int).drop_first() =~= table@.skip(i + 1));
        i += 1;
    }
    None
}

fn read_dtype(s: &str) -> (r: Result<usize, CliError>)
    ensures
        match dtype_bytes(lower_text(trimmed(s@))) {
            Some(n) => r == Ok::<usize, CliError>(n),
            None => r matches Err(CliError::BadDtype { text }) && text@ == lower_text(trimmed(s@)),
        },
{
    let text = to_lower(trim_text(s).as_str());
    let t = text.as_str();
    if same_text(t, "f16") || same_text(t, "bf16") {
        Ok(2)
    } else if same_text(t, "f32") {
        Ok(4)
    } else if same_text(t, "f64") {
        Ok(8)
    } else {
        Err(CliError::BadDtype { text })
    }
}

fn read_value(k: Kind, label: &'static str, s: String) -> (r: Result<Val, CliError>)
    ensures
        match value_read(k, label@, s@) {
            Ok(v) => r matches Ok(x) && x@ == v,
            Err(f) => r matches Err(e) && error_is(e, f),
        },
{
    match k {
        Kind::Deferred => Ok(Val::Deferred(label, s)),
        Kind::Count => match parse_usize(s.as_str()) {
            Some(n) => Ok(Val::Count(n)),
            None => Err(CliError::BadNumber { label }),
        },
        Kind::Seed => match parse_u64(s.as_str()) {
            Some(n) => Ok(Val::Seed(n)),
            None => Err(CliError::BadNumber { label }),
        },
        Kind::Size => match parse_n_fft(s.as_str()) {
            Ok(n) => Ok(Val::Count(n)),
            Err(e) => Err(CliError::Config(e)),
        },
        Kind::Dir => match parse_transform_dir(s.as_str()) {
            Ok(d) => Ok(Val::Dir(d)),
            Err(e) => Err(CliError::Config(e)),
        },
        Kind::Counts => match parse_csv_usize(s.as_str(), label) {
            Ok(v) => Ok(Val::Counts(v)),
            Err(e) => Err(CliError::List(e)),
        },
        Kind::Dtype => match read_dtype(s.as_str()) {
            Ok(n) => Ok(Val::Count(n)),
            Err(e) => Err(e),
        },
        _ => Ok(Val::Text(s)),
    }
}

proof fn lemma_prepend(
    out: Seq<(Opt, ValView)>,
    e: (Opt, ValView),
    rest: (Seq<(Opt, ValView)>, EndView),
    now: (Seq<(Opt, ValView)>, EndView),
)
    requires
        now == (seq![e] + rest.0, rest.1),
    ensures
        out + now.0 == out.push(e) + rest.0,
{
    assert(out + now.0 =~= out.push(e) + rest.0);
}

/// Reads arguments by a table of flags.
pub fn scan_args(args: &Vec<String>, table: &[Flag]) -> (r: (Vec<(Opt, Val)>, End))
    ensures
        events(r.0@) == scan(texts(args@), table@).0,
        end_is(r.1, scan(texts(args@), table@).1),
{
    let ghost all = texts(args@);
    let mut out: Vec<(Opt, Val)> = Vec::new();
    let mut i: usize = 0;
    proof {
        assert(all.skip(0) =~= all);
        assert(events(out@) + scan(all, table@).0 =~= scan(all, table@).0);
    }
    while i < args.len()
        invariant
            i <= args.len(),
            all == texts(args@),
            scan(all, table@).0 == events(out@) + scan(all.skip(i as int), table@).0,
            scan(all, table@).1 == scan(all.skip(i as int), table@).1,
        decreases args.len() - i,
    {
        let ghost here = all.skip(i as int);
        assert(here[0] == args@[i as int]@);
        let ghost was = events(out@);
        assert(was + Seq::<(Opt, ValView)>::empty() =~= was);
        let at = match find_flag(table, args[i].as_str()) {
            Some(k) => k,
            None => {
                return (out, End::Failed(CliError::UnknownFlag { flag: copy_text(&args[i]) }));
            },
        };
        let f = table[at];
        let switch = match f.2 {
            Kind::Help => {
                return (out, End::Help);
            },
            Kind::On => Some(Val::Flag(true)),
            Kind::Off => Some(Val::Flag(false)),
            Kind::Inverse => Some(Val::Dir(TransformDir::Inverse)),
            _ => None,
        };
        match switch {
            Some(v) => {
                proof {
                    lemma_prepend(was, (f.1, v@), scan(here.skip(1), table@), scan(here, table@));
                    assert(here.skip(1) =~= all.skip(i + 1));
                }
                let ghost e = (f.1, v@);
                out.push((f.1, v));
                assert(events(out@) =~= was.push(e));
                i += 1;
            },
            None => {
                match value_behind(args, i) {
                    None => {
                        return (
                            out,
                            End::Failed(CliError::MissingValue { flag: copy_text(&args[i]) }),
                        );
                    },
                    Some(s) => {
                        assert(here[1] == args@[i + 1]@);
                        match read_value(f.2, f.3, s) {
                            Err(e) => {
                                return (out, End::Failed(e));
                            },
                            Ok(v) => {
                                proof {
                                    lemma_prepend(
                                        was,
                                        (f.1, v@),
                                        scan(here.skip(2), table@),
                                        scan(here, table@),
                                    );
                                    assert(here.skip(2) =~= all.skip(i + 2));
                                }
                                let ghost e = (f.1, v@);
                                out.push((f.1, v));
                                assert(events(out@) =~= was.push(e));
                                i += 2;
                            },
                        }
                    },
                }
            },
        }
    }
    assert(all.skip(i as int) =~= Seq::empty());
    assert(events(out@) + Seq::<(Opt, ValView)>::empty() =~= events(out@));
    (out, End::Finished)
}

// ---------------------------------------------------------------------------
// The last value of an option
// ---------------------------------------------------------------------------

/// The last value given for an option.
pub open spec fn last_value(ev: Seq<(Opt, ValView)>, o: Opt) -> Option<ValView>
    decreases ev.len(),
{
    if ev.len() == 0 {
        None
    } else if ev.last().0 == o {
        Some(ev.last().1)
    } else {
        last_value(ev.drop_last(), o)
    }
}

/// The count given last, or a default.
pub open spec fn count_or(ev: Seq<(Opt, ValView)>, o: Opt, default: usize) -> usize {
    match last_value(ev, o) {
        Some(ValView::Count(n)) => n,
        _ => default,
    }
}

/// The count given last, if any.
pub open spec fn count_given(ev: Seq<(Opt, ValView)>, o: Opt) -> Option<usize> {
    match last_value(ev, o) {
        Some(ValView::Count(n)) => Some(n),
        _ => None,
    }
}

/// The 64-bit number given last, or a default.
pub open spec fn seed_or(ev: Seq<(Opt, ValView)>, o: Opt, default: u64) -> u64 {
    match last_value(ev, o) {
        Some(ValView::Seed(n)) => n,
        _ => default,
    }
}

/// The switch set last, or a default.
pub open spec fn flag_or(ev: Seq<(Opt, ValView)>, o: Opt, default: bool) -> bool {
    match last_value(ev, o) {
        Some(ValView::Flag(b)) => b,
        _ => default,
    }
}

/// The 64-bit number given last, if any.
pub open spec fn seed_given(ev: Seq<(Opt, ValView)>, o: Opt) -> Option<u64> {
    match last_value(ev, o) {
        Some(ValView::Seed(n)) => Some(n),
        _ => None,
    }
}

/// The switch set last, if any.
pub open spec fn flag_given(ev: Seq<(Opt, ValView)>, o: Opt) -> Option<bool> {
    match last_value(ev, o) {
        Some(ValView::Flag(b)) => Some(b),
        _ => None,
    }
}

/// The direction given last, or a default.
pub open spec fn dir_or(ev: Seq<(Opt, ValView)>, o: Opt, default: TransformDir) -> TransformDir {
    match last_value(ev, o) {
        Some(ValView::Dir(d)) => d,
        _ => default,
    }
}

/// The text given last, if any.
pub open spec fn text_given(ev: Seq<(Opt, ValView)>, o: Opt) -> Option<Seq<char>> {
    match last_value(ev, o) {
        Some(ValView::Text(s)) => Some(s),
        Some(ValView::Deferred(_, s)) => Some(s),
        _ => None,
    }
}

/// The text given last, or a default.
pub open spec fn text_or(ev: Seq<(Opt, ValView)>, o: Opt, default: Seq<char>) -> Seq<char> {
    match text_given(ev, o) {
        Some(s) => s,
        None => default,
    }
}

fn find_last(ev: &Vec<(Opt, Val)>, o: Opt) -> (r: Option<usize>)
    ensures
        match r {
            Some(i) => i < ev.len() && last_value(events(ev@), o) == Some(ev@[i as int].1@),
            None => last_value(events(ev@), o) is None,
        },
{
    let ghost v = events(ev@);
    let mut i: usize = ev.len();
    assert(v.take(i as int) =~= v);
    while i > 0
        invariant
            i <= ev.len(),
            v == events(ev@),
            last_value(v, o) == last_value(v.take(i as int), o),
        decreases i,
    {
        assert(v.take(i as int).last() == v[i - 1]);
        assert(v.take(i as int).drop_last() =~= v.take(i - 1));
        if ev[i - 1].0 == o {
            return Some(i - 1);
        }
        i -= 1;
    }
    None
}

pub fn get_count_given(ev: &Vec<(Opt, Val)>, o: Opt) -> (r: Option<usize>)
    ensures
        r == count_given(events(ev@), o),
{
    match find_last(ev, o) {
        Some(i) => match &ev[i].1 {
            Val::Count(n) => Some(*n),
            _ => None,
        },
        None => None,
    }
}

pub fn get_count(ev: &Vec<(Opt, Val)>, o: Opt, default: usize) -> (r: usize)
    ensures
        r == count_or(events(ev@), o, default),
{
    match get_count_given(ev, o) {
        Some(n) => n,
        None => default,
    }
}

pub fn get_seed(ev: &Vec<(Opt, Val)>, o: Opt, default: u64) -> (r: u64)
    ensures
        r == seed_or(events(ev@), o, default),
{
    match find_last(ev, o) {
        Some(i) => match &ev[i].1 {
            Val::Seed(n) => *n,
            _ => default,
        },
        None => default,
    }
}

pub fn get_flag(ev: &Vec<(Opt, Val)>, o: Opt, default: bool) -> (r: bool)
    ensures
        r == flag_or(events(ev@), o, default),
{
    match find_last(ev, o) {
        Some(i) => match &ev[i].1 {
            Val::Flag(b) => *b,
            _ => default,
        },
        None => default,
    }
}

pub fn get_seed_given(ev: &Vec<(Opt, Val)>, o: Opt) -> (r: Option<u64>)
    ensures
        r == seed_given(events(ev@), o),
{
    match find_last(ev, o) {
        Some(i) => match &ev[i].1 {
            Val::Seed(n) => Some(*n),
            _ => None,
        },
        None => None,
    }
}

pub fn get_flag_given(ev: &Vec<(Opt, Val)>, o: Opt) -> (r: Option<bool>)
    ensures
        r == flag_given(events(ev@), o),
{
    match find_last(ev, o) {
        Some(i) => match &ev[i].1 {
            Val::Flag(b) => Some(*b),
            _ => None,
        },
        None => None,
    }
}

/// The list given last, if any.
pub open spec fn counts_given(ev: Seq<(Opt, ValView)>, o: Opt) -> Option<Seq<usize>> {
    match last_value(ev, o) {
        Some(ValView::Counts(v)) => Some(v),
        _ => None,
    }
}

/// The view of an optional list.
pub open spec fn list_view(v: Option<Vec<usize>>) -> Option<Seq<usize>> {
    match v {
        Some(x) => Some(x@),
        None => None,
    }
}

pub fn get_counts_given(ev: &Vec<(Opt, Val)>, o: Opt) -> (r: Option<Vec<usize>>)
    ensures
        list_view(r) == counts_given(events(ev@), o),
{
    match find_last(ev, o) {
        Some(i) => match &ev[i].1 {
            Val::Counts(v) => {
                let mut out: Vec<usize> = Vec::new();
                let mut k: usize = 0;
                while k < v.len()
                    invariant
                        k <= v.len(),
                        out@ == v@.take(k as int),
                    decreases v.len() - k,
                {
                    out.push(v[k]);
                    assert(out@ =~= v@.take(k + 1));
                    k += 1;
                }
                assert(out@ =~= v@);
                Some(out)
            },
            _ => None,
        },
        None => None,
    }
}

pub fn get_dir(ev: &Vec<(Opt, Val)>, o: Opt, default: TransformDir) -> (r: TransformDir)
    ensures
        r == dir_or(events(ev@), o, default),
{
    match find_last(ev, o) {
        Some(i) => match &ev[i].1 {
            Val::Dir(d) => *d,
            _ => default,
        },
        None => default,
    }
}

pub fn get_text_given(ev: &Vec<(Opt, Val)>, o: Opt) -> (r: Option<String>)
    ensures
        note_view(r) == text_given(events(ev@), o),
{
    match find_last(ev, o) {
        Some(i) => match &ev[i].1 {
            Val::Text(s) => Some(copy_text(s)),
            Val::Deferred(_, s) => Some(copy_text(s)),
            _ => None,
        },
        None => None,
    }
}

pub fn get_text(ev: &Vec<(Opt, Val)>, o: Opt, default: &str) -> (r: String)
    ensures
        r@ == text_or(events(ev@), o, default@),
{
    match get_text_given(ev, o) {
        Some(s) => s,
        None => default.to_owned(),
    }
}

/// Texts that their user has to read, in the order in which they were given: the name that errors
/// call the flag by, and the text.
pub open spec fn deferred_of(ev: Seq<(Opt, ValView)>) -> Seq<(Seq<char>, Seq<char>)>
    decreases ev.len(),
{
    if ev.len() == 0 {
        Seq::empty()
    } else {
        let before = deferred_of(ev.drop_last());
        match ev.last().1 {
            ValView::Deferred(l, s) => before.push((l, s)),
            _ => before,
        }
    }
}

/// The views of deferred texts.
pub open spec fn deferred_views(v: Seq<(&'static str, String)>) -> Seq<(Seq<char>, Seq<char>)> {
    v.map_values(|d: (&'static str, String)| (d.0@, d.1@))
}

/// The texts that their user has to read.
pub fn deferred_texts(ev: &Vec<(Opt, Val)>) -> (r: Vec<(&'static str, String)>)
    ensures
        deferred_views(r@) == deferred_of(events(ev@)),
{
    let ghost v = events(ev@);
    let mut out: Vec<(&'static str, String)> = Vec::new();
    let mut i: usize = 0;
    assert(deferred_views(out@) =~= deferred_of(v.take(0)));
    while i < ev.len()
        invariant
            i <= ev.len(),
            v == events(ev@),
            deferred_views(out@) == deferred_of(v.take(i as int)),
        decreases ev.len() - i,
    {
        let ghost was = deferred_views(out@);
        assert(v.take(i + 1).drop_last() =~= v.take(i as int));
        assert(v.take(i + 1).last() == (ev@[i as int].0, ev@[i as int].1@));
        if let Val::Deferred(l, s) = &ev[i].1 {
            out.push((*l, copy_text(s)));
            assert(deferred_views(out@) =~= was.push((l@, s@)));
        }
        i += 1;
    }
    assert(v.take(v.len() as int) =~= v);
    out
}

/// What reading the arguments of a subcommand gives. Deferred texts come before the outcome: one
/// that its user cannot read is the first error.
#[derive(Debug)]
pub struct Parsed<T> {
    pub deferred: Vec<(&'static str, String)>,
    pub outcome: Outcome<T>,
}

/// What a subcommand is to do.
#[derive(Debug)]
pub enum Outcome<T> {
    Run(T),
    Help,
    Failed(CliError),
}

/// Whether arguments were read by a table, with `run` saying what a complete reading gives.
pub open spec fn parsed_by<T>(
    args: Seq<Seq<char>>,
    table: Seq<Flag>,
    r: Parsed<T>,
    run: spec_fn(Seq<(Opt, ValView)>, Outcome<T>) -> bool,
) -> bool {
    let (ev, end) = scan(args, table);
    &&& deferred_views(r.deferred@) == deferred_of(ev)
    &&& match end {
        EndView::Finished => run(ev, r.outcome),
        EndView::Help => r.outcome is Help,
        EndView::Failed(f) => r.outcome matches Outcome::Failed(e) && error_is(e, f),
    }
}

/// The last value given for an option wins, whatever came before.
pub proof fn last_value_wins(ev: Seq<(Opt, ValView)>, o: Opt, v: ValView)
    ensures
        last_value(ev.push((o, v)), o) == Some(v),
        forall|p: Opt| p != o ==> #[trigger] last_value(ev.push((o, v)), p) == last_value(ev, p),
{
    assert(ev.push((o, v)).drop_last() =~= ev);
}

} // verus!

//! Transform sizes, batch limits, and the configuration of a learned transform.

use crate::arith::{
    is_power_of_two, least, min_usize, power_of_two, saturating_mul, trailing_zeros, twos,
    twos_of_power,
};
use crate::order::{ascending, models, sorted_distinct};
use crate::text::{number_within, parse_usize, pieces, same_text, split_text, texts, lower_text,
    to_lower, trim_text, trimmed};
use vstd::arithmetic::power2::pow2;
use vstd::prelude::*;

verus! {

/// Supported transform sizes (power-of-two complex FFT length).
pub const SUPPORTED_N_FFT: [usize; 12] = [
    64,
    128,
    256,
    512,
    1024,
    2048,
    4096,
    8192,
    16384,
    32768,
    65536,
    131072,
];

/// Batch sizes attempted in limit sweeps, largest first.
pub const LIMIT_SWEEP_REQUESTED_BATCHES: [usize; 13] = [
    4096,
    2048,
    1024,
    512,
    256,
    128,
    64,
    32,
    16,
    8,
    4,
    2,
    1,
];

/// The largest batch to attempt at each size during limit sweeps.
pub open spec fn batch_cap(n_fft: nat) -> nat {
    if n_fft <= 128 {
        4096
    } else if n_fft <= 256 {
        2048
    } else if n_fft <= 512 {
        1024
    } else if n_fft <= 1024 {
        512
    } else if n_fft <= 2048 {
        256
    } else if n_fft <= 4096 {
        128
    } else if n_fft <= 8192 {
        64
    } else if n_fft <= 16384 {
        32
    } else if n_fft <= 32768 {
        16
    } else if n_fft <= 65536 {
        8
    } else {
        4
    }
}

/// The largest batch to attempt at a size during limit sweeps.
pub fn batch_cap_for_limit_sweep(n_fft: usize) -> (r: usize)
    ensures
        r == batch_cap(n_fft as nat),
{
    if n_fft <= 128 {
        4096
    } else if n_fft <= 256 {
        2048
    } else if n_fft <= 512 {
        1024
    } else if n_fft <= 1024 {
        512
    } else if n_fft <= 2048 {
        256
    } else if n_fft <= 4096 {
        128
    } else if n_fft <= 8192 {
        64
    } else if n_fft <= 16384 {
        32
    } else if n_fft <= 32768 {
        16
    } else if n_fft <= 65536 {
        8
    } else {
        4
    }
}

/// Larger transforms never get a larger batch cap.
pub proof fn batch_cap_shrinks(a: nat, b: nat)
    requires
        a <= b,
    ensures
        batch_cap(a) >= batch_cap(b) >= 4,
{
}

/// A non-empty list of at most `cap` from `requested`, ascending and without repeats: exactly the
/// requested batches in `1..=cap`, or the cap alone (at least one) when none is.
pub open spec fn adapted_batches(requested: Seq<usize>, cap: usize, r: Seq<usize>) -> bool {
    let fits = requested.to_set().filter(|b: usize| 1 <= b <= cap);
    &&& ascending::<usize>(r)
    &&& r.to_set() == if fits.len() == 0 {
        set![if cap >= 1 { cap } else { 1 }]
    } else {
        fits
    }
}

/// Cap batch sizes by transform size to stay within practical memory and compile limits.
pub fn adaptive_batches_for_n_fft(n_fft: usize, requested: &[usize]) -> (r: Vec<usize>)
    ensures
        adapted_batches(requested@, batch_cap(n_fft as nat) as usize, r@),
{
    adaptive_batches_with_cap(n_fft, requested, batch_cap_for_limit_sweep(n_fft))
}

/// The requested batches within a cap.
pub fn adaptive_batches_with_cap(n_fft: usize, requested: &[usize], cap: usize) -> (r: Vec<usize>)
    ensures
        adapted_batches(requested@, cap, r@),
{
    let mut out: Vec<usize> = Vec::new();
    let mut i: usize = 0;
    let ghost fits = requested@.to_set().filter(|b: usize| 1 <= b <= cap);
    while i < requested.len()
        invariant
            i <= requested.len(),
            forall|b: usize|
                #[trigger] out@.contains(b) <==> (1 <= b <= cap && requested@.take(
                    i as int,
                ).contains(b)),
        decreases requested.len() - i,
    {
        let b = requested[i];
        let ghost was = out@;
        if b >= 1 && b <= cap {
            out.push(b);
        }
        proof {
            let now = requested@.take(i + 1);
            assert(now =~= requested@.take(i as int).push(b));
            assert forall|x: usize|
                #[trigger] out@.contains(x) <==> (1 <= x <= cap && now.contains(x)) by {
                lemma_push_contains(requested@.take(i as int), b, x);
                lemma_push_contains(was, b, x);
            }
        }
        i += 1;
    }
    assert(requested@.take(requested@.len() as int) =~= requested@);
    assert(out@.to_set() =~= fits);
    proof {
        requested@.to_set().lemma_len_filter(|b: usize| 1 <= b <= cap);
        vstd::seq_lib::seq_to_set_is_finite(out@);
    }
    if out.len() == 0 {
        assert(fits =~= Set::<usize>::empty());
        let only: usize = if cap >= 1 {
            cap
        } else {
            1
        };
        out.push(only);
        assert(out@ =~= seq![only]);
        assert(out@.to_set() =~= set![only]) by {
            assert(out@[0] == only);
        }
    } else {
        assert(fits.contains(out@[0]));
        assert(fits.len() != 0);
    }
    let ghost wanted = out@.to_set();
    assert(models(out@) =~= out@);
    let r = sorted_distinct(out);
    assert(models(r@) =~= r@);
    r
}

proof fn lemma_push_contains(s: Seq<usize>, a: usize, x: usize)
    ensures
        s.push(a).contains(x) <==> (s.contains(x) || x == a),
{
    if s.contains(x) {
        let k = choose|k: int| 0 <= k < s.len() && s[k] == x;
        assert(s.push(a)[k] == x);
    }
    if x == a {
        assert(s.push(a)[s.len() as int] == x);
    }
    if s.push(a).contains(x) {
        let k = choose|k: int| 0 <= k < s.push(a).len() && s.push(a)[k] == x;
        if k < s.len() {
            assert(s[k] == x);
        }
    }
}

/// Batches used by a limit sweep at a size.
pub fn limit_sweep_batches(n_fft: usize) -> (r: Vec<usize>)
    ensures
        adapted_batches(LIMIT_SWEEP_REQUESTED_BATCHES@, batch_cap(n_fft as nat) as usize, r@),
{
    adaptive_batches_for_n_fft(n_fft, LIMIT_SWEEP_REQUESTED_BATCHES.as_slice())
}

/// Every batch of a limit sweep lies between one and the cap of its size.
pub proof fn limit_sweep_stays_within_cap(n_fft: nat, r: Seq<usize>)
    requires
        adapted_batches(LIMIT_SWEEP_REQUESTED_BATCHES@, batch_cap(n_fft) as usize, r),
    ensures
        r.len() > 0,
        forall|i: int| 0 <= i < r.len() ==> 1 <= #[trigger] r[i] <= batch_cap(n_fft),
{
    let cap = batch_cap(n_fft) as usize;
    let all = LIMIT_SWEEP_REQUESTED_BATCHES@;
    assert(all[10] == 4);
    assert(all.to_set().contains(4usize));
    let fits = all.to_set().filter(|b: usize| 1 <= b <= cap);
    assert(fits.contains(4usize));
    vstd::seq_lib::seq_to_set_is_finite(all);
    all.to_set().lemma_len_filter(|b: usize| 1 <= b <= cap);
    assert(fits.len() != 0);
    assert(r.to_set().contains(4usize));
    assert forall|i: int| 0 <= i < r.len() implies 1 <= #[trigger] r[i] <= batch_cap(n_fft) by {
        assert(r.to_set().contains(r[i]));
    }
}

/// Compiled-graph variants are only attempted up to this size.
pub fn compiled_ok_for_n_fft(n_fft: usize) -> (r: bool)
    ensures
        r == (n_fft <= 1024),
{
    n_fft <= 1024
}

/// The device labels that name a GPU backend.
pub open spec fn gpu_label(s: Seq<char>) -> bool {
    ||| s == "metal"@
    ||| s == "cuda"@
    ||| s == "mlx"@
    ||| s == "mps"@
    ||| s == "rocm"@
    ||| s == "wgpu"@
    ||| s == "wgu"@
    ||| s == "vulkan"@
    ||| s == "gpu"@
}

/// Whether a device label, in any case, names a GPU backend.
pub fn is_gpu_device_label(device: &str) -> (r: bool)
    ensures
        r == gpu_label(lower_text(device@)),
{
    let d = to_lower(device);
    let d = d.as_str();
    same_text(d, "metal") || same_text(d, "cuda") || same_text(d, "mlx") || same_text(d, "mps")
        || same_text(d, "rocm") || same_text(d, "wgpu") || same_text(d, "wgu") || same_text(
        d,
        "vulkan",
    ) || same_text(d, "gpu")
}

/// Per-device compiled ceiling for limit sweeps: GPU backends tolerate larger graphs.
pub fn compiled_ok_for_limit_sweep(n_fft: usize, device: &str) -> (r: bool)
    ensures
        r == (n_fft <= if gpu_label(lower_text(device@)) {
            2048int
        } else {
            1024
        }),
{
    if is_gpu_device_label(device) {
        n_fft <= 2048
    } else {
        n_fft <= 1024
    }
}

/// The Welch path is skipped at extreme sizes.
pub fn welch_ok_for_limit_sweep(n_fft: usize) -> (r: bool)
    ensures
        r == (n_fft <= 32768),
{
    n_fft <= 32768
}

/// Samples of one Welch frame: eight segments that overlap by half.
pub open spec fn welch_frame(n_fft: nat) -> nat {
    n_fft + 7 * (n_fft / 2)
}

/// Whether the Welch signal buffer of `batch` frames of four-byte samples stays within 512 MiB.
pub open spec fn welch_fits(n_fft: nat, batch: nat) -> bool {
    n_fft <= 32768 && batch * welch_frame(n_fft) * 4 <= 512 * 1024 * 1024
}

/// Whether the Welch path runs for a size and a batch.
pub fn welch_ok_for_config(n_fft: usize, batch: usize) -> (r: bool)
    ensures
        r == welch_fits(n_fft as nat, batch as nat),
{
    if !welch_ok_for_limit_sweep(n_fft) {
        return false;
    }
    let hop: usize = n_fft / 2;
    let frame: usize = n_fft + 7 * hop;
    let bytes: usize = saturating_mul(saturating_mul(batch, frame), 4);
    bytes <= 512 * 1024 * 1024
}

/// Training steps allowed at a size during sweeps, at most `base`.
pub open spec fn swept_train_steps(base: nat, n_fft: nat) -> int {
    if n_fft > 65536 {
        least(base as int, 2)
    } else if n_fft > 32768 {
        least(base as int, 3)
    } else if n_fft > 16384 {
        least(base as int, 4)
    } else if n_fft > 8192 {
        least(base as int, 5)
    } else if n_fft > 4096 {
        least(base as int, 8)
    } else if n_fft > 2048 {
        least(base as int, 12)
    } else if n_fft > 1024 {
        least(base as int, 15)
    } else {
        base as int
    }
}

/// Reduce training steps at large sizes during sweeps.
pub fn train_steps_for_n_fft(base: usize, n_fft: usize) -> (r: usize)
    ensures
        r == swept_train_steps(base as nat, n_fft as nat),
{
    if n_fft > 65536 {
        min_usize(base, 2)
    } else if n_fft > 32768 {
        min_usize(base, 3)
    } else if n_fft > 16384 {
        min_usize(base, 4)
    } else if n_fft > 8192 {
        min_usize(base, 5)
    } else if n_fft > 4096 {
        min_usize(base, 8)
    } else if n_fft > 2048 {
        min_usize(base, 12)
    } else if n_fft > 1024 {
        min_usize(base, 15)
    } else {
        base
    }
}

/// A larger size never trains for more steps.
pub proof fn train_steps_shrink(base: nat, a: nat, b: nat)
    requires
        a <= b,
    ensures
        swept_train_steps(base, b) <= swept_train_steps(base, a) <= base,
{
}

/// What is wrong with a configuration value.
#[derive(Clone, Debug)]
pub enum ConfigError {
    /// The transform size is no power of two.
    NotPowerOfTwo { n_fft: usize },
    /// The transform size is below four.
    TooSmall,
    /// The batch is empty.
    EmptyBatch,
    /// The transform size is no number.
    NotANumber,
    /// The transform size is not among the supported ones.
    Unsupported { n_fft: usize },
    /// No direction has this (lower-case) name.
    UnknownDirection { name: String },
    /// No schedule has this (trimmed, lower-case) name.
    UnknownSchedule { name: String },
    /// The list of schedules names none.
    NoSchedules,
}

/// Which way a transform runs.
#[derive(Debug, Clone, Copy, PartialEq, Eq, Structural)]
pub enum TransformDir {
    Forward,
    Inverse,
}

impl TransformDir {
    pub fn is_forward(self) -> (r: bool)
        ensures
            r == (self is Forward),
    {
        matches!(self, TransformDir::Forward)
    }

    pub fn is_inverse(self) -> (r: bool)
        ensures
            r == (self is Inverse),
    {
        matches!(self, TransformDir::Inverse)
    }

    /// The name that reports give a direction.
    pub open spec fn name_text(self) -> Seq<char> {
        match self {
            TransformDir::Forward => "Forward"@,
            TransformDir::Inverse => "Inverse"@,
        }
    }

    /// The name that reports give a direction.
    pub fn name(self) -> (r: &'static str)
        ensures
            r@ == self.name_text(),
    {
        match self {
            TransformDir::Forward => "Forward",
            TransformDir::Inverse => "Inverse",
        }
    }
}

/// The direction that a lower-case name stands for.
pub open spec fn dir_named(s: Seq<char>) -> Option<TransformDir> {
    if s == "forward"@ || s == "fft"@ {
        Some(TransformDir::Forward)
    } else if s == "inverse"@ || s == "ifft"@ {
        Some(TransformDir::Inverse)
    } else {
        None
    }
}

/// Reads a direction in any case: `forward` or `fft`, `inverse` or `ifft`.
pub fn parse_transform_dir(s: &str) -> (r: Result<TransformDir, ConfigError>)
    ensures
        match dir_named(lower_text(s@)) {
            Some(d) => r == Ok::<TransformDir, ConfigError>(d),
            None => r matches Err(ConfigError::UnknownDirection { name }) && name@ == lower_text(s@),
        },
{
    let name = to_lower(s);
    if same_text(name.as_str(), "forward") || same_text(name.as_str(), "fft") {
        Ok(TransformDir::Forward)
    } else if same_text(name.as_str(), "inverse") || same_text(name.as_str(), "ifft") {
        Ok(TransformDir::Inverse)
    } else {
        Err(ConfigError::UnknownDirection { name })
    }
}

/// Size and batch of a learned transform.
#[derive(Debug, Clone, Copy, PartialEq, Eq, Structural)]
pub struct FftLearnConfig {
    /// Complex transform length, a power of two.
    pub n_fft: usize,
    /// Training and inference batch size.
    pub batch: usize,
}

/// What is wrong with a size and a batch, in the order in which it is reported.
pub open spec fn config_fault(n_fft: usize, batch: usize) -> Option<ConfigError> {
    if !power_of_two(n_fft as nat) {
        Some(ConfigError::NotPowerOfTwo { n_fft })
    } else if n_fft < 4 {
        Some(ConfigError::TooSmall)
    } else if batch < 1 {
        Some(ConfigError::EmptyBatch)
    } else {
        None
    }
}

impl FftLearnConfig {
    /// Whether the size is a power of two of at least four and the batch is not empty.
    pub open spec fn well_formed(&self) -> bool {
        config_fault(self.n_fft, self.batch) is None
    }

    pub fn new(n_fft: usize, batch: usize) -> (r: Result<FftLearnConfig, ConfigError>)
        ensures
            match config_fault(n_fft, batch) {
                Some(e) => r == Err::<FftLearnConfig, ConfigError>(e),
                None => r == Ok::<FftLearnConfig, ConfigError>(FftLearnConfig { n_fft, batch }),
            },
    {
        if !is_power_of_two(n_fft) {
            return Err(ConfigError::NotPowerOfTwo { n_fft });
        }
        if n_fft < 4 {
            return Err(ConfigError::TooSmall);
        }
        if batch < 1 {
            return Err(ConfigError::EmptyBatch);
        }
        Ok(FftLearnConfig { n_fft, batch })
    }

    pub fn tiny() -> (r: FftLearnConfig)
        ensures
            r.n_fft == 64,
            r.batch == 4,
            r.well_formed(),
    {
        proof {
            vstd::arithmetic::power2::lemma2_to64();
            assert(pow2(6) == 64);
        }
        FftLearnConfig { n_fft: 64, batch: 4 }
    }

    /// Butterfly stages: the exponent of the size.
    pub fn num_stages(&self) -> (r: usize)
        ensures
            self.n_fft > 0 ==> r == twos(self.n_fft as nat),
            self.n_fft == 0 ==> r == usize::BITS,
    {
        trailing_zeros(self.n_fft)
    }

    pub fn butterflies_per_stage(&self) -> (r: usize)
        ensures
            r == self.n_fft / 2,
    {
        self.n_fft / 2
    }

    /// Trainable numbers: two for each butterfly of each stage.
    pub fn twiddle_param_count(&self) -> (r: usize)
        requires
            twos(self.n_fft as nat) * (self.n_fft / 2) * 2 <= usize::MAX,
        ensures
            r == twos(self.n_fft as nat) * (self.n_fft / 2) * 2,
    {
        let stages: usize = self.num_stages();
        let half: usize = self.butterflies_per_stage();
        if self.n_fft == 0 {
            assert(twos(self.n_fft as nat) == 0);
            assert(twos(self.n_fft as nat) * (self.n_fft / 2) * 2 == 0) by (nonlinear_arith)
                requires
                    twos(self.n_fft as nat) == 0,
            ;
            return 0;
        }
        assert(0 <= stages * half <= twos(self.n_fft as nat) * half * 2) by (nonlinear_arith)
            requires
                stages == twos(self.n_fft as nat),
                half >= 0,
        ;
        stages * half * 2
    }

    pub fn validate(&self) -> (r: Result<(), ConfigError>)
        ensures
            match config_fault(self.n_fft, self.batch) {
                Some(e) => r == Err::<(), ConfigError>(e),
                None => r is Ok,
            },
    {
        match FftLearnConfig::new(self.n_fft, self.batch) {
            Ok(_) => Ok(()),
            Err(e) => Err(e),
        }
    }
}

/// The size of a well-formed configuration is two raised to its number of stages.
pub proof fn stages_give_the_size(c: FftLearnConfig)
    requires
        c.well_formed(),
    ensures
        c.n_fft == pow2(twos(c.n_fft as nat)),
        twos(c.n_fft as nat) >= 2,
{
    twos_of_power(c.n_fft as nat);
    vstd::arithmetic::power2::lemma2_to64();
}

/// The transform size that a text writes: a power of two of at least four.
pub open spec fn size_read(s: Seq<char>) -> Result<usize, ConfigError> {
    match number_within(s, usize::MAX as nat) {
        None => Err(ConfigError::NotANumber),
        Some(n) => match config_fault(n as usize, 1) {
            Some(e) => Err(e),
            None => Ok(n as usize),
        },
    }
}

/// Reads a transform size: a power of two of at least four.
pub fn parse_n_fft(s: &str) -> (r: Result<usize, ConfigError>)
    ensures
        r == size_read(s@),
{
    match parse_usize(s) {
        None => Err(ConfigError::NotANumber),
        Some(n) => match FftLearnConfig::new(n, 1) {
            Ok(_) => Ok(n),
            Err(e) => Err(e),
        },
    }
}

/// Whether a size is supported.
pub open spec fn supported(n_fft: usize) -> bool {
    SUPPORTED_N_FFT@.contains(n_fft)
}

/// Whether a size is among the supported ones.
pub fn is_supported_n_fft(n_fft: usize) -> (r: bool)
    ensures
        r == supported(n_fft),
{
    let mut i: usize = 0;
    while i < 12
        invariant
            i <= 12,
            forall|k: int| 0 <= k < i ==> SUPPORTED_N_FFT@[k] != n_fft,
        decreases 12 - i,
    {
        if SUPPORTED_N_FFT[i] == n_fft {
            assert(SUPPORTED_N_FFT@[i as int] == n_fft);
            return true;
        }
        i += 1;
    }
    false
}

/// Accepts the supported sizes only.
pub fn ensure_supported_n_fft(n_fft: usize) -> (r: Result<(), ConfigError>)
    ensures
        r == if supported(n_fft) {
            Ok::<(), ConfigError>(())
        } else {
            Err::<(), ConfigError>(ConfigError::Unsupported { n_fft })
        },
{
    if is_supported_n_fft(n_fft) {
        Ok(())
    } else {
        Err(ConfigError::Unsupported { n_fft })
    }
}

/// Every supported size makes a well-formed configuration with any non-empty batch.
pub proof fn supported_sizes_are_well_formed(n_fft: usize, batch: usize)
    requires
        supported(n_fft),
        batch >= 1,
    ensures
        config_fault(n_fft, batch) is None,
{
    vstd::arithmetic::power2::lemma2_to64();
    assert(pow2(6) == 64 && pow2(7) == 128 && pow2(8) == 256 && pow2(9) == 512 && pow2(10) == 1024
        && pow2(11) == 2048 && pow2(12) == 4096 && pow2(13) == 8192 && pow2(14) == 16384 && pow2(15)
        == 32768 && pow2(16) == 65536 && pow2(17) == 131072);
    let k = choose|k: int| 0 <= k < 12 && SUPPORTED_N_FFT@[k] == n_fft;
    assert(0 <= k < 12);
}

/// How a multi-size training study orders its sizes.
#[derive(Debug, Clone, Copy, PartialEq, Eq, Structural)]
pub enum MultiTrainSchedule {
    /// Train each size in isolation.
    Single,
    /// Cycle through the sizes, one each step.
    RoundRobin,
    /// A random size each step.
    Random,
    /// Equal step count for each size.
    Balanced,
}

/// The schedule that a lower-case name stands for.
pub open spec fn schedule_named(s: Seq<char>) -> Option<MultiTrainSchedule> {
    if s == "single"@ {
        Some(MultiTrainSchedule::Single)
    } else if s == "round_robin"@ || s == "round-robin"@ || s == "rr"@ {
        Some(MultiTrainSchedule::RoundRobin)
    } else if s == "random"@ {
        Some(MultiTrainSchedule::Random)
    } else if s == "balanced"@ {
        Some(MultiTrainSchedule::Balanced)
    } else {
        None
    }
}

/// The non-empty entries of a comma-separated list, trimmed and in lower case.
pub open spec fn lower_entries(parts: Seq<Seq<char>>) -> Seq<Seq<char>> {
    parts.map_values(|p: Seq<char>| lower_text(trimmed(p))).filter(|p: Seq<char>| p.len() > 0)
}

/// The schedules that a list of entries names, up to the first unknown one.
pub open spec fn schedules_of(entries: Seq<Seq<char>>) -> Result<
    Seq<MultiTrainSchedule>,
    Seq<char>,
>
    decreases entries.len(),
{
    if entries.len() == 0 {
        Ok(Seq::empty())
    } else {
        match schedules_of(entries.drop_last()) {
            Err(e) => Err(e),
            Ok(v) => match schedule_named(entries.last()) {
                Some(s) => Ok(v.push(s)),
                None => Err(entries.last()),
            },
        }
    }
}

impl MultiTrainSchedule {
    /// The name of a schedule.
    pub open spec fn label_text(self) -> Seq<char> {
        match self {
            MultiTrainSchedule::Single => "single"@,
            MultiTrainSchedule::RoundRobin => "round_robin"@,
            MultiTrainSchedule::Random => "random"@,
            MultiTrainSchedule::Balanced => "balanced"@,
        }
    }

    pub fn label(self) -> (r: &'static str)
        ensures
            r@ == self.label_text(),
    {
        match self {
            MultiTrainSchedule::Single => "single",
            MultiTrainSchedule::RoundRobin => "round_robin",
            MultiTrainSchedule::Random => "random",
            MultiTrainSchedule::Balanced => "balanced",
        }
    }

    /// Every schedule, in the order of studies.
    pub fn all() -> (r: [MultiTrainSchedule; 4])
        ensures
            r@ == seq![
                MultiTrainSchedule::Single,
                MultiTrainSchedule::RoundRobin,
                MultiTrainSchedule::Random,
                MultiTrainSchedule::Balanced,
            ],
    {
        let r = [
            MultiTrainSchedule::Single,
            MultiTrainSchedule::RoundRobin,
            MultiTrainSchedule::Random,
            MultiTrainSchedule::Balanced,
        ];
        assert(r@ =~= seq![
            MultiTrainSchedule::Single,
            MultiTrainSchedule::RoundRobin,
            MultiTrainSchedule::Random,
            MultiTrainSchedule::Balanced,
        ]);
        r
    }

    fn named(name: &str) -> (r: Option<MultiTrainSchedule>)
        ensures
            r == schedule_named(name@),
    {
        if same_text(name, "single") {
            Some(MultiTrainSchedule::Single)
        } else if same_text(name, "round_robin") || same_text(name, "round-robin") || same_text(
            name,
            "rr",
        ) {
            Some(MultiTrainSchedule::RoundRobin)
        } else if same_text(name, "random") {
            Some(MultiTrainSchedule::Random)
        } else if same_text(name, "balanced") {
            Some(MultiTrainSchedule::Balanced)
        } else {
            None
        }
    }

    /// Reads a comma-separated list of schedules; blank entries are skipped.
    pub fn parse_csv(s: &str) -> (r: Result<Vec<MultiTrainSchedule>, ConfigError>)
        ensures
            match schedules_of(lower_entries(pieces(s@, ','))) {
                Err(e) => r matches Err(ConfigError::UnknownSchedule { name }) && name@ == e,
                Ok(v) => if v.len() == 0 {
                    r == Err::<Vec<MultiTrainSchedule>, ConfigError>(ConfigError::NoSchedules)
                } else {
                    r matches Ok(out) && out@ == v
                },
            },
    {
        let parts = split_text(s, ',');
        let mut out: Vec<MultiTrainSchedule> = Vec::new();
        let mut i: usize = 0;
        let ghost all = pieces(s@, ',');
        assert(lower_entries(all.take(0)) =~= Seq::empty()) by {
            reveal(Seq::filter);
        }
        while i < parts.len()
            invariant
                i <= parts.len(),
                all == texts(parts@),
                all == pieces(s@, ','),
                schedules_of(lower_entries(all.take(i as int))) == Ok::<
                    Seq<MultiTrainSchedule>,
                    Seq<char>,
                >(out@),
            decreases parts.len() - i,
        {
            let name = to_lower(trim_text(parts[i].as_str()).as_str());
            let ghost now = lower_entries(all.take(i + 1));
            proof {
                lemma_lower_entries_step(all, i as int);
            }
            if name.as_str().is_empty() {
                i += 1;
                continue;
            }
            assert(now.drop_last() =~= lower_entries(all.take(i as int)));
            match MultiTrainSchedule::named(name.as_str()) {
                Some(v) => {
                    out.push(v);
                },
                None => {
                    proof {
                        lemma_schedules_stop(all, i + 1);
                    }
                    return Err(ConfigError::UnknownSchedule { name });
                },
            }
            i += 1;
        }
        assert(all.take(all.len() as int) =~= all);
        if out.len() == 0 {
            return Err(ConfigError::NoSchedules);
        }
        Ok(out)
    }
}

proof fn lemma_lower_entries_step(all: Seq<Seq<char>>, i: int)
    requires
        0 <= i < all.len(),
    ensures
        lower_entries(all.take(i + 1)) == if lower_text(trimmed(all[i])).len() > 0 {
            lower_entries(all.take(i)).push(lower_text(trimmed(all[i])))
        } else {
            lower_entries(all.take(i))
        },
{
    let f = |p: Seq<char>| lower_text(trimmed(p));
    let m0 = all.take(i).map_values(f);
    let m1 = all.take(i + 1).map_values(f);
    assert(m1 =~= m0.push(f(all[i])));
    reveal(Seq::filter);
    assert(m1.drop_last() =~= m0);
}

proof fn lemma_schedules_stop(all: Seq<Seq<char>>, i: int)
    requires
        0 <= i <= all.len(),
        schedules_of(lower_entries(all.take(i))) is Err,
    ensures
        schedules_of(lower_entries(all)) == schedules_of(lower_entries(all.take(i))),
    decreases all.len() - i,
{
    if i == all.len() {
        assert(all.take(i) =~= all);
    } else {
        lemma_lower_entries_step(all, i);
        let now = lower_entries(all.take(i + 1));
        if lower_text(trimmed(all[i])).len() > 0 {
            assert(now.drop_last() =~= lower_entries(all.take(i)));
        }
        lemma_schedules_stop(all, i + 1);
    }
}

/// The name of a schedule reads back as the schedule.
pub proof fn schedule_label_reads_back(s: MultiTrainSchedule)
    ensures
        schedule_named(s.label_text()) == Some(s),
{
    reveal_strlit("single");
    reveal_strlit("round_robin");
    reveal_strlit("round-robin");
    reveal_strlit("rr");
    reveal_strlit("random");
    reveal_strlit("balanced");
    assert("single"@.len() == 6);
    assert("round_robin"@.len() == 11);
    assert("round-robin"@.len() == 11);
    assert("random"@.len() == 6);
    assert("balanced"@.len() == 8);
    assert("single"@[0] != "random"@[0]);
}

} // verus!

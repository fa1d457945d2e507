//! The largest transform batch that a device can run, bounded by memory and by dispatch limits.

use crate::arith::greatest;
use crate::device::{view_of, Device};
use crate::figure::{is_less, less};
use crate::text::{number_within, parse_u64, trim_text, trimmed};
use vstd::arithmetic::power2::{
    lemma2_to64, lemma2_to64_rest, lemma_pow2_strictly_increases, lemma_pow2_unfold, pow2,
};
use vstd::prelude::*;

verus! {

/// The most workgroups that wgpu and Vulkan accept along one dimension.
pub const WGPU_MAX_WORKGROUPS_PER_DIM: u64 = 65535;

/// The memory budget when the machine cannot be asked and none is given: 2 GiB.
pub const DEFAULT_MEM_BUDGET_BYTES: u64 = 2 * 1024 * 1024 * 1024;

/// Integers below this bound are doubles exactly: 2^53.
pub const EXACT_DOUBLES: u64 = 0x20_0000_0000_0000;

/// The distance between neighbouring doubles at a whole number, at least one.
pub open spec fn double_step(x: nat) -> nat
    decreases x,
{
    if x < EXACT_DOUBLES {
        1
    } else {
        2 * double_step(x / 2)
    }
}

/// A whole number rounded to the nearest double, ties to the even neighbour.
pub open spec fn nearest_double(x: nat) -> nat {
    let step = double_step(x);
    let q = x / step;
    let r = x % step;
    if 2 * r > step || (2 * r == step && q % 2 == 1) {
        (q + 1) * step
    } else {
        q * step
    }
}

/// The shape of a transform, which sets the memory of one batch row.
#[derive(Clone, Copy, Debug)]
pub struct FftProblem {
    /// Transform length.
    pub n_fft: usize,
    /// Bytes of one real scalar.
    pub elem_bytes: usize,
    /// Words that make up one compensated number; one for plain numbers.
    pub limbs: usize,
    /// Copies of a row that are held at once, input, output and scratch, as the bits of a double; at
    /// least one counts.
    pub working_copies: u64,
}

/// The bits of one and of three.
pub const ONE_COPY: u64 = 0x3ff0_0000_0000_0000;

pub const THREE_COPIES: u64 = 0x4008_0000_0000_0000;

/// The smallest significand of a double, with its leading bit: 2^52.
pub const LEADING_BIT: u64 = 0x10_0000_0000_0000;

/// The working copies that count: one where fewer, or what is not a number, are asked for.
pub open spec fn counted_copies(bits: u64) -> u64 {
    if less(ONE_COPY, bits) {
        bits
    } else {
        ONE_COPY
    }
}

/// The significand of a double of at least one, with its leading bit.
pub open spec fn significand(bits: u64) -> nat {
    (LEADING_BIT + bits % LEADING_BIT) as nat
}

/// The power of two that the significand of a double of at least one is multiplied with.
pub open spec fn scale(bits: u64) -> int {
    bits / LEADING_BIT - 1075
}

/// A whole number times a power of two, rounded up to a whole number.
pub open spec fn scaled_up(x: nat, k: int) -> nat {
    if k >= 0 {
        x * pow2(k as nat)
    } else {
        ((x + pow2((-k) as nat) - 1) / (pow2((-k) as nat) as int)) as nat
    }
}

impl FftProblem {
    /// Bytes of the complex numbers of one row.
    pub open spec fn row_data(self) -> nat {
        (self.n_fft * 2 * self.elem_bytes * greatest(self.limbs as int, 1)) as nat
    }

    /// Whether the bytes of a row can be counted in 64 bits.
    pub open spec fn countable(self) -> bool {
        self.n_fft * 2 <= u64::MAX && self.row_data() <= u64::MAX
    }

    /// Bytes that one row occupies with its working copies, as the double product gives it, rounded
    /// up.
    pub open spec fn row_bytes(self) -> nat {
        let copies = counted_copies(self.working_copies);
        scaled_up(
            nearest_double(nearest_double(self.row_data()) * significand(copies)),
            scale(copies),
        )
    }

    /// Single precision, one limb, three working copies.
    pub fn single(n_fft: usize) -> (r: FftProblem)
        ensures
            r == (FftProblem { n_fft, elem_bytes: 4, limbs: 1, working_copies: THREE_COPIES }),
    {
        FftProblem { n_fft, elem_bytes: 4, limbs: 1, working_copies: THREE_COPIES }
    }

    /// A byte width and a limb count, three working copies.
    pub fn new(n_fft: usize, elem_bytes: usize, limbs: usize) -> (r: FftProblem)
        ensures
            r == (FftProblem { n_fft, elem_bytes, limbs, working_copies: THREE_COPIES }),
    {
        FftProblem { n_fft, elem_bytes, limbs, working_copies: THREE_COPIES }
    }

    /// Bytes that one batch row occupies, at most the largest `u64`.
    pub fn row_footprint_bytes(&self) -> (r: u64)
        requires
            self.countable(),
        ensures
            r == if self.row_bytes() <= u64::MAX {
                self.row_bytes() as u64
            } else {
                u64::MAX
            },
    {
        let limbs: u64 = if self.limbs >= 1 {
            self.limbs as u64
        } else {
            1
        };
        let copies: u64 = if is_less(ONE_COPY, self.working_copies) {
            self.working_copies
        } else {
            ONE_COPY
        };
        proof {
            lemma_partial_products(self.n_fft as int, self.elem_bytes as int, limbs as int);
        }
        let base: u64 = (self.n_fft as u64) * 2 * (self.elem_bytes as u64) * limbs;
        let data = round_to_double(base as u128);
        let factor: u128 = (LEADING_BIT + copies % LEADING_BIT) as u128;
        proof {
            lemma_round_bound(base as nat);
            lemma_positive(copies);
            assert(data * factor <= 0x2_0000_0000_0000_0000 * 0x20_0000_0000_0000) by (nonlinear_arith)
                requires
                    0 <= data <= 0x2_0000_0000_0000_0000,
                    0 <= factor <= 0x20_0000_0000_0000,
            ;
        }
        let whole = round_to_double(data * factor);
        proof {
            lemma_round_bound((data * factor) as nat);
        }
        let exponent: u64 = copies / LEADING_BIT;
        if exponent >= 1075 {
            shift_up(whole, exponent - 1075)
        } else {
            shift_down(whole, 1075 - exponent)
        }
    }
}

/// A double above one has no sign bit, and its exponent is at least that of one.
proof fn lemma_positive(copies: u64)
    requires
        copies == ONE_COPY || less(ONE_COPY, copies),
    ensures
        1023 <= copies / LEADING_BIT <= 2047,
{
}

/// A whole number times a power of two, at most the largest `u64`.
fn shift_up(x: u128, k: u64) -> (r: u64)
    requires
        x <= 0x8_0000_0000_0000_0000 * 0x20_0000_0000_0000,
    ensures
        r == if scaled_up(x as nat, k as int) <= u64::MAX {
            scaled_up(x as nat, k as int) as u64
        } else {
            u64::MAX
        },
{
    let mut y: u128 = x;
    let mut j: u64 = 0;
    proof {
        lemma2_to64();
    }
    while j < k
        invariant
            j <= k,
            y == x * pow2(j as nat),
            y <= 0x8_0000_0000_0000_0000 * 0x20_0000_0000_0000,
        decreases k - j,
    {
        if y > u64::MAX as u128 {
            proof {
                lemma_more(x as nat, j as nat, k as nat);
            }
            return u64::MAX;
        }
        proof {
            lemma_pow2_unfold((j + 1) as nat);
            assert(x * pow2((j + 1) as nat) == 2 * (x * pow2(j as nat))) by (nonlinear_arith)
                requires
                    pow2((j + 1) as nat) == 2 * pow2(j as nat),
            ;
        }
        y = y * 2;
        j += 1;
    }
    if y > u64::MAX as u128 {
        u64::MAX
    } else {
        y as u64
    }
}

proof fn lemma_more(x: nat, j: nat, k: nat)
    requires
        j <= k,
    ensures
        x * pow2(j) <= x * pow2(k),
{
    if j < k {
        lemma_pow2_strictly_increases(j, k);
    }
    assert(x * pow2(j) <= x * pow2(k)) by (nonlinear_arith)
        requires
            pow2(j) <= pow2(k),
    ;
}

/// A whole number over a power of two, rounded up, at most the largest `u64`.
fn shift_down(x: u128, k: u64) -> (r: u64)
    requires
        x <= 0x8_0000_0000_0000_0000 * 0x20_0000_0000_0000,
        0 < k <= 52,
    ensures
        r == if scaled_up(x as nat, -k) <= u64::MAX {
            scaled_up(x as nat, -k) as u64
        } else {
            u64::MAX
        },
{
    let mut step: u128 = 1;
    let mut j: u64 = 0;
    proof {
        lemma2_to64();
    }
    while j < k
        invariant
            j <= k,
            k <= 52,
            step == pow2(j as nat),
            1 <= step,
            j < 52 ==> step <= 0x8_0000_0000_0000,
            step <= 0x10_0000_0000_0000,
        decreases k - j,
    {
        proof {
            lemma_pow2_unfold((j + 1) as nat);
            lemma2_to64();
            lemma2_to64_rest();
            if j + 1 < 51 {
                lemma_pow2_strictly_increases((j + 1) as nat, 51);
            }
        }
        step = step * 2;
        j += 1;
    }
    let whole = (x + step - 1) / step;
    if whole > u64::MAX as u128 {
        u64::MAX
    } else {
        whole as u64
    }
}

proof fn lemma_partial_products(n: int, e: int, l: int)
    requires
        0 <= n,
        0 <= e,
        1 <= l,
        n * 2 * e * l <= u64::MAX,
    ensures
        n * 2 <= u64::MAX || e == 0,
        e > 0 ==> n * 2 * e <= u64::MAX,
        e == 0 ==> n * 2 * e == 0,
        0 <= n * 2 * e * l,
{
    assert(n * 2 * e <= n * 2 * e * l) by (nonlinear_arith)
        requires
            0 <= n,
            0 <= e,
            1 <= l,
    ;
    if e > 0 {
        assert(n * 2 <= n * 2 * e) by (nonlinear_arith)
            requires
                0 <= n,
                1 <= e,
        ;
    } else {
        assert(n * 2 * e == 0) by (nonlinear_arith)
            requires
                e == 0,
        ;
    }
    assert(0 <= n * 2 * e * l) by (nonlinear_arith)
        requires
            0 <= n,
            0 <= e,
            1 <= l,
    ;
}

proof fn lemma_step(x: nat)
    ensures
        double_step(x) >= 1,
        x > 0 ==> double_step(x) <= x,
        x >= EXACT_DOUBLES ==> double_step(x) * EXACT_DOUBLES <= 2 * x,
        x < EXACT_DOUBLES ==> double_step(x) == 1,
    decreases x,
{
    if x >= EXACT_DOUBLES {
        lemma_step(x / 2);
        if x / 2 >= EXACT_DOUBLES {
            assert(double_step(x) * EXACT_DOUBLES == 2 * (double_step(x / 2) * EXACT_DOUBLES))
                by (nonlinear_arith)
                requires
                    double_step(x) == 2 * double_step(x / 2),
            ;
        }
    }
}

/// Rounding moves a whole number by at most itself, and leaves the ones below 2^53 alone.
pub proof fn lemma_round_bound(x: nat)
    ensures
        nearest_double(x) <= 2 * x,
        x < EXACT_DOUBLES ==> nearest_double(x) == x,
{
    lemma_step(x);
    let s = double_step(x);
    vstd::arithmetic::div_mod::lemma_fundamental_div_mod(x as int, s as int);
    let q = x / s;
    assert(q * s + x % s == x) by (nonlinear_arith)
        requires
            x == s * (x as int / s as int) + (x as int % s as int),
            q == x as int / s as int,
    ;
    assert((q + 1) * s == q * s + s) by (nonlinear_arith);
    if x == 0 {
        assert(q * s == 0);
    }
}

/// Rounds a whole number to the nearest double, ties to the even neighbour.
fn round_to_double(x: u128) -> (r: u128)
    requires
        x <= 0x2_0000_0000_0000_0000 * 0x20_0000_0000_0000,
    ensures
        r == nearest_double(x as nat),
{
    let mut y: u128 = x;
    let mut step: u128 = 1;
    while y >= EXACT_DOUBLES as u128
        invariant
            double_step(x as nat) == step * double_step(y as nat),
            step >= 1,
            y * step <= x,
            x <= 0x2_0000_0000_0000_0000 * 0x20_0000_0000_0000,
        decreases y,
    {
        proof {
            let h = y / 2;
            assert(step * double_step(y as nat) == (2 * step) * double_step(h as nat))
                by (nonlinear_arith)
                requires
                    double_step(y as nat) == 2 * double_step(h as nat),
            ;
            assert(2 * h <= y);
            assert(h * (2 * step) <= y * step) by (nonlinear_arith)
                requires
                    2 * h <= y,
                    step >= 0,
            ;
            assert(step <= y * step) by (nonlinear_arith)
                requires
                    y >= 1,
                    step >= 0,
            ;
        }
        y = y / 2;
        step = step * 2;
    }
    assert(double_step(x as nat) == step) by (nonlinear_arith)
        requires
            double_step(x as nat) == step * double_step(y as nat),
            double_step(y as nat) == 1,
    ;
    let q: u128 = x / step;
    let r: u128 = x % step;
    proof {
        lemma_step(x as nat);
        vstd::arithmetic::div_mod::lemma_fundamental_div_mod(x as int, step as int);
        assert(q * step <= x) by (nonlinear_arith)
            requires
                x == step * q + r,
                r >= 0,
        ;
        assert((q + 1) * step == q * step + step) by (nonlinear_arith);
    }
    if 2 * r > step || (2 * r == step && q % 2 == 1) {
        (q + 1) * step
    } else {
        q * step
    }
}

/// Which ceiling bounds the batch.
#[derive(Clone, Copy, Debug, PartialEq, Eq, Structural)]
pub enum LimitedBy {
    Memory,
    Dispatch,
}

/// Ceilings of one device.
#[derive(Clone, Copy, Debug)]
pub struct DeviceCaps {
    /// Working-set memory budget in bytes.
    pub mem_budget_bytes: u64,
    /// The largest batch that the grid allows; `None` when only memory bounds it.
    pub dispatch_cap: Option<u64>,
    /// Where the memory budget came from.
    pub mem_source: &'static str,
}

/// The largest batch of a problem on a device, and what bounds it.
#[derive(Clone, Copy, Debug, PartialEq, Eq, Structural)]
pub struct BatchCapacity {
    /// Largest safe batch.
    pub max_batch: usize,
    /// Which ceiling won.
    pub limited_by: LimitedBy,
    /// Batch that the memory budget alone permits.
    pub mem_cap: usize,
    /// Batch that the grid alone permits.
    pub dispatch_cap: Option<usize>,
    /// Bytes that one batch row costs.
    pub row_footprint_bytes: u64,
    /// Memory budget used.
    pub mem_budget_bytes: u64,
}

/// Bytes of one row as the capacity counts them: at least one, at most the largest `u64`.
pub open spec fn counted_row(p: FftProblem) -> u64 {
    if p.row_bytes() > u64::MAX {
        u64::MAX
    } else if p.row_bytes() < 1 {
        1
    } else {
        p.row_bytes() as u64
    }
}

/// The capacity of a device: the dispatch ceiling where it is below the memory ceiling, else the
/// memory ceiling.
pub open spec fn capacity(p: FftProblem, budget: u64, dispatch: Option<u64>) -> BatchCapacity {
    let row = counted_row(p);
    let mem = (budget / row) as usize;
    let (max_batch, limited_by) = match dispatch {
        Some(d) if (d as usize) < mem => (d as usize, LimitedBy::Dispatch),
        _ => (mem, LimitedBy::Memory),
    };
    BatchCapacity {
        max_batch,
        limited_by,
        mem_cap: mem,
        dispatch_cap: match dispatch {
            Some(d) => Some(d as usize),
            None => None,
        },
        row_footprint_bytes: row,
        mem_budget_bytes: budget,
    }
}

/// The smaller of the memory and dispatch ceilings.
pub fn max_fft_batch(problem: FftProblem, caps: DeviceCaps) -> (r: BatchCapacity)
    requires
        problem.countable(),
    ensures
        r == capacity(problem, caps.mem_budget_bytes, caps.dispatch_cap),
{
    let bytes: u64 = problem.row_footprint_bytes();
    let row: u64 = if bytes >= 1 {
        bytes
    } else {
        1
    };
    let mem_cap: usize = #[verifier::truncate] ((caps.mem_budget_bytes / row) as usize);
    let disp = match caps.dispatch_cap {
        Some(c) => Some(#[verifier::truncate] (c as usize)),
        None => None,
    };
    let (max_batch, limited_by) = match disp {
        Some(d) if d < mem_cap => (d, LimitedBy::Dispatch),
        _ => (mem_cap, LimitedBy::Memory),
    };
    BatchCapacity {
        max_batch,
        limited_by,
        mem_cap,
        dispatch_cap: disp,
        row_footprint_bytes: row,
        mem_budget_bytes: caps.mem_budget_bytes,
    }
}

/// A batch within the capacity fits the memory budget and the grid.
pub proof fn capacity_is_safe(p: FftProblem, budget: u64, dispatch: Option<u64>, batch: nat)
    requires
        budget <= usize::MAX,
        dispatch is Some ==> dispatch->0 <= usize::MAX,
        batch <= capacity(p, budget, dispatch).max_batch,
    ensures
        batch * counted_row(p) <= budget,
        dispatch matches Some(d) ==> batch <= d,
{
    let row = counted_row(p) as int;
    let mem = budget as int / row;
    vstd::arithmetic::div_mod::lemma_fundamental_div_mod(budget as int, row);
    assert(batch * row <= budget) by (nonlinear_arith)
        requires
            batch <= mem,
            row >= 1,
            budget == row * mem + budget as int % row,
            budget as int % row >= 0,
    ;
}

/// The next larger batch does not fit: the capacity is the largest safe batch.
pub proof fn capacity_is_largest(p: FftProblem, budget: u64, dispatch: Option<u64>)
    requires
        budget <= usize::MAX,
        dispatch is Some ==> dispatch->0 <= usize::MAX,
    ensures
        ({
            let next = capacity(p, budget, dispatch).max_batch + 1;
            next * counted_row(p) > budget || (dispatch matches Some(d) && next > d)
        }),
{
    let row = counted_row(p) as int;
    let mem = budget as int / row;
    vstd::arithmetic::div_mod::lemma_fundamental_div_mod(budget as int, row);
    assert((mem + 1) * row > budget) by (nonlinear_arith)
        requires
            row >= 1,
            budget == row * mem + budget as int % row,
            budget as int % row < row,
    ;
}

/// The dispatch ceiling of a device: wgpu and Vulkan map one workgroup to each row.
pub open spec fn dispatch_limit(d: Device) -> Option<u64> {
    if d is Gpu || d is Vulkan {
        Some(WGPU_MAX_WORKGROUPS_PER_DIM)
    } else {
        None
    }
}

/// The dispatch ceiling of a device's batch dimension.
pub fn dispatch_cap_for(device: Device) -> (r: Option<u64>)
    ensures
        r == dispatch_limit(device),
{
    match device {
        Device::Gpu => Some(WGPU_MAX_WORKGROUPS_PER_DIM),
        Device::Vulkan => Some(WGPU_MAX_WORKGROUPS_PER_DIM),
        _ => None,
    }
}

/// The memory budget, in bytes, that a text in mebibytes gives; `None` when it is no number.
pub open spec fn override_bytes(text: Option<Seq<char>>) -> Option<nat> {
    match text {
        Some(t) => match number_within(trimmed(t), u64::MAX as nat) {
            Some(mb) => Some(mb * 1024 * 1024),
            None => None,
        },
        None => None,
    }
}

fn mem_budget_override(text: Option<&str>) -> (r: Option<u64>)
    requires
        override_bytes(view_of(text)) matches Some(b) ==> b <= u64::MAX,
    ensures
        match override_bytes(view_of(text)) {
            Some(b) => r == Some(b as u64),
            None => r is None,
        },
{
    match text {
        Some(t) => match parse_u64(trim_text(t).as_str()) {
            Some(mb) => Some(mb * 1024 * 1024),
            None => None,
        },
        None => None,
    }
}

/// `rlx_runtime::soft_memory_budget_bytes` asks the machine for its soft memory budget; the answer
/// depends on the machine and its environment, so nothing is claimed of it.
#[verifier::external_body]
fn soft_memory_budget() -> (r: Option<usize>) {
    rlx_runtime::soft_memory_budget_bytes()
}

/// The ceilings of a device, from an explicit budget in mebibytes, else the machine's soft budget,
/// else the default.
pub fn device_caps_from(device: Device, override_mb: Option<&str>, soft: Option<usize>) -> (r:
    DeviceCaps)
    requires
        override_bytes(view_of(override_mb)) matches Some(b) ==> b <= u64::MAX,
    ensures
        r.dispatch_cap == dispatch_limit(device),
        match override_bytes(view_of(override_mb)) {
            Some(b) => r.mem_budget_bytes == b && r.mem_source@
                == "RLX_FFT_MEM_BUDGET_MB override"@,
            None => match soft {
                Some(b) => r.mem_budget_bytes == b && r.mem_source@
                    == "unified memory (hw.memsize × soft fraction)"@,
                None => r.mem_budget_bytes == DEFAULT_MEM_BUDGET_BYTES && r.mem_source@
                    == "default 2 GiB (set RLX_FFT_MEM_BUDGET_MB)"@,
            },
        },
{
    let (mem_budget_bytes, mem_source) = match mem_budget_override(override_mb) {
        Some(b) => (b, "RLX_FFT_MEM_BUDGET_MB override"),
        None => match soft {
            Some(b) => (b as u64, "unified memory (hw.memsize × soft fraction)"),
            None => (DEFAULT_MEM_BUDGET_BYTES, "default 2 GiB (set RLX_FFT_MEM_BUDGET_MB)"),
        },
    };
    DeviceCaps { mem_budget_bytes, dispatch_cap: dispatch_cap_for(device), mem_source }
}

/// The ceilings of a device on this machine, with an explicit budget in mebibytes where one is
/// given.
pub fn detect_device_caps(device: Device, override_mb: Option<&str>) -> (r: DeviceCaps)
    requires
        override_bytes(view_of(override_mb)) matches Some(b) ==> b <= u64::MAX,
    ensures
        r.dispatch_cap == dispatch_limit(device),
        override_bytes(view_of(override_mb)) matches Some(b) ==> r.mem_budget_bytes == b,
{
    device_caps_from(device, override_mb, soft_memory_budget())
}

/// The capacity of a device on this machine.
pub fn auto_max_fft_batch(device: Device, problem: FftProblem, override_mb: Option<&str>) -> (r:
    BatchCapacity)
    requires
        problem.countable(),
        override_bytes(view_of(override_mb)) matches Some(b) ==> b <= u64::MAX,
    ensures
        r == capacity(problem, r.mem_budget_bytes, dispatch_limit(device)),
        override_bytes(view_of(override_mb)) matches Some(b) ==> r.mem_budget_bytes == b,
{
    max_fft_batch(problem, detect_device_caps(device, override_mb))
}

/// A requested batch lowered to a capacity, and the ceiling that lowered it.
pub open spec fn clamped(cap: BatchCapacity, requested: usize) -> (usize, Option<LimitedBy>) {
    if requested > cap.max_batch {
        (cap.max_batch, Some(cap.limited_by))
    } else {
        (requested, None)
    }
}

/// Lowers a requested batch to a capacity.
pub fn clamp_to(cap: BatchCapacity, requested: usize) -> (r: (usize, Option<LimitedBy>))
    ensures
        r == clamped(cap, requested),
{
    if requested > cap.max_batch {
        (cap.max_batch, Some(cap.limited_by))
    } else {
        (requested, None)
    }
}

/// Lowers a requested batch to the capacity of a device on this machine.
pub fn clamp_batch(
    device: Device,
    problem: FftProblem,
    requested: usize,
    override_mb: Option<&str>,
) -> (r: (usize, Option<LimitedBy>))
    requires
        problem.countable(),
        override_bytes(view_of(override_mb)) matches Some(b) ==> b <= u64::MAX,
    ensures
        match override_bytes(view_of(override_mb)) {
            Some(b) => r == clamped(
                capacity(problem, b as u64, dispatch_limit(device)),
                requested,
            ),
            None => exists|b: u64| r == #[trigger] clamped(
                capacity(problem, b, dispatch_limit(device)),
                requested,
            ),
        },
{
    let cap = auto_max_fft_batch(device, problem, override_mb);
    let r = clamp_to(cap, requested);
    assert(r == clamped(
        capacity(problem, cap.mem_budget_bytes, dispatch_limit(device)),
        requested,
    ));
    r
}

/// Clamping twice changes nothing more, and never raises a batch.
pub proof fn clamping_is_stable(cap: BatchCapacity, requested: usize)
    ensures
        clamped(cap, requested).0 <= requested,
        clamped(cap, clamped(cap, requested).0) == (clamped(cap, requested).0, None::<LimitedBy>),
{
}

} // verus!

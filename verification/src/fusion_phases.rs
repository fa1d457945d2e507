//! Phases of fusing the Welch peak graph: profiles, savings, the fusion gate, rows and reports.

use crate::ablation_csv::{bool_text, show_bool};
use crate::deploy_graph::build_fft_only_graph;
use crate::device::{
    reports, resolve_train_device_in, resolved, view_of, wanted_device, Available, Device,
    DeviceError,
};
use crate::figure::Figure;
use crate::html::str_views;
use crate::lower::{ir_nodes, ir_op, ir_outputs, ir_plan, lower, IrNode, IrOp};
use crate::pages::{each, fill, filled};
use crate::scalar::Residue;
use crate::text::{
    align_left, align_right, decimal, decimal_text, left_aligned, right_aligned, same_text,
    usize_text,
};
use rlx_ir::Graph;
use vstd::prelude::*;

verus! {

/// The traffic of one run of a graph.
#[derive(Debug, Clone, Copy, PartialEq, Eq, Structural)]
pub struct IoProfile {
    pub kernel_launches: usize,
    pub sync_points: usize,
    pub host_output_bytes: u64,
    pub device_traffic_bytes: u64,
}

impl IoProfile {
    /// Whether every count fits the signed numbers that savings are counted in.
    pub open spec fn countable(self) -> bool {
        &&& self.kernel_launches <= isize::MAX
        &&& self.sync_points <= isize::MAX
        &&& self.host_output_bytes <= i64::MAX
        &&& self.device_traffic_bytes <= i64::MAX
    }

    /// Whether every count fits the signed numbers that savings are counted in.
    pub fn is_countable(&self) -> (r: bool)
        ensures
            r == self.countable(),
    {
        self.kernel_launches <= isize::MAX as usize && self.sync_points <= isize::MAX as usize
            && self.host_output_bytes <= i64::MAX as u64 && self.device_traffic_bytes
            <= i64::MAX as u64
    }
}

/// What a fusion saves; negative where it costs.
#[derive(Debug, Clone, Copy, PartialEq, Eq, Structural)]
pub struct Savings {
    pub launches_saved: isize,
    pub sync_points_saved: isize,
    pub host_readback_bytes_saved: i64,
    pub device_traffic_bytes_saved: i64,
}

/// The kinds of backends that fusion tells apart.
#[derive(Debug, Clone, Copy, PartialEq, Eq, Structural)]
pub enum FusionTarget {
    Cpu,
    Metal,
    Mlx,
    Wgpu,
    Cuda,
    Rocm,
    Tpu,
}

/// `rlx_compile::fusion_benefit` subtracts each count of the fused graph from that of the graph
/// before it.
#[verifier::external_body]
fn benefit_between(before: IoProfile, after: IoProfile) -> (r: Savings)
    requires
        before.countable(),
        after.countable(),
    ensures
        r.launches_saved == before.kernel_launches - after.kernel_launches,
        r.sync_points_saved == before.sync_points - after.sync_points,
        r.host_readback_bytes_saved == before.host_output_bytes - after.host_output_bytes,
        r.device_traffic_bytes_saved == before.device_traffic_bytes - after.device_traffic_bytes,
{
    let x = rlx_compile::FusionIoProfile { kernel_launches: before.kernel_launches, sync_points: before.sync_points,
        host_output_bytes: before.host_output_bytes, device_traffic_bytes: before.device_traffic_bytes };
    let y = rlx_compile::FusionIoProfile { kernel_launches: after.kernel_launches, sync_points: after.sync_points,
        host_output_bytes: after.host_output_bytes, device_traffic_bytes: after.device_traffic_bytes };
    let b = rlx_compile::fusion_benefit(&x, &y);
    Savings {
        launches_saved: b.launches_saved,
        sync_points_saved: b.sync_points_saved,
        host_readback_bytes_saved: b.host_readback_bytes_saved,
        device_traffic_bytes_saved: b.device_traffic_bytes_saved,
    }
}

/// Whether the costs of a target favour a fusion.
pub uninterp spec fn gate_favours(target: FusionTarget, before: IoProfile, after: IoProfile) -> bool;

/// `rlx_compile::should_fuse_with_target` weighs the savings of a fusion by the fixed costs of a
/// target; the answer is a function of the target and the two profiles alone.
#[verifier::external_body]
fn gate_fuses(target: FusionTarget, before: IoProfile, after: IoProfile) -> (r: bool)
    requires
        before.countable(),
        after.countable(),
    ensures
        r == gate_favours(target, before, after),
{
    let t = match target {
        FusionTarget::Cpu => rlx_compile::FusionTarget::Cpu,
        FusionTarget::Metal => rlx_compile::FusionTarget::Metal,
        FusionTarget::Mlx => rlx_compile::FusionTarget::Mlx,
        FusionTarget::Wgpu => rlx_compile::FusionTarget::Wgpu,
        FusionTarget::Cuda => rlx_compile::FusionTarget::Cuda,
        FusionTarget::Rocm => rlx_compile::FusionTarget::Rocm,
        FusionTarget::Tpu => rlx_compile::FusionTarget::Tpu,
    };
    let x = rlx_compile::FusionIoProfile { kernel_launches: before.kernel_launches, sync_points: before.sync_points,
        host_output_bytes: before.host_output_bytes, device_traffic_bytes: before.device_traffic_bytes };
    let y = rlx_compile::FusionIoProfile { kernel_launches: after.kernel_launches, sync_points: after.sync_points,
        host_output_bytes: after.host_output_bytes, device_traffic_bytes: after.device_traffic_bytes };
    rlx_compile::should_fuse_with_target(t, &x, &y)
}

/// The nodes of the graph of a transform alone: the rows, a plane of noughts, both planes side by
/// side, and their transform.
pub open spec fn fft_only_nodes(rows: usize, n_fft: usize) -> Seq<IrNode> {
    let one = seq![rows, n_fft];
    let two = seq![rows, (2 * n_fft) as usize];
    seq![
        IrNode::Plain { op: IrOp::Input { name: "segs"@ }, shape: one },
        IrNode::Plain { op: IrOp::Sub { a: 0, b: 0 }, shape: one },
        IrNode::Plain { op: IrOp::Concat { parts: seq![0usize, 1usize], axis: 1 }, shape: two },
        IrNode::Plain { op: IrOp::Fft { a: 2, inverse: false }, shape: two },
    ]
}

/// The traffic of a transform alone: three nodes run, the planes of the transform are handed out, and
/// every node that runs reads its operands and writes its result.
pub open spec fn fft_only_traffic(rows: int, n_fft: int) -> IoProfile {
    IoProfile {
        kernel_launches: 3,
        sync_points: 0,
        host_output_bytes: (8 * (rows * n_fft)) as u64,
        device_traffic_bytes: (44 * (rows * n_fft)) as u64,
    }
}

/// `rlx_runtime::graph_io::profile_graph_io` on the graph of a transform alone: a launch for every
/// node but the input, four bytes for every number that such a node reads or writes, and for every
/// number of the result. No node of that graph waits for the host.
#[verifier::external_body]
fn profile_fft_only(g: &Graph) -> (r: IoProfile)
    requires
        ir_outputs(*g) == seq![3usize],
        exists|rows: usize, n_fft: usize|
            ir_nodes(*g) == #[trigger] fft_only_nodes(rows, n_fft) && 8 * (rows * n_fft)
                <= usize::MAX && 44 * (rows * n_fft) <= u64::MAX,
    ensures
        forall|rows: usize, n_fft: usize|
            ir_nodes(*g) == #[trigger] fft_only_nodes(rows, n_fft) ==> r == fft_only_traffic(
                rows as int,
                n_fft as int,
            ),
{
    let p = rlx_runtime::graph_io::profile_graph_io(g);
    IoProfile { kernel_launches: p.kernel_launches, sync_points: p.sync_points,
        host_output_bytes: p.host_output_bytes, device_traffic_bytes: p.device_traffic_bytes }
}

/// The traffic of the transform of a backend alone, on some rows.
pub fn fft_only_profile(rows: usize, n_fft: usize) -> (r: IoProfile)
    requires
        rows > 0,
        n_fft > 0,
        8 * (rows * n_fft) <= usize::MAX,
        44 * (rows * n_fft) <= i64::MAX,
    ensures
        r == fft_only_traffic(rows as int, n_fft as int),
        r.countable(),
{
    proof {
        assert(rows * (2 * n_fft) == 2 * (rows * n_fft)) by (nonlinear_arith);
        assert(2 * n_fft <= rows * (2 * n_fft)) by (nonlinear_arith)
            requires
                rows > 0,
                n_fft > 0,
        ;
    }
    let plan = build_fft_only_graph::<Residue>(rows, n_fft);
    match lower(&plan.graph) {
        Some(g) => {
            proof {
                let nodes = plan.graph.nodes@;
                let want = fft_only_nodes(rows, n_fft);
                assert(ir_op(nodes[0].op) == (IrOp::Input { name: "segs"@ }));
                assert(ir_op(nodes[1].op) == (IrOp::Sub { a: 0, b: 0 }));
                assert(ir_op(nodes[2].op) == (IrOp::Concat {
                    parts: seq![0usize, 1usize],
                    axis: 1,
                }));
                assert(ir_op(nodes[3].op) == (IrOp::Fft { a: 2, inverse: false }));
                assert(ir_plan(nodes) =~= want);
                assert(ir_nodes(g) == want);
            }
            profile_fft_only(&g)
        },
        None => {
            assert(false);
            IoProfile {
                kernel_launches: 0,
                sync_points: 0,
                host_output_bytes: 0,
                device_traffic_bytes: 0,
            }
        },
    }
}

/// The kind of a backend. Level-Zero devices count as WebGPU ones, external and
/// neural ones as the host.
pub open spec fn target_of(d: Device) -> FusionTarget {
    match d {
        Device::Metal => FusionTarget::Metal,
        Device::Mlx => FusionTarget::Mlx,
        Device::Ane => FusionTarget::Mlx,
        Device::Cuda => FusionTarget::Cuda,
        Device::Rocm => FusionTarget::Rocm,
        Device::Gpu => FusionTarget::Wgpu,
        Device::Vulkan => FusionTarget::Wgpu,
        Device::WebGpu => FusionTarget::Wgpu,
        Device::DirectX => FusionTarget::Wgpu,
        Device::OpenGl => FusionTarget::Wgpu,
        Device::OneApi => FusionTarget::Wgpu,
        Device::Tpu => FusionTarget::Tpu,
        Device::Cpu => FusionTarget::Cpu,
        Device::Hexagon => FusionTarget::Cpu,
        Device::Xdna => FusionTarget::Cpu,
        Device::Egpu => FusionTarget::Cpu,
    }
}

/// The kind of a backend.
pub fn fusion_target_for_device(device: Device) -> (r: FusionTarget)
    ensures
        r == target_of(device),
{
    match device {
        Device::Metal => FusionTarget::Metal,
        Device::Mlx => FusionTarget::Mlx,
        Device::Ane => FusionTarget::Mlx,
        Device::Cuda => FusionTarget::Cuda,
        Device::Rocm => FusionTarget::Rocm,
        Device::Gpu => FusionTarget::Wgpu,
        Device::Vulkan => FusionTarget::Wgpu,
        Device::WebGpu => FusionTarget::Wgpu,
        Device::DirectX => FusionTarget::Wgpu,
        Device::OpenGl => FusionTarget::Wgpu,
        Device::OneApi => FusionTarget::Wgpu,
        Device::Tpu => FusionTarget::Tpu,
        Device::Cpu => FusionTarget::Cpu,
        Device::Hexagon => FusionTarget::Cpu,
        Device::Xdna => FusionTarget::Cpu,
        Device::Egpu => FusionTarget::Cpu,
    }
}

// ---------------------------------------------------------------------------
// Runs
// ---------------------------------------------------------------------------

/// Batches from which a sweep lowers its iterations.
pub const LARGE_BATCH: usize = 4096;

/// The iterations of a large batch.
pub const LARGE_BATCH_ITERS: usize = 15;

/// The iterations of a batch in a sweep.
pub open spec fn sweep_iters(batch: usize, iters: usize) -> usize {
    if batch >= LARGE_BATCH && iters > LARGE_BATCH_ITERS {
        LARGE_BATCH_ITERS
    } else {
        iters
    }
}

/// The batches of a sweep with their iterations.
pub open spec fn sweep_runs(batches: Seq<usize>, iters: usize) -> Seq<(usize, usize)> {
    batches.map_values(|b: usize| (b, sweep_iters(b, iters)))
}

/// The batches of a sweep with their iterations.
pub fn plan_fusion_sweep(batches: &Vec<usize>, iters: usize) -> (r: Vec<(usize, usize)>)
    ensures
        r@ == sweep_runs(batches@, iters),
{
    let mut out: Vec<(usize, usize)> = Vec::new();
    let mut i: usize = 0;
    while i < batches.len()
        invariant
            i <= batches.len(),
            out.len() == i,
            forall|k: int| 0 <= k < i ==> (#[trigger] out@[k]) == sweep_runs(batches@, iters)[k],
        decreases batches.len() - i,
    {
        let b: usize = batches[i];
        let run: usize = if b >= LARGE_BATCH && iters > LARGE_BATCH_ITERS {
            LARGE_BATCH_ITERS
        } else {
            iters
        };
        out.push((b, run));
        i += 1;
    }
    assert(out@ =~= sweep_runs(batches@, iters));
    out
}

/// Why a bench of the phases does not start.
#[derive(Debug)]
pub enum PhaseError {
    /// Iterations or peaks are missing.
    Empty,
    Device(DeviceError),
}

/// Checks a bench of the phases and resolves its device.
pub fn check_phase_bench(
    iters: usize,
    k: usize,
    device_name: &str,
    environment: Option<&str>,
    live: Available,
) -> (r: Result<Device, PhaseError>)
    ensures
        if iters == 0 || k == 0 {
            r matches Err(e) && e is Empty
        } else {
            match resolved(wanted_device(Some(device_name@), view_of(environment)), live) {
                Ok(d) => r == Ok::<Device, PhaseError>(d),
                Err(f) => r matches Err(PhaseError::Device(e)) && reports(e, f),
            }
        },
{
    if iters == 0 || k == 0 {
        return Err(PhaseError::Empty);
    }
    let requested = Some(device_name);
    assert(view_of(requested) == Some(device_name@));
    match resolve_train_device_in(requested, environment, live) {
        Ok(d) => Ok(d),
        Err(e) => Err(PhaseError::Device(e)),
    }
}

// ---------------------------------------------------------------------------
// Reports
// ---------------------------------------------------------------------------

/// The time of one phase.
#[derive(Clone, Debug)]
pub struct FusionPhaseRow {
    pub phase: String,
    pub batch: usize,
    pub k: usize,
    pub device: String,
    pub ms: Figure,
    pub io: IoProfile,
    pub predicted_cost_ns: Figure,
}

/// The phases of one batch.
#[derive(Clone, Debug)]
pub struct FusionPhaseReport {
    pub n_fft: usize,
    pub batch: usize,
    pub k: usize,
    pub device: String,
    pub fft_only_graph: IoProfile,
    pub fused_graph: IoProfile,
    pub fusion_launches_saved: isize,
    pub fusion_sync_saved: isize,
    pub fusion_readback_saved: i64,
    pub fusion_gate_fuse: bool,
    pub rows: Vec<FusionPhaseRow>,
}

/// What the phases of a batch measured: the read-back baseline, the block layout, and the fused
/// operator.
#[derive(Clone, Debug)]
pub struct PhaseTimes {
    pub baseline: Figure,
    pub block_layout: Figure,
    pub fused: Figure,
    pub predicted_cost_ns: Figure,
}

/// The names of the phases.
pub const BASELINE_PHASE: &'static str = "baseline_interleaved_readback";

pub const BLOCK_PHASE: &'static str = "phase1_block_layout";

pub const FUSED_PHASE: &'static str = "phase2_fused_welch_peaks_op";

/// Whether a row tells the time of a phase.
pub open spec fn phase_row(
    r: FusionPhaseRow,
    phase: Seq<char>,
    batch: usize,
    k: usize,
    device: Seq<char>,
    ms: Figure,
    io: IoProfile,
    predicted: Figure,
) -> bool {
    &&& r.phase@ == phase
    &&& r.batch == batch
    &&& r.k == k
    &&& r.device@ == device
    &&& r.ms@ == ms@
    &&& r.io == io
    &&& r.predicted_cost_ns@ == predicted@
}

fn make_phase(
    phase: &str,
    batch: usize,
    k: usize,
    device: &str,
    ms: &Figure,
    io: IoProfile,
    predicted: &Figure,
) -> (r: FusionPhaseRow)
    ensures
        phase_row(r, phase@, batch, k, device@, *ms, io, *predicted),
{
    FusionPhaseRow {
        phase: phase.to_owned(),
        batch,
        k,
        device: device.to_owned(),
        ms: ms.copy(),
        io,
        predicted_cost_ns: predicted.copy(),
    }
}

/// The report of a batch from the profiles of its graphs and the times of its phases, with what the
/// costs of the target favour.
pub fn phase_report_with(
    n_fft: usize,
    batch: usize,
    k: usize,
    device_name: &str,
    fft_only: IoProfile,
    fused: IoProfile,
    savings: Savings,
    fuse: bool,
    times: &PhaseTimes,
) -> (r: FusionPhaseReport)
    ensures
        r.n_fft == n_fft,
        r.batch == batch,
        r.k == k,
        r.device@ == device_name@,
        r.fft_only_graph == fft_only,
        r.fused_graph == fused,
        r.fusion_launches_saved == savings.launches_saved,
        r.fusion_sync_saved == savings.sync_points_saved,
        r.fusion_readback_saved == savings.host_readback_bytes_saved,
        r.fusion_gate_fuse == fuse,
        r.rows@.len() == 3,
        phase_row(
            r.rows@[0],
            BASELINE_PHASE@,
            batch,
            k,
            device_name@,
            times.baseline,
            fft_only,
            times.predicted_cost_ns,
        ),
        phase_row(
            r.rows@[1],
            BLOCK_PHASE@,
            batch,
            k,
            device_name@,
            times.block_layout,
            fft_only,
            times.predicted_cost_ns,
        ),
        phase_row(
            r.rows@[2],
            FUSED_PHASE@,
            batch,
            k,
            device_name@,
            times.fused,
            fused,
            times.predicted_cost_ns,
        ),
{
    let mut rows: Vec<FusionPhaseRow> = Vec::new();
    let cost = &times.predicted_cost_ns;
    rows.push(make_phase(BASELINE_PHASE, batch, k, device_name, &times.baseline, fft_only, cost));
    rows.push(make_phase(BLOCK_PHASE, batch, k, device_name, &times.block_layout, fft_only, cost));
    rows.push(make_phase(FUSED_PHASE, batch, k, device_name, &times.fused, fused, cost));
    FusionPhaseReport {
        n_fft,
        batch,
        k,
        device: device_name.to_owned(),
        fft_only_graph: fft_only,
        fused_graph: fused,
        fusion_launches_saved: savings.launches_saved,
        fusion_sync_saved: savings.sync_points_saved,
        fusion_readback_saved: savings.host_readback_bytes_saved,
        fusion_gate_fuse: fuse,
        rows,
    }
}

/// The report of a batch from the profiles of its graphs and the times of its phases.
pub fn phase_report(
    n_fft: usize,
    batch: usize,
    k: usize,
    device_name: &str,
    device: Device,
    fft_only: IoProfile,
    fused: IoProfile,
    times: &PhaseTimes,
) -> (r: FusionPhaseReport)
    requires
        fft_only.countable(),
        fused.countable(),
    ensures
        r.n_fft == n_fft,
        r.batch == batch,
        r.k == k,
        r.device@ == device_name@,
        r.fft_only_graph == fft_only,
        r.fused_graph == fused,
        r.fusion_launches_saved == fft_only.kernel_launches - fused.kernel_launches,
        r.fusion_sync_saved == fft_only.sync_points - fused.sync_points,
        r.fusion_readback_saved == fft_only.host_output_bytes - fused.host_output_bytes,
        r.fusion_gate_fuse == gate_favours(target_of(device), fft_only, fused),
        r.rows@.len() == 3,
        phase_row(
            r.rows@[0],
            BASELINE_PHASE@,
            batch,
            k,
            device_name@,
            times.baseline,
            fft_only,
            times.predicted_cost_ns,
        ),
        phase_row(
            r.rows@[1],
            BLOCK_PHASE@,
            batch,
            k,
            device_name@,
            times.block_layout,
            fft_only,
            times.predicted_cost_ns,
        ),
        phase_row(
            r.rows@[2],
            FUSED_PHASE@,
            batch,
            k,
            device_name@,
            times.fused,
            fused,
            times.predicted_cost_ns,
        ),
{
    let savings = benefit_between(fft_only, fused);
    let fuse = gate_fuses(fusion_target_for_device(device), fft_only, fused);
    phase_report_with(n_fft, batch, k, device_name, fft_only, fused, savings, fuse, times)
}

/// A signed number in decimal.
pub open spec fn signed(n: int) -> Seq<char> {
    if n < 0 {
        "-"@ + decimal((-n) as nat)
    } else {
        decimal(n as nat)
    }
}

/// Writes a signed number in decimal.
pub fn signed_text(n: i64) -> (r: String)
    ensures
        r@ == signed(n as int),
{
    if n < 0 {
        let m: i64 = n + 1;
        let size: u64 = (-m) as u64 + 1;
        let mut out = "-".to_owned();
        out.push_str(decimal_text(size).as_str());
        out
    } else {
        decimal_text(n as u64)
    }
}

pub const REPORT_HEAD: [&'static str; 5] = [
    "\n=== Fusion phase bench n_fft=",
    " batch=",
    " k=",
    " device=",
    " ===\n",
];

pub const IO_LINE: [&'static str; 5] = [
    " launches=",
    " sync=",
    " host_out=",
    " B device_traffic=",
    " B\n",
];

pub const BENEFIT_LINE: [&'static str; 5] = [
    "  fusion benefit: launches_saved=",
    " sync_saved=",
    " readback_saved=",
    " B gate_fuse=",
    "\n",
];

pub const PHASE_LINE: [&'static str; 5] = ["  ", " ms=", " speedup=", "x host_out=", " B\n"];

/// The traffic of a graph in a report.
pub open spec fn io_text(io: IoProfile) -> Seq<char> {
    filled(
        str_views(IO_LINE@),
        seq![
            decimal(io.kernel_launches as nat),
            decimal(io.sync_points as nat),
            decimal(io.host_output_bytes as nat),
            decimal(io.device_traffic_bytes as nat),
        ],
    )
}

fn show_io(io: IoProfile) -> (r: String)
    ensures
        r@ == io_text(io),
{
    let a = usize_text(io.kernel_launches);
    let b = usize_text(io.sync_points);
    let c = decimal_text(io.host_output_bytes);
    let d = decimal_text(io.device_traffic_bytes);
    let f = [a.as_str(), b.as_str(), c.as_str(), d.as_str()];
    assert(str_views(f@) =~= seq![a@, b@, c@, d@]);
    fill(&IO_LINE, &f)
}

/// The lines of the phases; `speedups` hold their ratios to the first, with two decimals.
pub open spec fn phase_lines(rows: Seq<FusionPhaseRow>, speedups: Seq<String>) -> spec_fn(
    int,
) -> Seq<char> {
    |i: int|
        filled(
            str_views(PHASE_LINE@),
            seq![
                left_aligned(rows[i].phase@, 32),
                right_aligned(rows[i].ms.fixed4@, 8),
                speedups[i]@,
                decimal(rows[i].io.host_output_bytes as nat),
            ],
        )
}

/// A report for a terminal, up to its phases.
pub open spec fn phase_text(report: FusionPhaseReport, speedups: Seq<String>) -> Seq<char> {
    filled(
        str_views(REPORT_HEAD@),
        seq![
            decimal(report.n_fft as nat),
            decimal(report.batch as nat),
            decimal(report.k as nat),
            report.device@,
        ],
    ) + "  IO fft-only:"@ + io_text(report.fft_only_graph) + "  IO fused:   "@ + io_text(
        report.fused_graph,
    ) + filled(
        str_views(BENEFIT_LINE@),
        seq![
            signed(report.fusion_launches_saved as int),
            signed(report.fusion_sync_saved as int),
            signed(report.fusion_readback_saved as int),
            bool_text(report.fusion_gate_fuse),
        ],
    ) + each(report.rows@.len(), phase_lines(report.rows@, speedups))
}

/// Writes a report for a terminal.
pub fn fusion_report_text(report: &FusionPhaseReport, speedups: &Vec<String>) -> (r: String)
    requires
        speedups.len() == report.rows.len(),
    ensures
        r@ == phase_text(*report, speedups@),
{
    let n = usize_text(report.n_fft);
    let b = usize_text(report.batch);
    let k = usize_text(report.k);
    let f = [n.as_str(), b.as_str(), k.as_str(), report.device.as_str()];
    assert(str_views(f@) =~= seq![n@, b@, k@, report.device@]);
    let mut out = fill(&REPORT_HEAD, &f);
    out.push_str("  IO fft-only:");
    out.push_str(show_io(report.fft_only_graph).as_str());
    out.push_str("  IO fused:   ");
    out.push_str(show_io(report.fused_graph).as_str());
    let launches = signed_text(report.fusion_launches_saved as i64);
    let syncs = signed_text(report.fusion_sync_saved as i64);
    let readback = signed_text(report.fusion_readback_saved);
    let fuse = show_bool(report.fusion_gate_fuse);
    let f = [launches.as_str(), syncs.as_str(), readback.as_str(), fuse];
    assert(str_views(f@) =~= seq![launches@, syncs@, readback@, fuse@]);
    out.push_str(fill(&BENEFIT_LINE, &f).as_str());
    let ghost start = out@;
    let ghost lines = phase_lines(report.rows@, speedups@);
    let mut i: usize = 0;
    assert(out@ =~= start + each(0, lines));
    while i < report.rows.len()
        invariant
            i <= report.rows.len(),
            speedups.len() == report.rows.len(),
            lines == phase_lines(report.rows@, speedups@),
            out@ == start + each(i as nat, lines),
        decreases report.rows.len() - i,
    {
        let row = &report.rows[i];
        let phase = align_left(row.phase.as_str(), 32);
        let ms = align_right(row.ms.fixed4.as_str(), 8);
        let bytes = decimal_text(row.io.host_output_bytes);
        let f = [phase.as_str(), ms.as_str(), speedups[i].as_str(), bytes.as_str()];
        assert(str_views(f@) =~= seq![phase@, ms@, speedups@[i as int]@, bytes@]);
        out.push_str(fill(&PHASE_LINE, &f).as_str());
        assert(out@ =~= start + each((i + 1) as nat, lines));
        i += 1;
    }
    out
}

/// The place of the first row of a phase.
pub open spec fn phase_place(rows: Seq<FusionPhaseRow>, phase: Seq<char>) -> Option<int>
    decreases rows.len(),
{
    if rows.len() == 0 {
        None
    } else if rows[0].phase@ == phase {
        Some(0)
    } else {
        match phase_place(rows.drop_first(), phase) {
            Some(k) => Some(k + 1),
            None => None,
        }
    }
}

/// The place of the first row of a phase.
pub fn find_phase(rows: &Vec<FusionPhaseRow>, phase: &str) -> (r: Option<usize>)
    ensures
        match r {
            Some(i) => i < rows.len() && phase_place(rows@, phase@) == Some(i as int),
            None => phase_place(rows@, phase@) is None,
        },
{
    let mut i: usize = 0;
    assert(rows@.skip(0) =~= rows@);
    while i < rows.len()
        invariant
            i <= rows.len(),
            phase_place(rows@, phase@) == (match phase_place(rows@.skip(i as int), phase@) {
                Some(k) => Some(k + i),
                None => None,
            }),
        decreases rows.len() - i,
    {
        assert(rows@.skip(i as int)[0] == rows@[i as int]);
        if same_text(rows[i].phase.as_str(), phase) {
            return Some(i);
        }
        assert(rows@.skip(i as int).drop_first() =~= rows@.skip(i + 1));
        i += 1;
    }
    None
}

/// A report holds each phase once, at its own place.
pub proof fn phases_are_found(r: FusionPhaseReport)
    requires
        r.rows@.len() == 3,
        r.rows@[0].phase@ == BASELINE_PHASE@,
        r.rows@[1].phase@ == BLOCK_PHASE@,
        r.rows@[2].phase@ == FUSED_PHASE@,
    ensures
        phase_place(r.rows@, BASELINE_PHASE@) == Some(0int),
        phase_place(r.rows@, BLOCK_PHASE@) == Some(1int),
        phase_place(r.rows@, FUSED_PHASE@) == Some(2int),
{
    reveal_strlit("baseline_interleaved_readback");
    reveal_strlit("phase1_block_layout");
    reveal_strlit("phase2_fused_welch_peaks_op");
    assert(BASELINE_PHASE@.len() != BLOCK_PHASE@.len());
    assert(BASELINE_PHASE@.len() != FUSED_PHASE@.len());
    assert(BLOCK_PHASE@.len() != FUSED_PHASE@.len());
    reveal_with_fuel(phase_place, 4);
    let d = r.rows@.drop_first();
    assert(d[0] == r.rows@[1]);
    assert(d.drop_first()[0] == r.rows@[2]);
}

pub const SUMMARY_HEAD: &'static str = "=== Fusion phase crossover (speedup vs baseline) ===\n   batch   phase1   phase2   readback B\n";

pub const SUMMARY_LINE: [&'static str; 5] = ["", " ", "x ", "x ", "\n"];

/// The lines of a sweep; each pair of `speedups` holds the ratios of the two phases, with two
/// decimals.
pub open spec fn summary_lines(
    sweep: Seq<FusionPhaseReport>,
    speedups: Seq<(String, String)>,
) -> spec_fn(int) -> Seq<char> {
    |i: int|
        filled(
            str_views(SUMMARY_LINE@),
            seq![
                right_aligned(decimal(sweep[i].batch as nat), 8),
                right_aligned(speedups[i].0@, 7),
                right_aligned(speedups[i].1@, 7),
                right_aligned(signed(sweep[i].fusion_readback_saved as int), 12),
            ],
        )
}

/// The summary of a sweep; nothing for a single batch.
pub open spec fn summary_text(
    sweep: Seq<FusionPhaseReport>,
    speedups: Seq<(String, String)>,
) -> Seq<char> {
    if sweep.len() <= 1 {
        Seq::empty()
    } else {
        SUMMARY_HEAD@ + each(sweep.len(), summary_lines(sweep, speedups)) + "\n"@
    }
}

/// Writes the summary of a sweep.
pub fn fusion_sweep_summary(
    sweep: &Vec<FusionPhaseReport>,
    speedups: &Vec<(String, String)>,
) -> (r: String)
    requires
        speedups.len() == sweep.len(),
    ensures
        r@ == summary_text(sweep@, speedups@),
{
    if sweep.len() <= 1 {
        return String::new();
    }
    let ghost lines = summary_lines(sweep@, speedups@);
    let mut out = SUMMARY_HEAD.to_owned();
    let mut i: usize = 0;
    assert(out@ =~= SUMMARY_HEAD@ + each(0, lines));
    while i < sweep.len()
        invariant
            i <= sweep.len(),
            speedups.len() == sweep.len(),
            lines == summary_lines(sweep@, speedups@),
            out@ == SUMMARY_HEAD@ + each(i as nat, lines),
        decreases sweep.len() - i,
    {
        let batch = align_right(usize_text(sweep[i].batch).as_str(), 8);
        let p1 = align_right(speedups[i].0.as_str(), 7);
        let p2 = align_right(speedups[i].1.as_str(), 7);
        let bytes = align_right(signed_text(sweep[i].fusion_readback_saved).as_str(), 12);
        let f = [batch.as_str(), p1.as_str(), p2.as_str(), bytes.as_str()];
        assert(str_views(f@) =~= seq![batch@, p1@, p2@, bytes@]);
        out.push_str(fill(&SUMMARY_LINE, &f).as_str());
        assert(out@ =~= SUMMARY_HEAD@ + each((i + 1) as nat, lines));
        i += 1;
    }
    out.push_str("\n");
    out
}

} // verus!

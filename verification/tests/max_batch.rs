use rlx_fft::device::Device;
use rlx_fft::max_batch::{
    clamp_batch, detect_device_caps, device_caps_from, dispatch_cap_for, max_fft_batch,
    DeviceCaps, FftProblem, LimitedBy, DEFAULT_MEM_BUDGET_BYTES, WGPU_MAX_WORKGROUPS_PER_DIM,
};

fn caps(mem_gib: u64, dispatch: Option<u64>) -> DeviceCaps {
    DeviceCaps {
        mem_budget_bytes: mem_gib * 1024 * 1024 * 1024,
        dispatch_cap: dispatch,
        mem_source: "test",
    }
}

#[test]
fn memory_bound_when_no_dispatch_cap() {
    let cap = max_fft_batch(FftProblem::single(256), caps(6, None));
    assert_eq!(cap.limited_by, LimitedBy::Memory);
    assert_eq!(cap.row_footprint_bytes, 256 * 2 * 4 * 3);
    assert_eq!(cap.max_batch, (6u64 * 1024 * 1024 * 1024 / 6144) as usize);
    assert_eq!(cap.dispatch_cap, None);
}

#[test]
fn dispatch_bound_kicks_in_for_wgpu() {
    let cap = max_fft_batch(
        FftProblem::single(256),
        caps(64, Some(WGPU_MAX_WORKGROUPS_PER_DIM)),
    );
    assert_eq!(cap.limited_by, LimitedBy::Dispatch);
    assert_eq!(cap.max_batch, 65535);
    assert!(65536 > cap.max_batch, "the crash batch is correctly excluded");
}

#[test]
fn memory_can_be_tighter_than_dispatch() {
    let cap = max_fft_batch(FftProblem::new(4096, 4, 1), caps(1, Some(65535)));
    assert_eq!(cap.limited_by, LimitedBy::Memory);
    assert!(cap.max_batch < 65535);
}

#[test]
fn precision_costs_batch() {
    let mem = DeviceCaps {
        mem_budget_bytes: 24576 * 100_000,
        dispatch_cap: None,
        mem_source: "test",
    };
    let f32x1 = max_fft_batch(FftProblem::new(256, 4, 1), mem).max_batch;
    let f64x1 = max_fft_batch(FftProblem::new(256, 8, 1), mem).max_batch;
    let f32x4 = max_fft_batch(FftProblem::new(256, 4, 4), mem).max_batch;
    assert_eq!(f32x1, 2 * f64x1);
    assert_eq!(f32x1, 4 * f32x4);
}

#[test]
fn detect_caps_sets_wgpu_dispatch() {
    assert_eq!(dispatch_cap_for(Device::Gpu), Some(65535));
    assert_eq!(dispatch_cap_for(Device::Cpu), None);
    assert_eq!(dispatch_cap_for(Device::Metal), None);
    let c = detect_device_caps(Device::Gpu, None);
    assert!(c.mem_budget_bytes > 0);
    assert_eq!(c.dispatch_cap, Some(65535));
}

#[test]
fn clamp_lowers_over_cap_batch() {
    let budget = Some("1048576");
    let (b, why) = clamp_batch(Device::Gpu, FftProblem::single(256), 200_000, budget);
    assert_eq!(b, 65535);
    assert_eq!(why, Some(LimitedBy::Dispatch));
    let (b2, why2) = clamp_batch(Device::Gpu, FftProblem::single(256), 1024, budget);
    assert_eq!(b2, 1024);
    assert_eq!(why2, None);
}

#[test]
fn budgets_come_from_the_override_then_the_machine_then_the_default() {
    let c = device_caps_from(Device::Cpu, Some(" 3 "), Some(7));
    assert_eq!(c.mem_budget_bytes, 3 * 1024 * 1024);
    assert_eq!(c.mem_source, "RLX_FFT_MEM_BUDGET_MB override");
    let c = device_caps_from(Device::Cpu, Some("much"), Some(7));
    assert_eq!(c.mem_budget_bytes, 7);
    let c = device_caps_from(Device::Cpu, None, None);
    assert_eq!(c.mem_budget_bytes, DEFAULT_MEM_BUDGET_BYTES);
}

#[test]
fn row_bytes_are_those_of_double_arithmetic() {
    for (n, e, l) in [(256usize, 4usize, 1usize), (131072, 8, 4), (3, 2, 0), (1 << 50, 4, 3)] {
        let p = FftProblem::new(n, e, l);
        let bytes = (n as u64 * 2 * e as u64 * (l.max(1) as u64)) as f64 * 3.0f64.max(1.0);
        assert_eq!(p.row_footprint_bytes(), bytes as u64);
    }
    for (n, e, l) in [(257usize, 3usize, 1usize), (131072, 8, 4), (1 << 50, 4, 3), (0, 4, 1)] {
        for copies in [
            0.5, 1.0, 1.1, 2.5, 3.0, 3.0000000000000004, 1e3, 1e18, 1e300, -2.0,
            f64::NAN, f64::INFINITY, f64::NEG_INFINITY,
        ] {
            let p = FftProblem { working_copies: f64::to_bits(copies), ..FftProblem::new(n, e, l) };
            let data = n as u64 * 2 * e as u64 * (l.max(1) as u64);
            let bytes = (data as f64 * copies.max(1.0)).ceil() as u64;
            assert_eq!(p.row_footprint_bytes(), bytes, "{n} {e} {l} {copies}");
        }
    }
}

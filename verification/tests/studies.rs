use rlx_fft::ablation_plan::{
    ablation_row_for, limit_sweep_devices, plan_ablation, plan_limit_sweep, AblationDir, PlanError,
    RunOutcome, StudyOptions, VariantCounts, VariantInfo,
};
use rlx_fft::butterfly::num_stages;
use rlx_fft::config::{FftLearnConfig, TransformDir};
use rlx_fft::device::{available_devices, Available, Device};
use rlx_fft::figure::Figure;
use rlx_fft::runner::{FftLearnRunner, RunError, RunStep};
use rlx_fft::scalar::{Residue, Scalar};
use rlx_fft::welch_peaks::{
    path_row, peaks_axes, peaks_model_steps, peaks_row, peaks_run_is_valid, peaks_table,
    plan_peaks_run, plan_peaks_sweep, reported_sizes, FastPeaks, PathFault, PathOutcome, PeaksLine,
    PeaksMeasured, PeaksPath, PeaksSettings,
};

fn fig(x: f64) -> Figure {
    Figure {
        bits: x.to_bits(),
        plain: format!("{x}"),
        fixed0: format!("{x:.0}"),
        fixed1: format!("{x:.1}"),
        fixed3: format!("{x:.3}"),
        fixed4: format!("{x:.4}"),
        fixed6: format!("{x:.6}"),
        sci2: format!("{x:.2e}"),
        sci3: format!("{x:.3e}"),
        sci4: format!("{x:.4e}"),
        sci6: format!("{x:.6e}"),
        json: if x.is_finite() {
            format!("{x:?}")
        } else {
            "null".to_string()
        },
    }
}

fn live() -> Available {
    Available {
        cpu: true,
        metal: true,
        mlx: false,
        ane: false,
        cuda: false,
        rocm: false,
        xdna: false,
        egpu: false,
        one_api: false,
        tpu: false,
        hexagon: false,
        gpu: false,
        vulkan: false,
        open_gl: false,
        direct_x: false,
        web_gpu: false,
    }
}

fn options() -> StudyOptions {
    StudyOptions {
        iters: 2,
        train_steps: 3,
        seed: 1,
        both_dirs: true,
        with_welch: false,
        record_failures: true,
    }
}

#[test]
fn studies_are_planned_in_order() {
    let counts = VariantCounts { forward: 2, inverse: 1, welch: 1 };
    let devices = vec!["cpu".to_string()];
    let jobs = plan_ablation(&vec![64, 128], &vec![1], &devices, &options(), counts, None, live()).unwrap();
    assert_eq!(jobs.len(), 6);
    assert_eq!(jobs[2].direction, AblationDir::Inverse);
    assert_eq!(jobs[3].n_fft, 128);
    assert!(matches!(
        plan_ablation(&vec![96], &vec![1], &devices, &options(), counts, None, live()),
        Err(PlanError::Unsupported { n_fft: 96 })
    ));
    let none = StudyOptions { iters: 0, ..options() };
    assert!(matches!(
        plan_ablation(&vec![64], &vec![1], &devices, &none, counts, None, live()),
        Err(PlanError::NoIterations)
    ));
    let cuda = vec!["cuda".to_string()];
    assert!(matches!(
        plan_ablation(&vec![64], &vec![1], &cuda, &options(), counts, None, live()),
        Err(PlanError::Device(_))
    ));
    assert!(matches!(
        plan_ablation(&vec![64], &vec![0], &devices, &options(), counts, None, live()),
        Err(PlanError::Config(_))
    ));
    let variant = VariantInfo {
        tier: "A".to_string(),
        label: "stockham_eager".to_string(),
        needs_training: false,
        param_count: 1,
        memory_bytes: 4,
    };
    let failed = RunOutcome::Unprepared { message: "no".to_string() };
    let row = ablation_row_for(&jobs[0], "cpu", &variant, &options(), &failed).unwrap();
    assert_eq!(row.status, "prepare_fail");
    let quiet = StudyOptions { record_failures: false, ..options() };
    assert!(ablation_row_for(&jobs[0], "cpu", &variant, &quiet, &failed).is_none());
    assert_eq!(plan_limit_sweep(&devices, 1, 1, 1).len(), 12);
    assert_eq!(limit_sweep_devices(), available_devices());
}

fn settings() -> PeaksSettings {
    PeaksSettings {
        n_fft: 64,
        batch: 8,
        k: 4,
        iters: 20,
        train_steps: 5,
        seed: 1,
        with_compiled: false,
        with_ultra_fast: true,
        force_learned: false,
    }
}

#[test]
fn peak_benches_are_planned() {
    let runs = plan_peaks_sweep(settings(), &vec![1, 4096], &vec![4, 8]);
    assert_eq!(runs.len(), 4);
    assert_eq!(runs[1].k, 8);
    assert_eq!(runs[2].iters, 10);
    assert_eq!(runs[2].train_steps, 0);
    assert_eq!(peaks_model_steps(&runs[0]), Some(5));
    assert_eq!(peaks_model_steps(&runs[2]), None);
    let forced = PeaksSettings { force_learned: true, ..runs[2] };
    assert_eq!(peaks_model_steps(&forced), Some(100));
    assert!(plan_peaks_run(&settings()).contains(&PeaksPath::Ultra));
    assert!(peaks_run_is_valid(&settings()));
    assert!(!peaks_run_is_valid(&PeaksSettings { k: 0, ..settings() }));
    let m = || PeaksMeasured {
        ms: fig(1.0),
        output_len: 8,
        peak_err: fig(0.0),
        algo_bw_gbps: fig(2.0),
        strategy: "fast".to_string(),
        run_device: Device::Cpu,
    };
    let full = peaks_row(&settings(), "cpu", PeaksPath::FullPsd, m());
    assert!(full.peak_err.is_none());
    let fast = peaks_row(&settings(), "cpu", PeaksPath::FastReference, m());
    let rows = vec![full, fast];
    assert_eq!(peaks_axes(&rows), (vec![8], vec![4]));
    assert!(peaks_table(&rows).contains(&PeaksLine::Row { row: 0, labelled: false }));
}

#[test]
fn runners_choose_between_eager_and_compiled() {
    let cfg = FftLearnConfig::new(4, 1).unwrap();
    let ones: Vec<Residue> = (0..2 * num_stages(4) * 2).map(|i| if i % 2 == 0 { Residue::one() } else { Residue::zero() }).collect();
    let mut r = FftLearnRunner::new(cfg, ones).unwrap();
    assert!(matches!(r.direction(), TransformDir::Forward));
    assert_eq!(r.config().n_fft, 4);
    let x: Vec<Residue> = (1..5).map(Residue::new).collect();
    match r.forward(&x) {
        RunStep::Done(Ok(y)) => {
            assert_eq!(y, r.forward_eager(&x).unwrap());
            assert_eq!(y[0], Residue::new(10));
        }
        other => panic!("{other:?}"),
    }
    assert!(matches!(r.forward_compiled(4), Err(RunError::NotLoaded)));
    r.load_compiled(Device::Metal);
    match r.forward(&x) {
        RunStep::Compiled(c) => {
            assert_eq!(c.device, Device::Metal);
            assert_eq!(c.input_name, "signal");
        }
        other => panic!("{other:?}"),
    }
    assert!(matches!(
        r.forward(&Vec::new()),
        RunStep::Refused(RunError::InputLength { found: 0, expected: 4 })
    ));
    assert!(matches!(FftLearnRunner::<Residue>::take_output(Vec::new()), Err(RunError::NoOutputs)));
    assert_eq!(FftLearnRunner::take_output(vec![x.clone()]).unwrap(), x);
    let bad = FftLearnConfig { n_fft: 6, batch: 1 };
    assert!(FftLearnRunner::<Residue>::new_ifft(bad, Vec::new()).is_err());
}

#[test]
fn inputs_have_seeds_of_their_own() {
    let o = StudyOptions { seed: u64::MAX, ..options() };
    assert_eq!(o.input_seeds(), (u64::MAX, 0, 1));
}

#[test]
fn paths_that_do_not_compile_are_left_out() {
    let s = settings();
    let ran = |peaks: Vec<f64>| PathOutcome::Ran {
        measured: PeaksMeasured {
            ms: fig(1.0),
            output_len: 8,
            peak_err: fig(0.5),
            algo_bw_gbps: fig(2.0),
            strategy: "fast".to_string(),
            run_device: Device::Cpu,
        },
        peaks: peaks.into_iter().map(f64::to_bits).collect(),
    };
    for path in [PeaksPath::NativeFused, PeaksPath::LearnedCompiled] {
        assert!(matches!(path_row(&s, "cpu", path, PathOutcome::NotCompiled, &None), Ok(None)));
        assert!(matches!(
            path_row(&s, "cpu", path, PathOutcome::Failed, &None),
            Err(PathFault::Failed)
        ));
    }
    assert!(matches!(
        path_row(&s, "cpu", PeaksPath::Picker, PathOutcome::NotCompiled, &None),
        Err(PathFault::Failed)
    ));
    let fast = Some(FastPeaks {
        peaks: vec![0.0f64.to_bits(), 2.0f64.to_bits()],
        peak_err: fig(0.25),
    });
    let row = path_row(&s, "cpu", PeaksPath::Streaming, ran(vec![-0.0, 2.0]), &fast)
        .unwrap()
        .unwrap();
    assert_eq!(row.peak_err.unwrap().bits, 0.25f64.to_bits());
    assert!(matches!(
        path_row(&s, "cpu", PeaksPath::Streaming, ran(vec![0.0, 3.0]), &fast),
        Err(PathFault::StreamingDiffers)
    ));
    assert_eq!(reported_sizes(&s, &vec![1, 4096], &vec![2, 16]), (4096, 16));
    assert_eq!(reported_sizes(&s, &vec![], &vec![2]), (8, 4));
}

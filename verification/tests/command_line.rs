use rlx_fft::cli::{CliError, Outcome};
use rlx_fft::cli_args::{
    parse_bench_fusion_phases, parse_bench_phased, parse_bench_sweep, parse_max_batch,
    parse_precision_sweep, parse_train, parse_train_distill, parse_train_distill_ternary,
    parse_train_e2e, parse_train_multi, parse_train_phased,
};
use rlx_fft::cli_plan::{
    apply_global_precision, default_n_fft_csv, dispatch, plan_bench_sweep, plan_fusion_phases,
    plan_train_multi, plan_welch_peaks, Dispatch, Subcommand,
};
use rlx_fft::compile::{
    compile_precision, fallback_device, parse_precision, pick_fused_deploy_device,
    plan_learned_compile, LearnedSpectrumKind, MetalGuard, Precision,
};
use rlx_fft::config::{ConfigError, MultiTrainSchedule, TransformDir};
use rlx_fft::device::{Available, Device};

fn live() -> Available {
    Available {
        cpu: true,
        metal: true,
        mlx: false,
        ane: false,
        cuda: false,
        rocm: false,
        xdna: false,
        egpu: false,
        one_api: false,
        tpu: false,
        hexagon: false,
        gpu: false,
        vulkan: false,
        open_gl: false,
        direct_x: false,
        web_gpu: false,
    }
}

fn args(line: &str) -> Vec<String> {
    line.split_whitespace().map(str::to_string).collect()
}

#[test]
fn subcommands_are_found() {
    assert!(matches!(dispatch(&args("")), Ok(Dispatch::Help)));
    assert!(matches!(dispatch(&args("-h")), Ok(Dispatch::Help)));
    assert!(matches!(dispatch(&args("train-matryoshka")), Ok(Dispatch::Command(Subcommand::TrainMatryoshka))));
    assert!(matches!(dispatch(&args("max-batch --help")), Ok(Dispatch::Command(Subcommand::MaxBatch))));
    assert_eq!(
        dispatch(&args("fly")).unwrap_err().message(),
        "unknown subcommand: fly (try --help)"
    );
}

#[test]
fn flags_are_read_and_the_last_counts() {
    match parse_max_batch(&args("--n-fft 512 --n-fft 1024 --dtype BF16 --limbs 2")).outcome {
        Outcome::Run(a) => {
            assert_eq!(a.n_fft, 1024);
            assert_eq!(a.elem_bytes, 2);
            assert_eq!(a.limbs, 2);
            assert!(a.devices.is_none());
        }
        other => panic!("{other:?}"),
    }
    match parse_train(&args("--n-fft 128 --lr 0.5 --steps 7")).outcome {
        Outcome::Run(a) => {
            assert_eq!(a.n_fft, 128);
            assert_eq!(a.steps, 7);
        }
        other => panic!("{other:?}"),
    }
    let parsed = parse_train(&args("--lr 0.5 --steps 7"));
    assert_eq!(parsed.deferred, vec![("--lr", "0.5".to_string())]);
    assert!(matches!(parse_max_batch(&args("--help --nonsense")).outcome, Outcome::Help));
    match parse_precision_sweep(&args("--n-fft 64,128")).outcome {
        Outcome::Run(a) => assert_eq!(a.n_ffts, Some(vec![64, 128])),
        other => panic!("{other:?}"),
    }
}

#[test]
fn flag_errors_are_told_apart() {
    let say = |line: &str| match parse_max_batch(&args(line)).outcome {
        Outcome::Failed(e) => e.message(),
        other => panic!("{other:?}"),
    };
    assert_eq!(say("--what 1"), "unknown flag: --what");
    assert_eq!(say("--limbs"), "missing value for --limbs");
    assert_eq!(say("--limbs x"), "--limbs");
    assert_eq!(say("--dtype f8"), "--dtype f16|f32|f64 (got f8)");
    match parse_train(&args("--n-fft 12")).outcome {
        Outcome::Failed(CliError::Config(ConfigError::NotPowerOfTwo { n_fft: 12 })) => {}
        other => panic!("{other:?}"),
    }
    match parse_precision_sweep(&args("--n-fft ,")).outcome {
        Outcome::Failed(CliError::List(e)) => assert_eq!(e.message(), "--n-fft must list at least one value"),
        other => panic!("{other:?}"),
    }
}

#[test]
fn the_precision_flag_is_taken_out() {
    let (rest, p) = apply_global_precision(&args("bench --precision f16 --iters 3")).unwrap();
    assert_eq!(rest, args("bench --iters 3"));
    assert_eq!(p, Some(Precision::F16));
    assert!(matches!(
        apply_global_precision(&args("bench --precision")),
        Err(CliError::Required { what: "--precision needs a value (f32|f16|bf16)" })
    ));
    assert_eq!(
        apply_global_precision(&args("--precision f8")).unwrap_err().message(),
        "unknown precision 'f8' (try: f32, f16, bf16)"
    );
    assert_eq!(parse_precision(" Half ").unwrap(), Precision::F16);
    assert_eq!(compile_precision(Some("brain")), Precision::BF16);
    assert_eq!(compile_precision(Some("odd")), Precision::F32);
    assert_eq!(compile_precision(None), Precision::F32);
}

#[test]
fn sweeps_are_planned_from_their_arguments() {
    match parse_bench_sweep(&args("--n-fft 64 --batch 1,2 --both-dirs --devices cpu,metal")).outcome {
        Outcome::Run(a) => {
            let plan = plan_bench_sweep(&a, live()).unwrap();
            assert_eq!(plan.n_ffts, vec![64]);
            assert_eq!(plan.batches, vec![1, 2]);
            assert_eq!(plan.devices, vec!["cpu", "metal"]);
            assert_eq!(plan.directions, vec![TransformDir::Forward, TransformDir::Inverse]);
        }
        other => panic!("{other:?}"),
    }
    assert!(default_n_fft_csv().starts_with("64,128,"));
    let p = plan_welch_peaks("8", "4").unwrap();
    assert!(p.single);
    assert!(!plan_welch_peaks("1-8", "4").unwrap().single);
    assert_eq!(plan_fusion_phases("1-8").unwrap(), (vec![1, 2, 4, 8], false));
    assert!(plan_fusion_phases("").is_err());
}

#[test]
fn compilations_nest_and_fall_back() {
    let mut g = MetalGuard::new();
    assert!(g.enter(Device::Metal));
    assert!(!g.enter(Device::Metal));
    assert!(!g.enter(Device::Cpu));
    assert!(!g.leave(Device::Metal));
    assert!(g.leave(Device::Metal));
    assert_eq!(fallback_device(Device::Metal), Some(Device::Cpu));
    assert_eq!(fallback_device(Device::Cpu), None);
    assert_eq!(plan_learned_compile(Device::Cpu)[0].kind, LearnedSpectrumKind::Butterfly);
    assert_eq!(pick_fused_deploy_device(1, 64, Device::Cpu), Device::Cpu);
}

fn ran<A: std::fmt::Debug>(outcome: Outcome<A>) -> A {
    match outcome {
        Outcome::Run(a) => a,
        other => panic!("{other:?}"),
    }
}

#[test]
fn multi_size_training_is_planned() {
    let a = ran(parse_train_multi(&args("--fixed-steps --schedules random,single --batch 3")).outcome);
    assert_eq!((a.batch, a.steps, a.min_steps), (3, 10_000, 300));
    assert!(!a.until_converged && a.project_twiddles && a.use_fused_train);
    assert_eq!(a.optimizer, "sgd");
    let plan = plan_train_multi(&a).unwrap();
    assert_eq!(plan.n_ffts, vec![64, 128, 256]);
    assert_eq!(plan.schedules, vec![MultiTrainSchedule::Random, MultiTrainSchedule::Single]);
    let a = ran(parse_train_multi(&args("--schedules odd")).outcome);
    assert!(matches!(
        plan_train_multi(&a),
        Err(CliError::Config(ConfigError::UnknownSchedule { .. }))
    ));
    let a = ran(parse_train_multi(&args("--schedules ,")).outcome);
    assert!(matches!(plan_train_multi(&a), Err(CliError::Config(ConfigError::NoSchedules))));
}

#[test]
fn training_flags_are_read() {
    let a = ran(parse_train_phased(&args("--encoder-steps 5 --out d")).outcome);
    assert_eq!((a.encoder_steps, a.decoder_steps, a.joint_steps), (5, 300, 300));
    assert_eq!(a.out, Some("d".to_string()));
    let a = ran(parse_bench_phased(&args("--dir d --iters 9 --with-compiled")).outcome);
    assert_eq!((a.n_fft, a.iters, a.with_compiled), (64, 9, true));
    let a = ran(parse_train_e2e(&args("--n-mels 20 --peak-k 4")).outcome);
    assert_eq!((a.n_fft, a.n_mels, a.peak_k), (None, Some(20), Some(4)));
    let a = ran(parse_train_distill(&args("--teacher-steps 11 --seed 3")).outcome);
    assert_eq!((a.teacher_steps, a.seed, a.json), (Some(11), Some(3), None));
    let a = ran(parse_train_distill_ternary(&args("--steps 2 --batch 4")).outcome);
    assert_eq!((a.steps, a.batch, a.n_fft), (Some(2), Some(4), None));
    let a = ran(parse_bench_fusion_phases(&args("--batch 1-8 --k 2")).outcome);
    assert_eq!((a.n_fft, a.k, a.iters, a.seed), (256, 2, 30, 42));
    assert_eq!(a.batch, "1-8");
}

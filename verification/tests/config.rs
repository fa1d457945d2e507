use rlx_fft::arith::{is_power_of_two, trailing_zeros};
use rlx_fft::config::{
    adaptive_batches_for_n_fft, batch_cap_for_limit_sweep, compiled_ok_for_limit_sweep,
    compiled_ok_for_n_fft, ensure_supported_n_fft, is_gpu_device_label, limit_sweep_batches,
    parse_n_fft, parse_transform_dir, train_steps_for_n_fft, welch_ok_for_config,
    welch_ok_for_limit_sweep, ConfigError, FftLearnConfig, MultiTrainSchedule, TransformDir,
    SUPPORTED_N_FFT,
};

#[test]
fn configurations_are_checked_in_order() {
    assert_eq!(FftLearnConfig::new(0, 0).unwrap_err().message(), "n_fft must be a power of two, got 0");
    assert_eq!(FftLearnConfig::new(12, 1).unwrap_err().message(), "n_fft must be a power of two, got 12");
    assert_eq!(FftLearnConfig::new(2, 0).unwrap_err().message(), "n_fft must be at least 4");
    assert_eq!(FftLearnConfig::new(4, 0).unwrap_err().message(), "batch must be >= 1");
    let c = FftLearnConfig::new(64, 4).unwrap();
    assert!(c.validate().is_ok());
    assert_eq!(c, FftLearnConfig::tiny());
    assert_eq!(c.num_stages(), 6);
    assert_eq!(c.butterflies_per_stage(), 32);
    assert_eq!(c.twiddle_param_count(), 6 * 32 * 2);
    assert_eq!(FftLearnConfig { n_fft: 0, batch: 1 }.num_stages(), usize::BITS as usize);
}

#[test]
fn sizes_are_read_and_supported() {
    assert_eq!(parse_n_fft("256").unwrap(), 256);
    assert_eq!(parse_n_fft("x").unwrap_err().message(), "n_fft: usize");
    assert!(matches!(parse_n_fft("6"), Err(ConfigError::NotPowerOfTwo { n_fft: 6 })));
    for n in SUPPORTED_N_FFT {
        assert!(ensure_supported_n_fft(n).is_ok());
        assert!(is_power_of_two(n));
        assert_eq!(trailing_zeros(n), n.trailing_zeros() as usize);
    }
    assert_eq!(
        ensure_supported_n_fft(96).unwrap_err().message(),
        "unsupported n_fft=96; supported: 64, 128, 256, 512, 1024, 2048, 4096, 8192, 16384, 32768, 65536, 131072"
    );
}

#[test]
fn directions_and_schedules_are_named() {
    assert!(matches!(parse_transform_dir("FFT"), Ok(TransformDir::Forward)));
    assert!(matches!(parse_transform_dir("ifft"), Ok(TransformDir::Inverse)));
    assert_eq!(
        parse_transform_dir("Sideways").unwrap_err().message(),
        "unknown transform direction: sideways (use fft|ifft)"
    );
    let all = MultiTrainSchedule::parse_csv("single, RR,random,balanced").unwrap();
    assert_eq!(
        all.iter().map(|s| s.label()).collect::<Vec<_>>(),
        MultiTrainSchedule::all().iter().map(|s| s.label()).collect::<Vec<_>>()
    );
    assert_eq!(MultiTrainSchedule::parse_csv(" ,").unwrap_err().message(), "schedules list is empty");
    assert_eq!(
        MultiTrainSchedule::parse_csv("single,late").unwrap_err().message(),
        "unknown schedule late (use single,round_robin,random,balanced)"
    );
}

#[test]
fn batches_adapt_to_the_size() {
    for n in SUPPORTED_N_FFT {
        let cap = batch_cap_for_limit_sweep(n);
        for b in limit_sweep_batches(n) {
            assert!(b <= cap);
        }
        for b in adaptive_batches_for_n_fft(n, &[1, 8, 1 << 20]) {
            assert!(b >= 1);
        }
    }
    assert!(compiled_ok_for_n_fft(64));
    assert!(is_gpu_device_label("metal"));
    assert!(!is_gpu_device_label("cpu"));
    assert!(compiled_ok_for_limit_sweep(64, "cpu"));
    assert!(welch_ok_for_limit_sweep(32768));
    assert!(!welch_ok_for_limit_sweep(65536));
    assert!(welch_ok_for_config(64, 1));
    assert!(train_steps_for_n_fft(100, 131072) <= 100);
}

use rand::rngs::StdRng;
use rand::{Rng, SeedableRng};
use rlx_fft::ablation_ternary::TernaryArchConfig;
use rlx_fft::butterfly::{butterfly_forward_real_batch, num_stages};
use rlx_fft::gate_logits::{loss_proxy, nudged, probe_count, step_gate, stepped_logit, GateProbe};
use rlx_fft::models::{DistilledFftModel, DistilledTernaryFftModel, PathStep, Refit, RefitSignal};
use rlx_fft::prune_bounds::{mel_bounds, search_loss, search_mel_limit, spectrum_bounds};
use rlx_fft::scalar::{hold_within, Divisible, Ordered, Scalar};
use rlx_fft::spectral::{window_batch, FitOutcome, SpectrumCorrection};
use rlx_fft::ternary_gates::{CorrectorKind, GateLayout};

/// A number in single precision.
#[derive(Clone, Copy, Debug, PartialEq)]
struct Sample(f32);

impl Scalar for Sample {
    fn nought() -> Sample {
        Sample::zero()
    }

    fn unit() -> Sample {
        Sample::one()
    }

    fn sum(a: Sample, b: Sample) -> Sample {
        a.plus(b)
    }

    fn difference(a: Sample, b: Sample) -> Sample {
        a.minus(b)
    }

    fn product(a: Sample, b: Sample) -> Sample {
        a.times(b)
    }

    fn opposite(a: Sample) -> Sample {
        a.negated()
    }

    fn zero() -> Sample {
        Sample(0.0)
    }

    fn one() -> Sample {
        Sample(1.0)
    }

    fn plus(self, other: Sample) -> Sample {
        Sample(self.0 + other.0)
    }

    fn minus(self, other: Sample) -> Sample {
        Sample(self.0 - other.0)
    }

    fn times(self, other: Sample) -> Sample {
        Sample(self.0 * other.0)
    }

    fn negated(self) -> Sample {
        Sample(-self.0)
    }
}

impl Divisible for Sample {
    fn quotient(a: Sample, b: Sample) -> Sample {
        a.over(b)
    }

    fn counted(n: usize) -> Sample {
        Sample::count(n)
    }

    fn over(self, other: Sample) -> Sample {
        Sample(self.0 / other.0)
    }

    fn count(n: usize) -> Sample {
        Sample(n as f32)
    }
}

impl Ordered for Sample {
    fn number(a: Sample) -> bool {
        a.is_number()
    }

    fn is_number(self) -> bool {
        !self.0.is_nan()
    }

    fn less(a: Sample, b: Sample) -> bool {
        a.is_less(b)
    }

    fn is_less(self, other: Sample) -> bool {
        self.0 < other.0
    }
}

fn samples(v: &[f32]) -> Vec<Sample> {
    v.iter().map(|&x| Sample(x)).collect()
}

fn exact(n: usize) -> Vec<Sample> {
    let mut tw = Vec::new();
    for stage in 0..num_stages(n) {
        for b in 0..n / 2 {
            let stride = 1usize << stage;
            let angle = -std::f64::consts::PI * (b % stride) as f64 / stride as f64;
            tw.push(Sample(angle.cos() as f32));
            tw.push(Sample(angle.sin() as f32));
        }
    }
    tw
}

fn hann(n: usize) -> Vec<Sample> {
    (0..n)
        .map(|i| Sample((std::f32::consts::PI * i as f32 / n as f32).sin().powi(2)))
        .collect()
}

fn spectrum(signal: &Vec<Sample>, batch: usize, n: usize) -> Vec<Sample> {
    butterfly_forward_real_batch(signal, &exact(n), batch, n).unwrap()
}

fn max_abs_error(a: &[Sample], b: &[Sample]) -> f32 {
    a.iter()
        .zip(b)
        .map(|(x, y)| (x.0 - y.0).abs())
        .fold(0.0, f32::max)
}

fn hz_to_mel(hz: f64) -> f64 {
    let min_log_hz = 1000.0;
    let min_log_mel = min_log_hz / (200.0 / 3.0);
    let logstep = 6.4f64.ln() / 27.0;
    if hz >= min_log_hz {
        min_log_mel + (hz / min_log_hz).ln() / logstep
    } else {
        hz / (200.0 / 3.0)
    }
}

fn mel_to_hz(mel: f64) -> f64 {
    let min_log_hz = 1000.0;
    let min_log_mel = min_log_hz / (200.0 / 3.0);
    let logstep = 6.4f64.ln() / 27.0;
    if mel >= min_log_mel {
        min_log_hz * (logstep * (mel - min_log_mel)).exp()
    } else {
        mel * (200.0 / 3.0)
    }
}

fn mel_filterbank(n_fft: usize, n_mels: usize, sample_rate: f32) -> Vec<f32> {
    let n_bins = n_fft / 2 + 1;
    let fmax = sample_rate as f64 * 0.5;
    let n_pts = n_mels + 2;
    let points: Vec<f64> = (0..n_pts)
        .map(|i| {
            let mel =
                hz_to_mel(0.0) + (hz_to_mel(fmax) - hz_to_mel(0.0)) * i as f64 / (n_pts - 1) as f64;
            mel_to_hz(mel)
        })
        .collect();
    let mut bank = vec![0f32; n_mels * n_bins];
    for m in 0..n_mels {
        let (left, center, right) = (points[m], points[m + 1], points[m + 2]);
        for k in 0..n_bins {
            let f = k as f64 * sample_rate as f64 / n_fft as f64;
            bank[m * n_bins + k] = if f < left || f > right {
                0.0
            } else if f <= center {
                ((f - left) / (center - left).max(1e-8)) as f32
            } else {
                ((right - f) / (right - center).max(1e-8)) as f32
            };
        }
    }
    bank
}

fn log_mel(spec: &[Sample], filters: &[f32], batch: usize, n: usize, n_mels: usize) -> Vec<Sample> {
    let plain: Vec<f32> = spec.iter().map(|x| x.0).collect();
    let mut out = vec![0f32; batch * n_mels];
    rlx_ir::audio::log_mel_interleaved_f32(&plain, filters, batch, n, n / 2 + 1, n_mels, &mut out);
    samples(&out)
}

fn stepped(r: PathStep<Sample>) -> Vec<Sample> {
    match r {
        PathStep::Stepped { before } => before,
        other => panic!("{other:?}"),
    }
}

fn refitted<V: std::fmt::Debug>(r: Refit<V>) -> V {
    match r {
        Refit::Refitted(v) => v,
        other => panic!("{other:?}"),
    }
}

fn new_model(n: usize, n_mels: usize) -> DistilledTernaryFftModel<Sample> {
    DistilledTernaryFftModel::new(n, n_mels, exact(n), vec![])
}

/// A step towards the exact spectrum; every butterfly runs forward, so that the routed transform is
/// the exact one. Returns the error before the step.
fn train_step_ref_spectrum(
    model: &mut DistilledTernaryFftModel<Sample>,
    signal: &Vec<Sample>,
    batch: usize,
    lr: f32,
) -> f32 {
    assert_eq!(model.gate_counts().1, model.gates.len());
    let reference = spectrum(signal, batch, model.n_fft);
    let pred = stepped(model.train_step_spectrum_target(&reference, &reference, batch, Sample(lr)));
    max_abs_error(&pred, &reference)
}

#[test]
fn ref_spectrum_training_reduces_error() {
    let mut model = new_model(64, 16);
    if let SpectrumCorrection::Band(ref mut band) = model.denoiser {
        for w in &mut band.weights {
            *w = Sample(0.7);
        }
        for b in &mut band.bias {
            *b = Sample(0.05);
        }
    }
    let batch = 4;
    let signal: Vec<f32> = (0..batch * 64).map(|i| (i as f32 * 0.03).sin()).collect();
    let windowed = window_batch(&samples(&signal), &hann(64), batch, 64);
    let before = train_step_ref_spectrum(&mut model, &windowed, batch, 0.0);
    assert!(before > 1e-4, "perturbed denoiser should be off: {before}");
    for _ in 0..80 {
        train_step_ref_spectrum(&mut model, &windowed, batch, 8e-3);
    }
    let after = train_step_ref_spectrum(&mut model, &windowed, batch, 0.0);
    assert!(
        after < before * 0.2,
        "spec err should drop: before={before} after={after}"
    );
}

#[test]
fn raw_spectrum_aligns_after_ref_train_e2e_seed() {
    let mut rng = StdRng::seed_from_u64(42);
    let batch = 8;
    let n_fft = 128;
    let signal: Vec<Sample> = (0..batch * n_fft)
        .map(|_| Sample(rng.gen_range(-1.0..1.0)))
        .collect();
    let mut model = new_model(n_fft, 40);
    let windowed = window_batch(&signal, &hann(n_fft), batch, n_fft);
    for _ in 0..200 {
        train_step_ref_spectrum(&mut model, &windowed, batch, 8e-3);
        train_step_ref_spectrum(&mut model, &signal, batch, 6e-3);
    }
    let reference = spectrum(&signal, batch, n_fft);
    let pred = model.spectrum_batch_raw(&reference, batch).unwrap();
    let err = max_abs_error(&pred, &reference);
    assert!(err < 0.05, "raw spec err={err}");
}

#[test]
fn ref_spectrum_training_aligns_mel() {
    let mut model = new_model(128, 40);
    let batch = 8;
    let signal: Vec<f32> = (0..batch * 128).map(|i| (i as f32 * 0.01).sin()).collect();
    let w = hann(128);
    let mut windowed = samples(&signal);
    for b in 0..batch {
        for i in 0..128 {
            windowed[b * 128 + i] = windowed[b * 128 + i].times(w[i]);
        }
    }
    for _ in 0..120 {
        train_step_ref_spectrum(&mut model, &windowed, batch, 8e-3);
    }
    let spec_err = train_step_ref_spectrum(&mut model, &windowed, batch, 0.0);
    let reference = spectrum(&windowed, batch, 128);
    let pred_spec = model.spectrum_batch(&reference, batch).unwrap();
    let spec_path_err = max_abs_error(&pred_spec, &reference);
    let filters = mel_filterbank(128, 40, 16_000.0);
    let pred_mel_direct = log_mel(&pred_spec, &filters, batch, 128, 40);
    let own = window_batch(&samples(&signal), &hann(128), batch, 128);
    let own_spec = model.spectrum_batch(&spectrum(&own, batch, 128), batch).unwrap();
    let pred_mel = log_mel(&own_spec, &filters, batch, 128, 40);
    let log_mel_path_err = max_abs_error(&pred_mel, &pred_mel_direct);
    let ref_mel = log_mel(&reference, &filters, batch, 128, 40);
    let mel_self_err = max_abs_error(&pred_mel_direct, &ref_mel);
    assert!(spec_err < 1e-3, "spec_err={spec_err}");
    assert!(
        spec_path_err < 1e-3,
        "spec_path_err={spec_path_err} spec_err={spec_err}"
    );
    assert!(
        log_mel_path_err < 1e-4,
        "log_mel_path_err={log_mel_path_err}"
    );
    assert!(mel_self_err < 0.01, "mel_self_err={mel_self_err}");
}

#[test]
fn steps_of_either_path_leave_the_other_alone() {
    let mut model = new_model(8, 2);
    let x = samples(&[0.5; 16]);
    let y = samples(&[1.0; 16]);
    let pred = stepped(model.train_step_mel_ref_spectrum(&x, &y, 1, Sample(0.1)));
    assert_eq!(pred, x);
    assert_ne!(model.spectrum_batch(&x, 1).unwrap(), x);
    assert_eq!(model.spectrum_batch_raw(&x, 1).unwrap(), x);
    assert!(matches!(
        model.train_step_spectrum_target(&x, &y, 2, Sample(0.1)),
        PathStep::Unfit
    ));
    assert_eq!(model.spectrum_batch_raw(&x, 1).unwrap(), x);
    assert!(matches!(
        model.train_step_spectrum_target(&x, &samples(&[1.0; 15]), 1, Sample(0.1)),
        PathStep::Unfit
    ));
}

#[test]
fn masks_move_at_a_share_of_the_rate_within_bounds() {
    let mut model = new_model(8, 2);
    let x = samples(&[0.5; 16]);
    let y = samples(&[1.0; 16]);
    model.train_step_mel(&x, &y, 1, Sample(1.0));
    assert_eq!(model.freq_mask[0], Sample(1.0 - 0.05 * 0.5 / 16.0));
    model.train_step_mel(&x, &y, 1, Sample(1e6));
    assert_eq!(model.freq_mask, samples(&[0.0; 16]));
    let mut model = new_model(8, 2);
    model.train_step_mel(&x, &y, 1, Sample(-1e6));
    assert_eq!(model.freq_mask, samples(&[4.0; 16]));
    let mut distilled: DistilledFftModel<Sample> = DistilledFftModel::new(8, 2, vec![]);
    distilled.train_step_mel(&x, &y, 1, Sample(-1e6));
    assert_eq!(distilled.freq_mask, samples(&[2.0; 16]));
    distilled.train_step_mel(&x, &y, 1, Sample(1e6));
    assert_eq!(distilled.freq_mask, samples(&[0.0; 16]));
}

#[test]
fn affine_steps_are_left_to_the_caller() {
    let x = samples(&[0.5; 16]);
    let y = samples(&[1.0; 16]);
    let mut affine: SpectrumCorrection<Sample> =
        SpectrumCorrection::from_kind(CorrectorKind::Affine, 8, false);
    assert!(matches!(
        affine.train_step_mse(&x, &y, 1, 8, Sample(0.1)),
        FitOutcome::AffineOwed
    ));
    affine.train_step_spectrum_grad(&x, &y, 1, 8, Sample(0.1));
    assert_eq!(affine.apply_batch(&x, 1, 8).unwrap(), x);
    let mut model = new_model(8, 2);
    let mut arch = TernaryArchConfig::single_sparse_affine(1.0f64.to_bits());
    model.apply_arch_config(&arch);
    match model.train_step_spectrum_target(&x, &y, 1, Sample(0.1)) {
        PathStep::AffineOwed { masked, before } => assert_eq!((masked, before), (x.clone(), x.clone())),
        other => panic!("{other:?}"),
    }
    let signal = || RefitSignal {
        routed: x.clone(),
        target: y.clone(),
        mel_routed: x.clone(),
        mel_target: y.clone(),
    };
    assert!(matches!(
        model.refit_correction_incremental(&vec![signal()], 1, 2, Sample(0.1)),
        Refit::AffineOwed
    ));
    assert_eq!(
        refitted(model.refit_correction_incremental(&vec![signal()], 1, 0, Sample(0.1))),
        vec![x.clone()]
    );
    arch.corrector = CorrectorKind::Dense;
    arch.gate_layout = GateLayout::AllForward;
    model.apply_arch_config(&arch);
    match (&model.denoiser, &model.mel_denoiser) {
        (SpectrumCorrection::Band(a), SpectrumCorrection::Band(b)) => {
            assert_eq!((a.radius, a.band_width, b.radius), (15, 31, 15));
        }
        other => panic!("{other:?}"),
    }
}

#[test]
fn refits_go_over_every_signal() {
    let n = 16;
    let mut model = new_model(n, 4);
    let wave: Vec<Sample> = (0..2 * n).map(|i| Sample((i as f32 * 0.3).sin())).collect();
    let windowed = window_batch(&wave, &hann(n), 2, n);
    let half = |v: Vec<Sample>| -> Vec<Sample> { v.iter().map(|x| Sample(x.0 * 0.5)).collect() };
    let signal = || RefitSignal {
        routed: spectrum(&wave, 2, n),
        target: half(spectrum(&wave, 2, n)),
        mel_routed: spectrum(&windowed, 2, n),
        mel_target: half(spectrum(&windowed, 2, n)),
    };
    let before = refitted(model.refit_correction_incremental(&vec![signal()], 2, 0, Sample(0.05)));
    assert_eq!(before, vec![signal().routed]);
    let after = refitted(model.refit_correction_incremental(&vec![signal(), signal()], 2, 40, Sample(0.05)));
    assert_eq!(after.len(), 2);
    let off = max_abs_error(&before[0], &signal().target);
    assert!(max_abs_error(&after[0], &signal().target) < off * 0.5);
    let mel = model.spectrum_batch(&signal().mel_routed, 2).unwrap();
    assert!(
        max_abs_error(&mel, &signal().mel_target)
            < max_abs_error(&signal().mel_routed, &signal().mel_target)
    );
    assert!(matches!(
        model.refit_correction_incremental(&vec![], 2, 1, Sample(0.05)),
        Refit::NoSignals
    ));
    let mut short = signal();
    short.mel_routed.pop();
    assert!(matches!(
        model.refit_correction_incremental(&vec![short], 2, 1, Sample(0.05)),
        Refit::Unfit
    ));
    let fresh = refitted(model.refit_correction_quick(signal(), 2, 0, Sample(0.05)));
    assert_eq!(fresh, signal().routed);
}

#[test]
fn bounds_follow_from_the_errors_at_the_start() {
    let (baseline, limit) = (0.1f32, 0.2f32);
    let slack = (baseline * 0.35 + 0.03).clamp(0.02, 0.15);
    let b = mel_bounds(Sample(baseline), Sample(limit), false);
    assert_eq!(b.slack, Sample(slack));
    assert_eq!(b.hard, Sample((baseline + slack).min(limit.max(baseline + 0.12))));
    let b = mel_bounds(Sample(2.0), Sample(limit), true);
    assert_eq!((b.hard, b.slack), (Sample(2.0 + 0.15), Sample(0.15)));
    let b = mel_bounds(Sample(baseline), Sample(f32::NAN), false);
    assert_eq!(b.hard, Sample((baseline + slack).min(f32::NAN.max(baseline + 0.12))));
    let b = mel_bounds(Sample(f32::NAN), Sample(limit), false);
    assert_eq!(b.hard, Sample(limit));
    assert!(b.slack.0.is_nan());
    let b = spectrum_bounds(Sample(f32::NAN), Sample(3.0));
    assert_eq!((b.hard, b.slack), (Sample(3.0), Sample(0.5)));
    let b = spectrum_bounds(Sample(0.1), Sample(0.12));
    assert_eq!((b.hard, b.slack), (Sample(2.0), Sample(0.5)));
    let b = spectrum_bounds(Sample(5.0), Sample(0.12));
    assert_eq!((b.hard, b.slack), (Sample(5.0f32 + 0.04), Sample(0.5)));
    assert_eq!(search_mel_limit(Sample(0.5)), Sample(0.5 + 0.04));
    assert_eq!(search_loss(Sample(0.5), Sample(2.0), Sample(0.25)), Sample(1.0));
    assert_eq!(hold_within(Sample(-1.0), Sample(0.0), Sample(2.0)), Sample(0.0));
    assert_eq!(hold_within(Sample(3.0), Sample(0.0), Sample(2.0)), Sample(2.0));
}

#[test]
fn logits_move_down_the_central_difference() {
    let (lr, weight) = (0.1f32, 0.2f32);
    let eps = 5e-3f32;
    assert_eq!(nudged(Sample(1.0), true), Sample(1.0 + eps));
    assert_eq!(nudged(Sample(1.0), false), Sample(1.0 - eps));
    for (k, prior) in [(0, -weight), (1, weight), (2, weight * 0.5), (3, 0.0)] {
        let delta = (lr * ((0.31 - 0.30) / (2.0 * eps) + prior)).clamp(-0.25, 0.25);
        let got = stepped_logit(Sample(0.5), Sample(0.31), Sample(0.30), k, Sample(weight), Sample(lr));
        assert_eq!(got, Sample(0.5 - delta));
    }
    let far = stepped_logit(Sample(0.5), Sample(9.0), Sample(0.0), 0, Sample(weight), Sample(lr));
    assert_eq!(far, Sample(0.25));
    let mut logits = vec![[Sample(0.0); 3]; 3];
    let probe = GateProbe { gate: 1, plus: [Sample(9.0); 3], minus: [Sample(0.0); 3] };
    step_gate(&mut logits, probe, Sample(0.0), Sample(1.0));
    assert_eq!(logits, vec![[Sample(0.0); 3], [Sample(-0.25); 3], [Sample(0.0); 3]]);
    assert_eq!(loss_proxy(&samples(&[1.0, 2.0, 3.0]), &samples(&[4.0, 5.0])), Sample(14.0));
    assert_eq!((probe_count(8, 3), probe_count(8, 30), probe_count(8, 0)), (3, 8, 1));
}

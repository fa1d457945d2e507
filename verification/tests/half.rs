use half::f16;
use rlx_fft::butterfly::{butterfly_forward_real_batch, num_stages, ButterflyError};
use rlx_fft::half_precision::{
    apply_stage_f16, butterfly_forward_real_batch_f16, butterfly_inverse_complex_batch_f16,
    forward_butterfly_traced_f16, qat_train_step_f16, recon_limbs, residual_limbs, round_all,
    split_f16_limbs, Rounded,
};
use rlx_fft::scalar::{Divisible, Residue, Scalar};

/// A number in single precision that rounds to half precision.
#[derive(Clone, Copy, Debug, PartialEq)]
struct Half(f32);

impl Scalar for Half {
    fn nought() -> Half {
        Half::zero()
    }

    fn unit() -> Half {
        Half::one()
    }

    fn sum(a: Half, b: Half) -> Half {
        a.plus(b)
    }

    fn difference(a: Half, b: Half) -> Half {
        a.minus(b)
    }

    fn product(a: Half, b: Half) -> Half {
        a.times(b)
    }

    fn opposite(a: Half) -> Half {
        a.negated()
    }

    fn zero() -> Half {
        Half(0.0)
    }

    fn one() -> Half {
        Half(1.0)
    }

    fn plus(self, other: Half) -> Half {
        Half(self.0 + other.0)
    }

    fn minus(self, other: Half) -> Half {
        Half(self.0 - other.0)
    }

    fn times(self, other: Half) -> Half {
        Half(self.0 * other.0)
    }

    fn negated(self) -> Half {
        Half(-self.0)
    }
}

impl Divisible for Half {
    fn quotient(a: Half, b: Half) -> Half {
        a.over(b)
    }

    fn counted(n: usize) -> Half {
        Half::count(n)
    }

    fn over(self, other: Half) -> Half {
        Half(self.0 / other.0)
    }

    fn count(n: usize) -> Half {
        Half(n as f32)
    }
}

impl Rounded for Half {
    fn near(a: Half) -> Half {
        a.round()
    }

    fn round(self) -> Half {
        Half(f16::from_f32(self.0).to_f32())
    }
}

fn max_abs_error(a: &[Half], b: &[Half]) -> f32 {
    a.iter()
        .zip(b)
        .map(|(x, y)| (x.0 - y.0).abs())
        .fold(0.0, f32::max)
}

fn exact(n: usize) -> Vec<Half> {
    let mut tw = Vec::new();
    for stage in 0..num_stages(n) {
        for b in 0..n / 2 {
            let stride = 1usize << stage;
            let angle = -std::f64::consts::PI * (b % stride) as f64 / stride as f64;
            tw.push(Half(angle.cos() as f32));
            tw.push(Half(angle.sin() as f32));
        }
    }
    tw
}

fn wave(len: usize) -> Vec<Half> {
    (0..len).map(|i| Half((i as f32 * 0.37).sin())).collect()
}

#[test]
fn limbs_nest_f16_inside_f32() {
    let w: Vec<Half> = (0..512)
        .map(|i| Half((i as f32 * 0.013).sin() * 0.9))
        .collect();
    let (hi, lo) = split_f16_limbs(&w);
    for &h in &hi {
        assert_eq!(h.round(), h);
    }
    let recon = recon_limbs(&hi, &lo);
    let err_f16 = max_abs_error(&hi, &w);
    let err_recon = max_abs_error(&recon, &w);
    assert!(
        err_f16 > 1e-4,
        "f16 alone should be coarse, got {err_f16:e}"
    );
    assert!(
        err_recon < err_f16 / 50.0,
        "hi+lo ({err_recon:e}) should be far finer than hi ({err_f16:e})"
    );
}

#[test]
fn residues_round_down_to_their_grid() {
    let w: Vec<Residue> = [5u64, 16, 39].iter().map(|&n| Residue::new(n)).collect();
    let (hi, lo) = split_f16_limbs(&w);
    assert_eq!(hi, vec![Residue::new(0), Residue::new(16), Residue::new(32)]);
    assert_eq!(lo, vec![Residue::new(0), Residue::new(0), Residue::new(0)]);
    assert_eq!(round_all(&hi), hi);
    let exact: Vec<Residue> = [21u64, 48].iter().map(|&n| Residue::new(n)).collect();
    let coarse: Vec<Residue> = [5u64, 16].iter().map(|&n| Residue::new(n)).collect();
    let rest = residual_limbs(&exact, &coarse);
    assert_eq!(rest, vec![Residue::new(16), Residue::new(32)]);
    assert_eq!(recon_limbs(&coarse, &rest), exact);
}

#[test]
fn coarse_transform_is_near_the_fine_one() {
    let (n, batch) = (16usize, 2usize);
    let tw = exact(n);
    let signal = wave(n * batch);
    let fine = butterfly_forward_real_batch(&signal, &tw, batch, n).unwrap();
    let coarse = butterfly_forward_real_batch_f16(&signal, &tw, batch, n).unwrap();
    let err = max_abs_error(&fine, &coarse);
    assert!(err > 0.0 && err < 0.05, "err={err}");
    for x in &coarse {
        assert_eq!(x.round(), *x);
    }
    let back = butterfly_inverse_complex_batch_f16(&coarse, &tw, batch, n).unwrap();
    for i in 0..n * batch {
        assert!((back[2 * i].0 / n as f32 - signal[i].0).abs() < 0.02);
        assert!((back[2 * i + 1].0 / n as f32).abs() < 0.02);
    }
    assert_eq!(
        butterfly_forward_real_batch_f16(&signal, &tw, 1, n).unwrap_err(),
        ButterflyError::InputLength {
            found: 32,
            expected: 16
        }
    );
    assert_eq!(
        butterfly_inverse_complex_batch_f16(&signal, &tw, 2, n).unwrap_err(),
        ButterflyError::InputLength {
            found: 32,
            expected: 64
        }
    );
}

#[test]
fn coarse_trace_keeps_every_stage() {
    let n = 4usize;
    let tw = exact(n);
    let buf = wave(2 * n);
    let trace = forward_butterfly_traced_f16(buf.clone(), &tw, n, false).unwrap();
    assert_eq!(trace.stage_inputs.len(), 2);
    assert_eq!(trace.stage_inputs[0], round_all(&buf));
    let first = apply_stage_f16(&trace.stage_inputs[0], &tw, n, 0);
    assert_eq!(trace.stage_inputs[1], first);
    assert_eq!(trace.output, apply_stage_f16(&first, &tw, n, 1));
    assert!(forward_butterfly_traced_f16(buf, &tw, 8, false).is_err());
}

#[test]
fn training_on_the_grid_moves_the_twiddles_themselves() {
    let (n, batch) = (8usize, 4usize);
    let tw = exact(n);
    let signal = wave(n * batch);
    let targets = butterfly_forward_real_batch(&signal, &tw, batch, n).unwrap();
    let mut master: Vec<Half> = tw.iter().map(|w| Half(w.0 + 0.01)).collect();
    let before = master.clone();
    let loss = qat_train_step_f16(&signal, &targets, &mut master, batch, n, Half(0.01));
    assert!(loss.0 > 0.0);
    assert_ne!(before, master);
    let mut settled = tw.clone();
    let loss = qat_train_step_f16(&signal, &targets, &mut settled, batch, n, Half(0.0));
    assert!(loss.0 < 1e-3, "loss={}", loss.0);
    assert_eq!(settled, tw);
}

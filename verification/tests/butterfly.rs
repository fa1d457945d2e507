use rlx_fft::butterfly::{
    bit_reverse, bit_reverse_permute, butterfly_encdec_roundtrip_batch, butterfly_forward_eager,
    butterfly_forward_real_batch, butterfly_inverse_complex_batch, butterfly_inverse_eager,
    interleaved_to_planes, num_stages, ButterflyError,
};
use rlx_fft::butterfly_train::{
    backward_butterfly_twiddles, butterfly_train_step, butterfly_train_step_encdec,
    butterfly_train_step_inverse, encdec_step, forward_butterfly_traced,
};
use rlx_fft::scalar::{raise, Divisible, Residue, Scalar, PRIME};

/// A double as a scalar.
#[derive(Clone, Copy, Debug, PartialEq)]
struct Real(f64);

impl Scalar for Real {
    fn nought() -> Real {
        Real::zero()
    }

    fn unit() -> Real {
        Real::one()
    }

    fn sum(a: Real, b: Real) -> Real {
        a.plus(b)
    }

    fn difference(a: Real, b: Real) -> Real {
        a.minus(b)
    }

    fn product(a: Real, b: Real) -> Real {
        a.times(b)
    }

    fn opposite(a: Real) -> Real {
        a.negated()
    }

    fn zero() -> Real {
        Real(0.0)
    }

    fn one() -> Real {
        Real(1.0)
    }

    fn plus(self, other: Real) -> Real {
        Real(self.0 + other.0)
    }

    fn minus(self, other: Real) -> Real {
        Real(self.0 - other.0)
    }

    fn times(self, other: Real) -> Real {
        Real(self.0 * other.0)
    }

    fn negated(self) -> Real {
        Real(-self.0)
    }
}

impl Divisible for Real {
    fn quotient(a: Real, b: Real) -> Real {
        a.over(b)
    }

    fn counted(n: usize) -> Real {
        Real::count(n)
    }

    fn over(self, other: Real) -> Real {
        Real(self.0 / other.0)
    }

    fn count(n: usize) -> Real {
        Real(n as f64)
    }
}

fn exact_twiddles(n: usize) -> Vec<Real> {
    let mut out = Vec::new();
    for s in 0..num_stages(n) {
        let stride = 1usize << s;
        for b in 0..n / 2 {
            let angle = -std::f64::consts::PI * (b % stride) as f64 / stride as f64;
            out.push(Real(angle.cos()));
            out.push(Real(angle.sin()));
        }
    }
    out
}

fn signal(n: usize) -> Vec<Real> {
    (0..n).map(|i| Real(((i * 37 + 11) % 17) as f64 / 17.0 - 0.4)).collect()
}

fn naive(x: &[Real], n: usize) -> Vec<(f64, f64)> {
    (0..n)
        .map(|k| {
            let mut re = 0.0;
            let mut im = 0.0;
            for (j, v) in x.iter().enumerate() {
                let a = -2.0 * std::f64::consts::PI * (j * k % n) as f64 / n as f64;
                re += v.0 * a.cos();
                im += v.0 * a.sin();
            }
            (re, im)
        })
        .collect()
}

fn exact_residue_twiddles(n: usize) -> Vec<Residue> {
    // 31 generates the units of the field.
    let w = raise(Residue::new(31), (PRIME - 1) / n as u64);
    let mut out = Vec::new();
    for s in 0..num_stages(n) {
        let stride = 1usize << s;
        for b in 0..n / 2 {
            out.push(raise(w, ((b % stride) * (n / (2 * stride))) as u64));
            out.push(Residue::zero());
        }
    }
    out
}

#[test]
fn bits_are_reversed() {
    assert_eq!(bit_reverse(0b0011, 4), 0b1100);
    assert_eq!(bit_reverse(1, 3), 4);
    for x in 0..64 {
        assert_eq!(bit_reverse(bit_reverse(x, 6), 6), x);
    }
    let mut buf: Vec<usize> = (0..16).collect();
    bit_reverse_permute(&mut buf, 8);
    assert_eq!(buf, vec![0, 1, 8, 9, 4, 5, 12, 13, 2, 3, 10, 11, 6, 7, 14, 15]);
    bit_reverse_permute(&mut buf, 8);
    assert_eq!(buf, (0..16).collect::<Vec<_>>());
}

#[test]
fn transform_of_residues_is_the_exact_fourier_transform() {
    for n in [2usize, 4, 8, 64] {
        let tw = exact_residue_twiddles(n);
        let w = raise(Residue::new(31), (PRIME - 1) / n as u64);
        let x: Vec<Residue> = (0..n).map(|i| Residue::new((i * i * 7 + 3) as u64)).collect();
        let mut input = Vec::new();
        for v in &x {
            input.push(*v);
            input.push(Residue::zero());
        }
        let y = butterfly_forward_eager(&input, &tw, n).unwrap();
        for k in 0..n {
            let mut sum = Residue::zero();
            for (j, v) in x.iter().enumerate() {
                sum = sum.plus(v.times(raise(w, (j * k) as u64)));
            }
            assert_eq!(y[2 * k], sum);
            assert_eq!(y[2 * k + 1], Residue::zero());
        }
    }
}

#[test]
fn transform_of_doubles_is_near_the_fourier_transform() {
    for n in [4usize, 64, 256] {
        let x = signal(n);
        let y = butterfly_forward_real_batch(&x, &exact_twiddles(n), 1, n).unwrap();
        for (k, (re, im)) in naive(&x, n).into_iter().enumerate() {
            assert!((y[2 * k].0 - re).abs() < 1e-9);
            assert!((y[2 * k + 1].0 - im).abs() < 1e-9);
        }
    }
}

#[test]
fn round_trip_scales_the_signal() {
    let n = 64;
    let tw = exact_twiddles(n);
    let x = signal(2 * n);
    let y = butterfly_encdec_roundtrip_batch(&x, &tw, &tw, 2, n).unwrap();
    for i in 0..2 * n {
        assert!((y[2 * i].0 / n as f64 - x[i].0).abs() < 1e-9);
        assert!(y[2 * i + 1].0.abs() < 1e-9);
    }
    let spec = butterfly_forward_real_batch(&x, &tw, 2, n).unwrap();
    assert_eq!(butterfly_inverse_complex_batch(&spec, &tw, 2, n).unwrap(), y);
    assert_eq!(butterfly_inverse_eager(&spec[..2 * n].to_vec(), &tw, n).unwrap(), y[..2 * n].to_vec());
}

#[test]
fn wrong_lengths_are_refused() {
    let tw = exact_twiddles(8);
    assert!(matches!(
        butterfly_forward_eager(&signal(3), &tw, 8),
        Err(ButterflyError::InputLength { found: 3, expected: 16 })
    ));
    assert!(matches!(
        butterfly_forward_eager(&signal(16), &signal(3), 8),
        Err(ButterflyError::TooFewTwiddles)
    ));
    assert!(matches!(
        butterfly_forward_real_batch(&signal(9), &tw, 1, 8),
        Err(ButterflyError::InputLength { found: 9, expected: 8 })
    ));
    assert!(butterfly_forward_real_batch(&Vec::new(), &tw, 0, 8).unwrap().is_empty());
}

#[test]
fn planes_hold_real_parts_first() {
    assert_eq!(interleaved_to_planes(&vec![1, 2, 3, 4, 5, 6], 3), vec![1, 3, 5, 2, 4, 6]);
}

fn loss(x: &[Real], target: &[Real], tw: &Vec<Real>, n: usize) -> f64 {
    let y = butterfly_forward_real_batch(&x.to_vec(), tw, 1, n).unwrap();
    y.iter().zip(target).map(|(a, b)| (a.0 - b.0) * (a.0 - b.0)).sum()
}

#[test]
fn twiddle_gradients_are_the_slopes_of_the_loss() {
    let n = 8;
    let x = signal(n);
    let mut tw = exact_twiddles(n);
    for (i, t) in tw.iter_mut().enumerate() {
        t.0 += 0.01 * (i % 5) as f64;
    }
    let target = butterfly_forward_real_batch(&x, &exact_twiddles(n), 1, n).unwrap();
    let mut input = Vec::new();
    for v in &x {
        input.push(*v);
        input.push(Real(0.0));
    }
    let trace = forward_butterfly_traced(input, &tw, n, true).unwrap();
    let grad: Vec<Real> = trace.output.iter().zip(&target).map(|(a, b)| Real(2.0 * (a.0 - b.0))).collect();
    let mut sums = vec![Real(0.0); tw.len()];
    let _ = backward_butterfly_twiddles(grad, &trace, &tw, n, &mut sums, false);
    for i in 0..tw.len() {
        let h = 1e-6;
        let mut up = tw.clone();
        up[i].0 += h;
        let mut down = tw.clone();
        down[i].0 -= h;
        let slope = (loss(&x, &target, &up, n) - loss(&x, &target, &down, n)) / (2.0 * h);
        assert!((sums[i].0 - slope).abs() < 1e-4, "{i}: {} {slope}", sums[i].0);
    }
}

#[test]
fn a_step_on_exact_twiddles_changes_nothing() {
    let n = 16;
    let x: Vec<Residue> = (0..2 * n).map(|i| Residue::new(i as u64 + 1)).collect();
    let exact = exact_residue_twiddles(n);
    let target = butterfly_forward_real_batch(&x, &exact, 2, n).unwrap();
    let mut tw = exact.clone();
    let lr = Residue::new(5);
    assert_eq!(butterfly_train_step(&x, &target, &mut tw, 2, n, lr), Residue::zero());
    assert_eq!(tw, exact);
    let back = butterfly_inverse_complex_batch(&target, &exact, 2, n).unwrap();
    assert_eq!(butterfly_train_step_inverse(&target, &back, &mut tw, 2, n, lr).unwrap(), Residue::zero());
    assert_eq!(tw, exact);
    assert!(butterfly_train_step_inverse(&x, &back, &mut tw, 2, n, lr).is_err());
    assert_eq!(tw, exact);
}

#[test]
fn training_lowers_the_loss() {
    let n = 16;
    let x = signal(4 * n);
    let exact = exact_twiddles(n);
    let target = butterfly_forward_real_batch(&x, &exact, 4, n).unwrap();
    let mut tw = exact.clone();
    tw[0].0 += 0.2;
    let first = butterfly_train_step(&x, &target, &mut tw, 4, n, Real(0.05)).0;
    let mut last = first;
    for _ in 0..50 {
        last = butterfly_train_step(&x, &target, &mut tw, 4, n, Real(0.05)).0;
    }
    assert!(last < first, "{first} {last}");
}

#[test]
fn encoder_and_decoder_train_together() {
    let n = 8;
    let x = signal(2 * n);
    let exact = exact_twiddles(n);
    let reference = butterfly_forward_real_batch(&x, &exact, 2, n).unwrap();
    let (step, enc_grad, dec_grad) = encdec_step(&x, &reference, &exact, &exact, 2, n, Some(Real(0.5)));
    assert!(step.reconstruction.0 < 1e-18 && step.spectrum.0 < 1e-18);
    assert!(enc_grad.iter().chain(&dec_grad).all(|g| g.0.abs() < 1e-9));
    let mut enc = exact.clone();
    let mut dec = exact.clone();
    enc[4].0 += 0.1;
    let before = butterfly_train_step_encdec(&x, &reference, &mut enc, &mut dec, 2, n, Real(0.0), None).unwrap();
    assert!(before.reconstruction.0 > 0.0);
    assert_eq!(before.spectrum, Real(0.0));
    let weighted =
        butterfly_train_step_encdec(&x, &reference, &mut enc, &mut dec, 2, n, Real(0.0), Some(Real(1.0))).unwrap();
    assert!(weighted.spectrum.0 > 0.0);
    assert!(butterfly_train_step_encdec(&signal(3), &reference, &mut enc, &mut dec, 2, n, Real(0.1), None).is_err());
}

#[test]
fn residues_divide() {
    let a = Residue::new(12345);
    let b = Residue::new(678);
    assert_eq!(a.over(b).times(b), a);
    assert_eq!(Residue::count(7), Residue::new(7));
    assert_eq!(a.minus(a), Residue::zero());
    assert_eq!(a.negated().plus(a), Residue::zero());
    assert_eq!(raise(Residue::new(2), 10), Residue::new(1024));
}

#[test]
fn decoder_gradients_follow_the_slopes_of_the_reconstruction() {
    let n = 8;
    let x = signal(2 * n);
    let exact = exact_twiddles(n);
    let reference = butterfly_forward_real_batch(&x, &exact, 2, n).unwrap();
    let mut dec = exact.clone();
    for (i, t) in dec.iter_mut().enumerate() {
        t.0 += 0.02 * (i % 3) as f64;
    }
    let (_, _, grads) = encdec_step(&x, &reference, &exact, &dec, 2, n, None);
    let at = |tw: &Vec<Real>| encdec_step(&x, &reference, &exact, tw, 2, n, None).0.reconstruction.0;
    for i in 0..dec.len() {
        let h = 1e-6;
        let mut up = dec.clone();
        up[i].0 += h;
        let mut down = dec.clone();
        down[i].0 -= h;
        // The loss is a mean over numbers, its gradient one over their real and imaginary parts.
        let slope = (at(&up) - at(&down)) / (4.0 * h);
        assert!((grads[i].0 - slope).abs() < 1e-6, "{i}: {} {slope}", grads[i].0);
    }
}

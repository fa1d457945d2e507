use rlx_fft::band_correct::BandedCorrector;
use rlx_fft::band_train::BandError;
use rlx_fft::scalar::{Divisible, Scalar};

/// A single as a scalar.
#[derive(Clone, Copy, Debug, PartialEq)]
struct Single(f32);

impl Scalar for Single {
    fn nought() -> Single {
        Single::zero()
    }

    fn unit() -> Single {
        Single::one()
    }

    fn sum(a: Single, b: Single) -> Single {
        a.plus(b)
    }

    fn difference(a: Single, b: Single) -> Single {
        a.minus(b)
    }

    fn product(a: Single, b: Single) -> Single {
        a.times(b)
    }

    fn opposite(a: Single) -> Single {
        a.negated()
    }

    fn zero() -> Single {
        Single(0.0)
    }

    fn one() -> Single {
        Single(1.0)
    }

    fn plus(self, other: Single) -> Single {
        Single(self.0 + other.0)
    }

    fn minus(self, other: Single) -> Single {
        Single(self.0 - other.0)
    }

    fn times(self, other: Single) -> Single {
        Single(self.0 * other.0)
    }

    fn negated(self) -> Single {
        Single(-self.0)
    }
}

impl Divisible for Single {
    fn quotient(a: Single, b: Single) -> Single {
        a.over(b)
    }

    fn counted(n: usize) -> Single {
        Single::count(n)
    }

    fn over(self, other: Single) -> Single {
        Single(self.0 / other.0)
    }

    fn count(n: usize) -> Single {
        Single(n as f32)
    }
}

fn max_abs_error(a: &[Single], b: &[Single]) -> f32 {
    a.iter().zip(b).map(|(x, y)| (x.0 - y.0).abs()).fold(0.0, f32::max)
}

#[test]
fn banded_identity_passthrough() {
    let c = BandedCorrector::identity(64);
    let x = vec![Single(1.0); 128];
    let y = c.apply_batch(&x, 1, 64).unwrap();
    assert!(max_abs_error(&y, &x) < 1e-5);
}

#[test]
fn dense_rhs_matches_eager() {
    let mut c: BandedCorrector<Single> = BandedCorrector::identity(32);
    let at = 10 * c.band_width + c.radius;
    c.weights[at] = Single(0.5);
    let x: Vec<Single> = (0..64).map(|i| Single(i as f32 * 0.01)).collect();
    let y = c.apply_batch(&x, 1, 32).unwrap();
    let w = c.dense_rhs_matrix();
    let n = 64usize;
    let mut mm = vec![Single(0.0); n];
    for i in 0..n {
        let mut s = 0f32;
        for j in 0..n {
            s += x[j].0 * w[j * n + i].0;
        }
        mm[i] = Single(s + c.bias[i].0);
    }
    assert!(max_abs_error(&y, &mm) < 1e-4);
}

#[test]
fn masks_scale_the_rows_of_the_dense_form() {
    let c: BandedCorrector<Single> = BandedCorrector::identity_spectrum(8);
    let mask: Vec<Single> = (0..16).map(|i| Single(i as f32)).collect();
    let w = c.dense_rhs_with_freq_mask(&mask);
    for i in 0..16 {
        for j in 0..16 {
            assert_eq!(w[j * 16 + i].0, if i == j { i as f32 } else { 0.0 });
        }
    }
    let mut dense = BandedCorrector::<Single>::identity_dense(8);
    assert_eq!((dense.radius, dense.band_width), (15, 31));
    // The corners of the matrix have weights of their own.
    dense.weights[30] = Single(2.0);
    dense.weights[15 * 31] = Single(3.0);
    let matrix = dense.dense_rhs_matrix();
    assert_eq!((matrix[15 * 16], matrix[15]), (Single(2.0), Single(3.0)));
}

#[test]
fn training_a_band_lowers_its_error() {
    let mut c: BandedCorrector<Single> = BandedCorrector::identity(4);
    let x: Vec<Single> = (0..16).map(|i| Single(((i * 5) % 7) as f32 * 0.3 - 0.9)).collect();
    let y: Vec<Single> = x.iter().map(|v| Single(v.0 * 0.7 + 0.1)).collect();
    let first = c.train_step_mse(&x, &y, 2, 4, Single(0.1)).unwrap();
    let mut last = first;
    for _ in 0..60 {
        last = c.train_step_mse(&x, &y, 2, 4, Single(0.1)).unwrap();
    }
    assert!(last.0 < first.0 * 0.5, "{first:?} {last:?}");
    assert!(matches!(c.train_step_mse(&x, &y, 3, 4, Single(0.1)), Err(BandError::Lengths)));
    assert!(matches!(c.train_step_mse(&x, &y, 1, 8, Single(0.1)), Err(BandError::Size)));
    let weights = c.weights.clone();
    let zero = vec![Single(0.0); 16];
    c.train_step_spectrum_grad(&x, &zero, 2, 4, Single(0.1));
    assert_eq!(c.weights, weights);
    c.train_step_spectrum_grad(&x, &x, 2, 4, Single(0.1));
    assert_ne!(c.weights, weights);
    assert!(c.apply_batch(&x, 1, 4).is_none());
}

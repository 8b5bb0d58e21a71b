//! Radial mask construction and mask application.

use freqshow::{BandWeight, Complex, FreqError, FreqImage, Weight};

fn weight_value(w: &Weight) -> f64 {
    match w {
        Weight::One => 1.0,
        Weight::Zero => 0.0,
        Weight::Knee { num, den } => {
            let r = *num as f64 / *den as f64;
            r * r
        }
        Weight::KneeComplement { num, den } => {
            let r = *num as f64 / *den as f64;
            1.0 - r * r
        }
    }
}

fn band_value(b: &BandWeight) -> f64 {
    weight_value(&b.low) * weight_value(&b.high)
}

fn zeros(width: u32, height: u32) -> FreqImage<f64> {
    let n = (width * height) as usize;
    FreqImage { width, height, data: vec![Complex::new(0.0, 0.0); n] }
}

#[test]
fn test_low_high_pass_masks_sum_to_one() {
    let fi = zeros(64, 64);
    // cutoff 0.10 and smoothing 0.02, in thousandths of the diagonal
    let lp = fi.low_pass_mask(100, 20);
    let hp = fi.high_pass_mask(100, 20);
    for (lw, hw) in lp.iter().zip(hp.iter()) {
        let l = weight_value(lw);
        let h = weight_value(hw);
        assert!((l + h - 1.0).abs() < 1e-10, "masks don't sum to 1: {l} + {h}");
    }
}

#[test]
fn test_masks_sum_to_one_odd_dims_with_smoothing() {
    let fi = zeros(31, 17);
    let lp = fi.low_pass_mask(120, 60);
    let hp = fi.high_pass_mask(120, 60);
    for (lw, hw) in lp.iter().zip(hp.iter()) {
        let l = weight_value(lw);
        let h = weight_value(hw);
        assert!((l + h - 1.0).abs() < 1e-10, "masks don't sum to 1: {l} + {h}");
    }
}

#[test]
fn test_band_pass_mask_bounded_by_low_and_high() {
    let fi = zeros(64, 64);
    // cutoffs 0.05 and 0.15 with a hard edge
    let bp = match fi.band_pass_mask(50, 150, 0) {
        Ok(m) => m,
        Err(_) => panic!("valid cutoffs were rejected"),
    };
    let lp = fi.low_pass_mask(150, 0);
    let hp = fi.high_pass_mask(50, 0);
    for ((bw, lw), hw) in bp.iter().zip(lp.iter()).zip(hp.iter()) {
        let b = band_value(bw);
        let l = weight_value(lw);
        let h = weight_value(hw);
        assert!((b - l * h).abs() < 1e-10, "band-pass != low*high: {b} vs {}", l * h);
    }
}

#[test]
fn test_low_pass_mask_passes_center_blocks_corner() {
    let fi = zeros(64, 64);
    let mask = fi.low_pass_mask(100, 0);
    // the pixel at the centered zero-frequency position passes
    assert_eq!(mask[32 * 64 + 32], Weight::One);
    // the far corner is blocked
    assert_eq!(mask[0], Weight::Zero);
}

#[test]
fn test_band_pass_mask_blocks_center() {
    let fi = zeros(64, 64);
    let bp = match fi.band_pass_mask(50, 150, 0) {
        Ok(m) => m,
        Err(_) => panic!("valid cutoffs were rejected"),
    };
    // the zero-frequency term is rejected by the high-pass factor
    assert_eq!(band_value(&bp[32 * 64 + 32]), 0.0);
}

#[test]
fn test_knee_weight_exact_value() {
    let fi = zeros(4, 4);
    // cutoff 0.25, smoothing 0.50: the inner radius collapses to zero
    // and the outer squared radius is (0.5 * diag)^2, so the pixel at
    // (1, 1) falls on the knee
    let mask = fi.low_pass_mask(250, 500);
    assert_eq!(mask[5], Weight::Knee { num: 30000000, den: 32000000 });
    assert_eq!(weight_value(&mask[5]), 0.87890625);
    // and the high-pass mask holds the exact complement
    let hp = fi.high_pass_mask(250, 500);
    assert_eq!(hp[5], Weight::KneeComplement { num: 30000000, den: 32000000 });
    assert_eq!(weight_value(&hp[5]), 1.0 - 0.87890625);
}

#[test]
fn test_band_pass_mask_invalid_range() {
    let fi = zeros(8, 8);
    // low cutoff above high cutoff: no mask is produced
    let r = fi.band_pass_mask(200, 100, 0);
    assert!(matches!(r, Err(FreqError::InvalidRange)));
    // equal cutoffs are rejected too
    let r2 = fi.band_pass_mask(100, 100, 0);
    assert!(matches!(r2, Err(FreqError::InvalidRange)));
    // and the strict order is accepted
    assert!(fi.band_pass_mask(100, 101, 0).is_ok());
}

#[test]
fn test_apply_filter_dimension_mismatch() {
    let data = vec![
        Complex::new(1.0f64, 2.0),
        Complex::new(3.0, 4.0),
        Complex::new(5.0, 6.0),
        Complex::new(7.0, 8.0),
    ];
    let mut fi = FreqImage { width: 2, height: 2, data };
    // one element short: the filter must signal and not touch the buffer
    let mask: Vec<f64> = vec![1.0, 1.0, 1.0];
    let r = fi.apply_filter(&mask, |c: Complex<f64>, m: f64| {
        Complex::new(c.re * m, c.im * m)
    });
    assert!(matches!(r, Err(FreqError::DimensionMismatch)));
    assert_eq!(fi.data[0].re, 1.0);
    assert_eq!(fi.data[1].re, 3.0);
    assert_eq!(fi.data[2].re, 5.0);
    assert_eq!(fi.data[3].re, 7.0);
    assert_eq!(fi.data[3].im, 8.0);
}

#[test]
fn test_apply_filter_identity_and_zero() {
    let data = vec![
        Complex::new(0.5f64, -1.5),
        Complex::new(2.5, 0.25),
        Complex::new(-3.0, 0.0),
        Complex::new(0.125, 9.0),
    ];
    let mut fi = FreqImage { width: 4, height: 1, data: data.clone() };
    let scale = |c: Complex<f64>, m: f64| Complex::new(c.re * m, c.im * m);
    // an all-ones mask leaves the buffer unchanged
    let ones: Vec<f64> = vec![1.0; 4];
    assert!(fi.apply_filter(&ones, scale).is_ok());
    for (a, b) in fi.data.iter().zip(data.iter()) {
        assert_eq!(a.re, b.re);
        assert_eq!(a.im, b.im);
    }
    // an all-zero mask zeroes every sample
    let zero_mask: Vec<f64> = vec![0.0; 4];
    assert!(fi.apply_filter(&zero_mask, scale).is_ok());
    for a in fi.data.iter() {
        assert_eq!(a.re, 0.0);
        assert_eq!(a.im, 0.0);
    }
}

#[test]
fn test_apply_weight_mask_scales_samples() {
    let data = vec![Complex::new(1.0f64, -2.0); 16];
    let mut fi = FreqImage { width: 4, height: 4, data };
    let mask = fi.low_pass_mask(250, 500);
    let r = fi.apply_filter(&mask, |c: Complex<f64>, m: Weight| {
        let v = weight_value(&m);
        Complex::new(c.re * v, c.im * v)
    });
    assert!(r.is_ok());
    // the knee pixel is attenuated by its exact quadratic weight
    assert_eq!(fi.data[5].re, 0.87890625);
    assert_eq!(fi.data[5].im, -2.0 * 0.87890625);
}

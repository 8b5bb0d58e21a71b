//! Transform and quadrant-shift behaviour, with the 1D transform
//! supplied by rustfft.

use freqshow::{Complex, FreqImage};
use rustfft::num_complex::Complex as RComplex;
use rustfft::{FftDirection, FftPlanner};

fn fft_row(direction: FftDirection) -> impl Fn(Vec<Complex<f64>>) -> Vec<Complex<f64>> {
    move |row: Vec<Complex<f64>>| {
        let mut planner = FftPlanner::new();
        let fft = planner.plan_fft(row.len(), direction);
        let mut buf: Vec<RComplex<f64>> =
            row.iter().map(|c| RComplex::new(c.re, c.im)).collect();
        fft.process(&mut buf);
        buf.into_iter().map(|c| Complex::new(c.re, c.im)).collect()
    }
}

fn ramp_image(width: u32, height: u32) -> FreqImage<f64> {
    let n = (width * height) as usize;
    let data: Vec<Complex<f64>> = (0..n)
        .map(|i| Complex::new(((i * 37 + 11) % 256) as f64 / 255.0, 0.0))
        .collect();
    FreqImage { width, height, data }
}

#[test]
fn test_roundtrip() {
    for (width, height) in [(8u32, 8u32), (5, 3), (4, 6), (1, 7), (16, 9)] {
        let bytes: Vec<u8> = (0..(width * height) as usize)
            .map(|i| ((i * 37 + 11) % 256) as u8)
            .collect();
        let mut fi =
            FreqImage::from_raw_image(&bytes, width, height, |p: u8| {
                Complex::new(p as f64 / 255.0, 0.0)
            });
        fi.fft_forward(fft_row(FftDirection::Forward));
        let n = (width * height) as f64;
        fi.fft_inverse(fft_row(FftDirection::Inverse), move |c: Complex<f64>| {
            Complex::new(c.re / n, c.im / n)
        });
        let recovered =
            fi.to_grayscale_bytes(|c: Complex<f64>| (c.re.clamp(0.0, 1.0) * 255.0) as u8);
        for (&orig, &rec) in bytes.iter().zip(recovered.iter()) {
            assert!(orig.abs_diff(rec) <= 1, "pixel mismatch: {orig} vs {rec}");
        }
    }
}

#[test]
fn test_fft_forward_dc_term() {
    let data = vec![Complex::new(0.25f64, 0.0); 16];
    let mut fi = FreqImage { width: 4, height: 4, data };
    fi.fft_forward(fft_row(FftDirection::Forward));
    // the zero-frequency coefficient is the sum of all samples
    assert!((fi.data[0].re - 4.0).abs() < 1e-9);
    assert!(fi.data[0].im.abs() < 1e-9);
    for k in 1..16 {
        assert!(fi.data[k].re.abs() < 1e-9);
        assert!(fi.data[k].im.abs() < 1e-9);
    }
}

#[test]
fn test_fftshift_double_shift_is_identity() {
    // both dimensions even, so the centering shift is an involution
    let fi = ramp_image(6, 4);
    let shifted = fi.fftshift();
    let restored = shifted.fftshift();
    for (a, b) in fi.data.iter().zip(restored.data.iter()) {
        assert!((a.re - b.re).abs() < 1e-10);
    }
}

#[test]
fn test_fftshift_double_shift_differs_for_odd_dims() {
    let fi = ramp_image(5, 3);
    let twice = fi.fftshift().fftshift();
    let mut same = true;
    for (a, b) in fi.data.iter().zip(twice.data.iter()) {
        if (a.re - b.re).abs() > 1e-12 {
            same = false;
        }
    }
    assert!(!same);
}

#[test]
fn test_ifftshift_inverts_fftshift() {
    for (width, height) in [(5u32, 7u32), (6, 4), (5, 4), (1, 9)] {
        let fi = ramp_image(width, height);
        let shifted = fi.fftshift();
        let restored = shifted.ifftshift();
        for (a, b) in fi.data.iter().zip(restored.data.iter()) {
            assert!((a.re - b.re).abs() < 1e-10);
        }
    }
}

#[test]
fn test_center_moves_dc_to_center() {
    // a 2x2 buffer with 1.0+0i at (0, 0) and zero elsewhere
    let mut data = vec![Complex::new(0.0f64, 0.0); 4];
    data[0] = Complex::new(1.0, 0.0);
    let fi = FreqImage { width: 2, height: 2, data };
    let shifted = fi.fftshift();
    // the unit sample lands at (1, 1)
    assert_eq!(shifted.data[3].re, 1.0);
    assert_eq!(shifted.data[0].re, 0.0);
    assert_eq!(shifted.data[1].re, 0.0);
    assert_eq!(shifted.data[2].re, 0.0);
    // uncentering restores it to (0, 0)
    let back = shifted.ifftshift();
    assert_eq!(back.data[0].re, 1.0);
    assert_eq!(back.data[1].re, 0.0);
    assert_eq!(back.data[2].re, 0.0);
    assert_eq!(back.data[3].re, 0.0);
}

#[test]
fn test_shift_on_single_pixel_is_identity() {
    let data = vec![Complex::new(0.5f64, -0.25)];
    let fi = FreqImage { width: 1, height: 1, data };
    let shifted = fi.fftshift();
    assert_eq!(shifted.data[0].re, 0.5);
    assert_eq!(shifted.data[0].im, -0.25);
}

#[test]
fn test_transpose_rearranges() {
    let m: Vec<i32> = vec![1, 2, 3, 4, 5, 6];
    let t = freqshow::transpose(3, 2, &m);
    assert_eq!(t, vec![1, 4, 2, 5, 3, 6]);
}

#[test]
fn test_transpose_involution() {
    let m: Vec<i32> = vec![7, 1, 8, 2, 9, 3, 10, 4];
    let t = freqshow::transpose(4, 2, &m);
    let back = freqshow::transpose(2, 4, &t);
    assert_eq!(back, m);
}

#[test]
fn test_from_raw_image_bytes_roundtrip() {
    let bytes: Vec<u8> = vec![0, 64, 128, 255];
    let fi = FreqImage::from_raw_image(&bytes, 2, 2, |p: u8| {
        Complex::new(p as f64 / 255.0, 0.0)
    });
    assert_eq!(fi.width, 2);
    assert_eq!(fi.height, 2);
    assert_eq!(fi.data[0].re, 0.0);
    assert_eq!(fi.data[3].re, 1.0);
    assert_eq!(fi.data[1].im, 0.0);
    let rec = fi.to_grayscale_bytes(|c: Complex<f64>| (c.re.clamp(0.0, 1.0) * 255.0) as u8);
    for (&orig, &back) in bytes.iter().zip(rec.iter()) {
        assert!(orig.abs_diff(back) <= 1, "pixel mismatch: {orig} vs {back}");
    }
}

//! The complex image buffer: dimensions plus a row-major sample sequence.

use vstd::prelude::*;

verus! {

/// A complex sample, generic over the scalar type that carries the real
/// and imaginary components.
#[derive(Clone, Copy, Debug, PartialEq)]
pub struct Complex<T> {
    /// Real component.
    pub re: T,
    /// Imaginary component.
    pub im: T,
}

impl<T> Complex<T> {
    /// Builds a sample from its real and imaginary components.
    pub fn new(re: T, im: T) -> (r: Complex<T>)
        ensures
            r.re == re,
            r.im == im,
    {
        Complex { re, im }
    }
}

/// Errors signalled by buffer and mask operations.
#[derive(Clone, Copy, Debug, PartialEq, Eq)]
pub enum FreqError {
    /// A mask's length does not match the buffer it is applied to.
    DimensionMismatch,
    /// A band-pass mask was requested with `low_cutoff >= high_cutoff`.
    InvalidRange,
}

/// A grayscale image represented as a complex buffer.
///
/// Carries `width`, `height`, and `data` together; a well-formed buffer
/// always satisfies `data.len() == width * height`, in row-major order
/// (`index = row * width + col`).
#[derive(Clone, Debug)]
pub struct FreqImage<T> {
    /// Image width in pixels.
    pub width: u32,
    /// Image height in pixels.
    pub height: u32,
    /// Complex buffer of length `width * height`.
    pub data: Vec<Complex<T>>,
}

impl<T: Copy> FreqImage<T> {
    /// The buffer invariant: the sample count matches the dimensions.
    pub open spec fn wf(self) -> bool {
        self.data@.len() == self.width * self.height
    }

    /// Builds a buffer directly from a complex sample sequence whose
    /// length matches the dimensions.
    pub fn from_complex_data(width: u32, height: u32, data: Vec<Complex<T>>) -> (r: FreqImage<T>)
        requires
            data@.len() == width * height,
        ensures
            r.width == width,
            r.height == height,
            r.data@ == data@,
            r.wf(),
    {
        FreqImage { width, height, data }
    }

    /// Builds a buffer from raw grayscale bytes, lifting each byte to a
    /// complex sample through the caller's conversion function.
    ///
    /// Every sample of the result is an output of `lift` on the byte at
    /// the same position.
    pub fn from_raw_image<F: Fn(u8) -> Complex<T>>(
        bytes: &Vec<u8>,
        width: u32,
        height: u32,
        lift: F,
    ) -> (r: FreqImage<T>)
        requires
            bytes@.len() == width * height,
            width * height <= usize::MAX,
            forall|p: u8| call_requires(lift, (p,)),
        ensures
            r.width == width,
            r.height == height,
            r.wf(),
            forall|k: int|
                0 <= k < bytes@.len() ==> call_ensures(lift, (bytes@[k],), #[trigger] r.data@[k]),
    {
        let mut data: Vec<Complex<T>> = Vec::new();
        let n = bytes.len();
        for k in 0..n
            invariant
                n == bytes@.len(),
                data@.len() == k,
                forall|p: u8| call_requires(lift, (p,)),
                forall|j: int|
                    0 <= j < k ==> call_ensures(lift, (bytes@[j],), #[trigger] data@[j]),
        {
            data.push(lift(bytes[k]));
        }
        FreqImage { width, height, data }
    }

    /// Converts the buffer back to grayscale bytes, quantizing each
    /// sample through the caller's conversion function.
    ///
    /// The result has one byte per sample, each an output of `quantize`
    /// on the sample at the same position.
    pub fn to_grayscale_bytes<G: Fn(Complex<T>) -> u8>(&self, quantize: G) -> (r: Vec<u8>)
        requires
            forall|c: Complex<T>| call_requires(quantize, (c,)),
        ensures
            r@.len() == self.data@.len(),
            forall|k: int|
                0 <= k < self.data@.len() ==> call_ensures(
                    quantize,
                    (self.data@[k],),
                    #[trigger] r@[k],
                ),
    {
        let mut out: Vec<u8> = Vec::new();
        let n = self.data.len();
        for k in 0..n
            invariant
                n == self.data@.len(),
                out@.len() == k,
                forall|c: Complex<T>| call_requires(quantize, (c,)),
                forall|j: int|
                    0 <= j < k ==> call_ensures(quantize, (self.data@[j],), #[trigger] out@[j]),
        {
            out.push(quantize(self.data[k]));
        }
        out
    }
}

} // verus!

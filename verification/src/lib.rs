//! Frequency-domain image processing over an abstract sample type.
//!
//! A grayscale image is held as a row-major buffer of complex samples.
//! The buffer supports a separable 2D Fourier transform (built from an
//! injected 1D row transform plus verified transposition), quadrant
//! shifts that center and uncenter the zero-frequency term, radial
//! frequency masks with exact rational weights, and element-wise mask
//! application.
//!
//! The scalar inside a sample stays abstract. Everything the library
//! computes itself — the memory-layout discipline (row-major indexing,
//! transposition, the cyclic shifts and their inverses), the exact
//! integer geometry of the radial masks, and the error signalling — is
//! specified and proved. The numeric kernels that need real
//! arithmetic (the 1D transform of each row, the normalization of the
//! inverse, the scaling of a sample by a weight, the conversions
//! between bytes and samples) are taken as function arguments, and
//! every contract states how their outputs are placed.

pub mod buffer;
pub mod fft;
pub mod filter;
pub mod shift;

pub use buffer::Complex;
pub use buffer::FreqError;
pub use buffer::FreqImage;
pub use fft::transpose;
pub use filter::BandWeight;
pub use filter::Weight;

//! Exact wavetable synthesis.
//!
//! A wavetable holds one period of a waveform as a finite sequence of samples
//! and is resampled at any frequency by phase accumulation and linear
//! interpolation. Every quantity here is an exact rational number: a sample is
//! an integer over the table's scale, a frequency and a sample rate are integer
//! counts of one common unit, and the amplitude that comes out is a ratio of
//! integers. The contracts are stated over the reals.

pub mod amplitude;
pub mod laws;
pub mod phase;
pub mod shape;
pub mod table;

pub use amplitude::Amplitude;
pub use shape::Shape;
pub use table::{TableError, WaveTable};

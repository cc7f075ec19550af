//! Audio analysis and prescan library.
//!
//! The library turns windows of mono audio into bounded musical descriptors
//! (band energies, spectral shape, rhythm, dynamics), normalizes them into a
//! fixed range, aggregates a whole file into a frame sequence with summary
//! statistics, persists that sequence in a compact binary artifact, and looks
//! frames up by playback time.
//!
//! All quantities are fixed-point integers:
//! - raw feature values and bounds carry pico-units (`fixed::PICO` per 1.0),
//! - normalized values carry micro-units (`fixed::MICRO` per 1.0),
//! - time is in microseconds, tempo in micro-BPM.
//!
//! The floating-point edges of the pipeline (the forward FFT, audio decoding,
//! the parallel-compute device) live outside this crate; the library receives
//! samples and magnitude spectra as fixed-point values.

pub mod analyzer;
pub mod arv;
pub mod beat;
pub mod features;
pub mod fixed;
pub mod json;
pub mod lookup;
pub mod normalizer;
pub mod prescan;
pub mod seqsum;
pub mod tempo;

//! Acoustic fingerprinting: a spectral-peak signature of a mono 16 kHz waveform.
//!
//! The library holds every decision of the signature pipeline: which samples are
//! analysed, how spectra are kept and spread, which bins are peaks, into which band a
//! peak falls and how a signature is written down and read back. Powers are carried
//! as ordered integer levels; the transform that produces them and the logarithms
//! taken of them belong to the caller.

pub mod errors;
pub mod params;
pub mod fingerprinting;

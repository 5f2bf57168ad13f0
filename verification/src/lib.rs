//! The discrete core of a resynthesis oscillator: grain admission and expiry,
//! harmonic masks, pitch-mode wire codes, quality tables, source container
//! checks, digests and the integer planning of analysis windows.
pub mod analysis;
pub mod artifact;
pub mod decode;
pub mod digest;
pub mod oscillator;
pub mod quality;
pub mod resynth;
pub mod scheduler;
pub mod targeting;
pub mod visual;
pub mod lanes;

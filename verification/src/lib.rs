//! Energy-based onset detection for streamed audio.
//!
//! The library consumes fixed-size chunks of 16-bit audio samples, maintains
//! two staggered sliding frames, and reports per chunk whether an onset
//! (a transient beat event) was confirmed. All arithmetic is exact: sample
//! energies are integers and the adaptive threshold is an exact rational.

pub mod bpm;
pub mod utils;

//! A streaming polyphase sample-rate converter for 16-bit mono PCM.
//!
//! The converter keeps the sixteen most recent input samples and a fractional
//! position on the output timeline.  For every output sample it selects one
//! of 128 filter phases and asks a caller-supplied kernel for the filtered
//! amplitude of the current window, which it then saturates to 16 bits.
//! Everything that decides *when* an output sample is produced, *which* phase
//! it uses and *which* samples it sees is exact integer arithmetic and is
//! proved here; the kernel owns the numerics of the filter itself.

pub mod laws;
pub mod model;
pub mod resampler;
pub mod sample;
pub mod timeline;

pub use resampler::{resample, Resampler};
pub use sample::{saturate, PcmBuf, Sample};
pub use timeline::{NUM_PHASES, TAPS_PER_PHASE};

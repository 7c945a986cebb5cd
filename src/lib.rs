//! Beat detection on a stream of mono `i16` audio samples.

pub mod audio_history;
pub mod beat_detector;
pub mod conversion;
pub mod downsampling;
pub mod envelope_iterator;
pub mod frequencies;
pub mod max_min_iterator;
pub mod ring;
pub mod root_iterator;
pub mod window_stats;

pub use audio_history::{AudioHistory, SampleInfo};
pub use beat_detector::{BeatDetector, BeatInfo};
pub use downsampling::{Downsampler, DownsamplingMetrics};
pub use envelope_iterator::{EnvelopeInfo, EnvelopeIterator};
pub use frequencies::{InvalidFrequencyError, ValidInputFrequencies};
pub use max_min_iterator::MaxMinIterator;
pub use root_iterator::RootIterator;

//! Verified core of a PCM audio streaming pipeline: sender-side chunking of a
//! sample sequence into datagram payloads, the big-endian wire codec, a
//! jitter-buffered playback engine, and an order-preserving recorder.

mod playback;
mod recorder;
mod wave;
mod wire;

pub use playback::{LivePlayback, Pulled};
pub use recorder::{Recorder, RecorderMessage, RecorderState, SaveError};
pub use wave::{Wave, WaveChunks};
pub use wire::decode_samples;

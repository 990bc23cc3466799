//! Engine sound synthesis: the sample-type independent core.
//!
//! The ring buffers that every acoustic cavity is built from, the exact-size
//! streaming adapter between the synthesis worker and the audio callback, the
//! seamless-loop splice used for headless rendering, and the noise source.

pub mod audio;
pub mod buffer;
pub mod noise;
pub mod splice;
pub mod streamer;

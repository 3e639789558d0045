//! Audio, from the microphone to the wire and from the wire to the speakers.
//!
//! Capture: microphone, [`vad`] gate, codec, one datagram per 20 ms frame.
//! Playback: datagram, [`jitter`] buffer per speaker, codec, [`mixer`],
//! speakers.
//!
//! Everything here is bookkeeping on whole numbers: which frame plays when,
//! when the voice gate is open, how a device is opened. Samples themselves stay with
//! the caller.

pub mod codec;
pub mod devices;
pub mod engine;
pub mod jitter;
pub mod mixer;
pub mod vad;

//! Core of a small live-mixing tool: it blends a microphone input, a line-in
//! input, and a pre-loaded background track into one output stream, while a
//! control thread loads tracks, seeks, pauses, and adjusts gains.
//!
//! The engine works on integer PCM: samples are the 16-bit values a decoder
//! produces, gains are fixed-point factors. The caller that talks to the audio
//! backend converts between these and the backend's own sample format.

pub mod catalog;
pub mod decode;
pub mod engine;
pub mod mix;
pub mod notifs;
pub mod transport;

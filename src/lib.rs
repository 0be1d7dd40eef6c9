//! Real-time core of a small audio instrument: the audio block engine, the
//! control-rate poller and the chunked loader of raw sample files.

pub mod control;
pub mod engine;
pub mod wave;

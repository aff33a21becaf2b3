//! Playback scheduling and playlist library for a small audio server.
//!
//! The crate models the server's core: the line-oriented playlist grammar
//! and its serializer, the in-memory asset and playlist stores with
//! all-or-nothing validation, the random queue generator, the sequential
//! playback engine with explicit device-failure handling, and the CSV
//! session logger. Audio decoding, the physical output device and all
//! file or network traffic live outside the library and hand it plain
//! values.

pub mod assets;
pub mod batch;
pub mod engine;
pub mod generate;
pub mod items;
pub mod logging;
pub mod messages;
pub mod playlists;
pub mod structs;
pub mod text;
pub mod tone;

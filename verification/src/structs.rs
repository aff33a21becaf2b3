//! The plain request and response shapes of the server's HTTP surface,
//! as the library sees them. The serving layer owns its own mirrors of
//! these with whatever wire derives it needs and converts at the
//! boundary.

use vstd::prelude::*;

verus! {

/// The port the server listens on.
pub const PORT: u16 = 5055;

/// The JSON body of every plain-message response.
pub struct ResponseMessage {
    pub message: String,
}

/// The optional client timestamp attached to a playback request
/// (empty when absent).
pub struct TimeQuery {
    pub time: String,
}

/// Options of a random-queue playback request; a zero stands for an
/// absent parameter.
pub struct RandomAudioQueueOptions {
    /// Break between files, in milliseconds.
    pub break_between_files: u32,
    /// Number of files to play before stopping.
    pub file_count: u32,
}

/// Options of a playlist-creation request; a zero stands for an absent
/// parameter.
pub struct PlaylistOptions {
    /// Break between files, in milliseconds.
    pub break_between_files: u32,
    /// Number of files the playlist holds.
    pub file_count: u32,
    /// Only create the playlist server-side, without sending it back.
    pub no_download: bool,
}

} // verus!

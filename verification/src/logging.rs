//! The session logger: CSV event rows, the fixed header schema, and
//! per-session log stream naming.
//!
//! Writing the rows to disk is the caller's business and is best-effort
//! there; the library only builds the exact texts, so a write failure can
//! never depend on, or corrupt, what is logged.

use vstd::prelude::*;

use crate::text::{decimal_digits, u128_to_string};

verus! {

/// Which kind of playback run a session stands for.
#[derive(Clone, Copy, PartialEq, Eq, Structural)]
pub enum SessionKind {
    /// One named asset, logged to the shared global stream.
    Single,
    /// A synthesized tone, logged to the shared global stream.
    Tone,
    /// A random queue, logged to a stream of its own.
    Random,
    /// A stored playlist, logged to a stream of its own.
    Playlist,
}

/// The outcome recorded for one played item.
#[derive(Clone, Copy, PartialEq, Eq, Structural)]
pub enum EventStatus {
    Success,
    Error,
}

/// One logged playback event: the host clock when the item started, the
/// item's label, the outcome, and the caller-supplied client timestamp
/// (empty by default).
pub struct LogEvent {
    pub host_timestamp_ns: u128,
    pub item_label: String,
    pub status: EventStatus,
    pub client_timestamp: String,
}

/// The mathematical image of a log event.
pub struct LogEventModel {
    pub host_timestamp_ns: u128,
    pub item_label: Seq<char>,
    pub status: EventStatus,
    pub client_timestamp: Seq<char>,
}

impl View for LogEvent {
    type V = LogEventModel;

    open spec fn view(&self) -> LogEventModel {
        LogEventModel {
            host_timestamp_ns: self.host_timestamp_ns,
            item_label: self.item_label@,
            status: self.status,
            client_timestamp: self.client_timestamp@,
        }
    }
}

pub open spec fn status_word(s: EventStatus) -> Seq<char> {
    match s {
        EventStatus::Success => "success"@,
        EventStatus::Error => "error"@,
    }
}

/// The CSV row recording one event, under the schema
/// `timestamp_audio,audio_filename,status,timestamp_client`.
pub open spec fn csv_row_of(e: LogEventModel) -> Seq<char> {
    decimal_digits(e.host_timestamp_ns as nat) + ","@ + e.item_label + ","@ + status_word(e.status)
        + ","@ + e.client_timestamp
}

/// The fixed header row opening every session log stream.
pub fn csv_header_row() -> (r: String)
    ensures
        r@ == "timestamp_audio,audio_filename,status,timestamp_client"@,
{
    "timestamp_audio,audio_filename,status,timestamp_client".to_owned()
}

/// Renders one event as its CSV row.
pub fn csv_row(e: &LogEvent) -> (r: String)
    ensures
        r@ == csv_row_of(e@),
{
    let mut r = u128_to_string(e.host_timestamp_ns);
    r.append(",");
    r.append(e.item_label.as_str());
    r.append(",");
    match e.status {
        EventStatus::Success => r.append("success"),
        EventStatus::Error => r.append("error"),
    }
    r.append(",");
    r.append(e.client_timestamp.as_str());
    r
}

/// The tag a session kind contributes to its log stream's name: bulk
/// sessions get streams of their own, single plays and tones share the
/// global stream.
pub open spec fn kind_tag(kind: SessionKind) -> Seq<char> {
    match kind {
        SessionKind::Single => ""@,
        SessionKind::Tone => ""@,
        SessionKind::Random => "playrandom_"@,
        SessionKind::Playlist => "playlist_"@,
    }
}

/// The log stream name of a session of kind `kind` started at clock
/// stamp `stamp` (the `.csv` extension is appended at write time).
pub open spec fn log_name_of(kind: SessionKind, stamp: Seq<char>) -> Seq<char> {
    "logs/log_"@ + kind_tag(kind) + stamp
}

/// Builds the log stream name for a session started at `stamp`.
pub fn session_log_name(kind: SessionKind, stamp: &str) -> (r: String)
    ensures
        r@ == log_name_of(kind, stamp@),
{
    let mut r = "logs/log_".to_owned();
    match kind {
        SessionKind::Single => (),
        SessionKind::Tone => (),
        SessionKind::Random => r.append("playrandom_"),
        SessionKind::Playlist => r.append("playlist_"),
    }
    r.append(stamp);
    proof {
        reveal_strlit("");
        assert(""@ =~= Seq::<char>::empty());
        assert(r@ =~= "logs/log_"@ + kind_tag(kind) + stamp@);
    }
    r
}

/// Relies on chrono's Utc::now and DateTime::format: the current UTC
/// time rendered as `%Y%m%d-%H%M%S`. The result depends on the clock,
/// so nothing is promised of it.
#[verifier::external_body]
fn utc_stamp() -> (r: String) {
    chrono::Utc::now().format("%Y%m%d-%H%M%S").to_string()
}

/// One logical playback run with its own append-only log stream.
pub struct Session {
    pub kind: SessionKind,
    pub log_name: String,
}

/// Opens a session of the given kind, naming its log stream from the
/// kind and the current clock.
pub fn start_session(kind: SessionKind) -> (s: Session)
    ensures
        s.kind == kind,
        exists|stamp: Seq<char>| s.log_name@ == log_name_of(kind, stamp),
{
    let stamp = utc_stamp();
    let ghost st = stamp@;
    let log_name = session_log_name(kind, stamp.as_str());
    proof {
        assert(log_name@ == log_name_of(kind, st));
    }
    Session { kind, log_name }
}

} // verus!

//! The playback engine driven through whole sessions, and the session
//! logger's exact texts.

use audio_server::engine::{
    device_error_message, run_queue, EngineState, PlaybackEngine,
};
use audio_server::items::PlaylistTypes;
use audio_server::logging::{
    csv_header_row, csv_row, session_log_name, start_session, EventStatus, LogEvent, SessionKind,
};

fn demo_queue() -> Vec<PlaylistTypes> {
    vec![
        PlaylistTypes::AudioFiles("x.wav".to_string()),
        PlaylistTypes::Pause(500),
        PlaylistTypes::AudioFiles("y.wav".to_string()),
    ]
}

#[test]
fn full_session_emits_one_success_event_per_item() {
    let durations = vec![200u64, 500, 300];
    let engine = run_queue(demo_queue(), true, &durations, 7, "x.wav", "");
    assert!(engine.state() == EngineState::Completed);
    assert_eq!(engine.played_count(), 3);
    // the session blocked for at least the queue's full playing time
    assert!(engine.total_elapsed_ms() >= 200 + 500 + 300);
    let events = engine.events();
    assert_eq!(events.len(), 3);
    assert_eq!(events[0].item_label, "x.wav");
    assert_eq!(events[1].item_label, "pause_500ms");
    assert_eq!(events[2].item_label, "y.wav");
    for e in events.iter() {
        assert!(e.status == EventStatus::Success);
    }
}

#[test]
fn missing_device_aborts_before_any_item() {
    let durations = vec![200u64, 500, 300];
    let engine = run_queue(demo_queue(), false, &durations, 7, "/play/x.wav", "");
    assert!(engine.state() == EngineState::Aborted);
    assert_eq!(engine.played_count(), 0);
    assert_eq!(engine.total_elapsed_ms(), 0);
    let events = engine.events();
    assert_eq!(events.len(), 1);
    assert!(events[0].status == EventStatus::Error);
    assert_eq!(events[0].item_label, "/play/x.wav");
}

#[test]
fn engine_steps_through_draining_and_paused() {
    let mut engine = PlaybackEngine::new(demo_queue());
    assert!(engine.state() == EngineState::Idle);
    engine.start();
    assert!(engine.state() == EngineState::DeviceOpening);
    engine.device_ready(true, 1, "x.wav", "");
    assert!(engine.state() == EngineState::Draining);
    assert!(matches!(engine.current(), Some(PlaylistTypes::AudioFiles(n)) if n == "x.wav"));
    engine.item_done(2, 200, "");
    assert!(engine.state() == EngineState::Paused);
    assert!(matches!(engine.current(), Some(PlaylistTypes::Pause(500))));
    engine.item_done(3, 500, "");
    assert!(engine.state() == EngineState::Draining);
    engine.item_done(4, 300, "");
    assert!(engine.state() == EngineState::Completed);
    assert!(engine.current().is_none());
    assert_eq!(engine.played_count(), 3);
    assert_eq!(engine.total_elapsed_ms(), 1000);
}

#[test]
fn empty_queue_completes_at_once() {
    let engine = run_queue(Vec::new(), true, &Vec::new(), 1, "", "");
    assert!(engine.state() == EngineState::Completed);
    assert_eq!(engine.played_count(), 0);
    assert_eq!(engine.events().len(), 0);
}

#[test]
fn aborting_mid_session_keeps_what_completed() {
    let mut engine = PlaybackEngine::new(demo_queue());
    engine.start();
    engine.device_ready(true, 1, "x.wav", "");
    engine.item_done(2, 200, "");
    engine.abort(3, "");
    assert!(engine.state() == EngineState::Aborted);
    assert_eq!(engine.played_count(), 1);
    let events = engine.events();
    assert_eq!(events.len(), 2);
    assert!(events[0].status == EventStatus::Success);
    assert!(events[1].status == EventStatus::Error);
    assert_eq!(events[1].item_label, "pause_500ms");
}

#[test]
fn csv_rows_follow_the_schema() {
    assert_eq!(csv_header_row(), "timestamp_audio,audio_filename,status,timestamp_client");
    let e = LogEvent {
        host_timestamp_ns: 123,
        item_label: "a.wav".to_string(),
        status: EventStatus::Success,
        client_timestamp: "1700000000000000".to_string(),
    };
    assert_eq!(csv_row(&e), "123,a.wav,success,1700000000000000");
    let e = LogEvent {
        host_timestamp_ns: 9,
        item_label: "pause_5ms".to_string(),
        status: EventStatus::Error,
        client_timestamp: String::new(),
    };
    assert_eq!(csv_row(&e), "9,pause_5ms,error,");
}

#[test]
fn session_streams_are_named_by_kind_and_stamp() {
    assert_eq!(
        session_log_name(SessionKind::Random, "20240101-000000"),
        "logs/log_playrandom_20240101-000000"
    );
    assert_eq!(
        session_log_name(SessionKind::Playlist, "20240101-000000"),
        "logs/log_playlist_20240101-000000"
    );
    assert_eq!(session_log_name(SessionKind::Single, "s"), "logs/log_s");
    assert_eq!(session_log_name(SessionKind::Tone, "s"), "logs/log_s");
}

#[test]
fn started_sessions_carry_their_kind() {
    let s = start_session(SessionKind::Random);
    assert!(s.kind == SessionKind::Random);
    assert!(s.log_name.starts_with("logs/log_playrandom_"));
    let s = start_session(SessionKind::Single);
    assert!(s.log_name.starts_with("logs/log_"));
}

#[test]
fn device_error_message_names_the_cause() {
    assert_eq!(
        device_error_message("OutputStream NoDevice"),
        "Could not create OutputStream. Is there any audio output device available? - Error: OutputStream NoDevice"
    );
}

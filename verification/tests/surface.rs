//! The server's user-visible texts: messages, listings, batch scripts,
//! and tone bookkeeping.

use audio_server::batch::{create_batch_file_audio, create_batch_file_playlist};
use audio_server::messages::{
    asset_not_found_message, effective_count, format_listing, no_audio_files_message,
    played_message, playlist_empty_message, playlist_not_found_message,
};
use audio_server::structs::{PlaylistOptions, RandomAudioQueueOptions, ResponseMessage, TimeQuery, PORT};
use audio_server::tone::tone_sample_count;

#[test]
fn tone_sample_counts_follow_duration_and_rate() {
    // 500 ms at 48 kHz
    assert_eq!(tone_sample_count(500, 48000), 24000);
    assert_eq!(tone_sample_count(1000, 96000), 96000);
    assert_eq!(tone_sample_count(0, 48000), 0);
    assert_eq!(tone_sample_count(1, 500), 0);
    assert_eq!(tone_sample_count(u32::MAX, u32::MAX), (u32::MAX as u64) * (u32::MAX as u64) / 1000);
}

#[test]
fn not_found_messages_name_the_asset() {
    assert_eq!(asset_not_found_message("a.wav"), "Audio file a.wav not found");
    assert_eq!(no_audio_files_message(), "No audio files found");
    assert_eq!(playlist_not_found_message(), "Playlist file name not found");
    assert_eq!(playlist_empty_message(), "Playlist is empty");
}

#[test]
fn played_message_carries_start_time_and_label() {
    assert_eq!(played_message(123456789, "a.wav"), "At 123456789 played a.wav");
}

#[test]
fn zero_parameters_fall_back_to_defaults() {
    assert_eq!(effective_count(0, 100), 100);
    assert_eq!(effective_count(0, 10), 10);
    assert_eq!(effective_count(3, 100), 3);
}

#[test]
fn listing_shows_counts_and_indented_names() {
    let audio = vec!["a.wav".to_string(), "b.wav".to_string()];
    let lists = vec!["p.txt".to_string()];
    let body = format_listing(&audio, &lists);
    assert_eq!(
        body,
        "\n\tAudio files (2):\n\n\t\t\t\ta.wav\n\t\t\t\tb.wav\n\n\n\n\n\tPlaylists (1):\n\n\t\t\t\tp.txt\n\n\n"
    );
}

#[test]
fn empty_listing_still_shows_zero_counts() {
    let body = format_listing(&Vec::new(), &Vec::new());
    assert_eq!(body, "\n\tAudio files (0):\n\n\n\n\n\n\tPlaylists (0):\n\n\n\n");
}

#[test]
fn async_batch_scripts_call_the_helper() {
    let script = create_batch_file_audio("a.wav", "192.168.0.2", "5055", true);
    assert_eq!(
        script,
        "@echo off\n.\\async_get.exe -u http://192.168.0.2:5055/play/a.wav\nexit\n"
    );
    let script = create_batch_file_playlist("p.txt", "10.0.0.1", "5055", true);
    assert_eq!(
        script,
        "@echo off\n.\\async_get.exe -u http://10.0.0.1:5055/playlist/p.txt\nexit\n"
    );
}

#[test]
fn synchronous_batch_scripts_pass_a_timestamp() {
    let script = create_batch_file_audio("a.wav", "192.168.0.2", "5055", false);
    assert!(script.starts_with("@echo off\n<!-- :\n"));
    assert!(script.contains(
        "curl -X GET http://192.168.0.2:5055/play/a.wav?time=%timestamp%000000\n"
    ));
    assert!(script.ends_with("</script></job>\n"));
    let script = create_batch_file_playlist("p.txt", "192.168.0.2", "5055", false);
    assert!(script.contains(
        "curl -X GET http://192.168.0.2:5055/playlist/p.txt?time=%timestamp%000000\n"
    ));
}

#[test]
fn request_shapes_carry_plain_values() {
    let q = RandomAudioQueueOptions { break_between_files: 1000, file_count: 10 };
    assert_eq!(q.break_between_files, 1000);
    assert_eq!(q.file_count, 10);
    let p = PlaylistOptions { break_between_files: 0, file_count: 0, no_download: true };
    assert!(p.no_download);
    let m = ResponseMessage { message: "pong".to_string() };
    assert_eq!(m.message, "pong");
    let t = TimeQuery { time: String::new() };
    assert_eq!(t.time, "");
    assert_eq!(PORT, 5055);
}

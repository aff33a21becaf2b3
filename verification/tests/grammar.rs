//! The playlist text grammar: parsing, serializing, and their round
//! trip.

use audio_server::items::{item_line_string, parse, serialize, PlaylistTypes};
use audio_server::text::{parse_u32, trim_line, u128_to_string};

fn is_audio(it: &PlaylistTypes, name: &str) -> bool {
    matches!(it, PlaylistTypes::AudioFiles(n) if n == name)
}

fn is_pause(it: &PlaylistTypes, ms: u32) -> bool {
    matches!(it, PlaylistTypes::Pause(d) if *d == ms)
}

#[test]
fn parses_mixed_playlist_body() {
    let items = parse("a.wav\npause_500ms\nb.wav");
    assert_eq!(items.len(), 3);
    assert!(is_audio(&items[0], "a.wav"));
    assert!(is_pause(&items[1], 500));
    assert!(is_audio(&items[2], "b.wav"));
}

#[test]
fn ignores_blank_lines_and_padding() {
    let items = parse("\n  a.wav  \n\n\t\npause_10ms\r\n\n");
    assert_eq!(items.len(), 2);
    assert!(is_audio(&items[0], "a.wav"));
    assert!(is_pause(&items[1], 10));
}

#[test]
fn empty_text_parses_to_nothing() {
    assert_eq!(parse("").len(), 0);
    assert_eq!(parse("\n\n \n\t\n").len(), 0);
}

#[test]
fn pause_line_must_match_exactly() {
    let items = parse("pause_ms\npause_12\npause_1x2ms\nPause_5ms");
    assert_eq!(items.len(), 4);
    assert!(is_audio(&items[0], "pause_ms"));
    assert!(is_audio(&items[1], "pause_12"));
    assert!(is_audio(&items[2], "pause_1x2ms"));
    assert!(is_audio(&items[3], "Pause_5ms"));
}

#[test]
fn out_of_range_pause_is_an_asset_name() {
    let items = parse("pause_99999999999999999999ms");
    assert_eq!(items.len(), 1);
    assert!(is_audio(&items[0], "pause_99999999999999999999ms"));
    let items = parse("pause_4294967295ms\npause_4294967296ms");
    assert!(is_pause(&items[0], u32::MAX));
    assert!(is_audio(&items[1], "pause_4294967296ms"));
}

#[test]
fn serialize_joins_lines_with_newlines() {
    let items = vec![
        PlaylistTypes::AudioFiles("a.wav".to_string()),
        PlaylistTypes::Pause(500),
        PlaylistTypes::AudioFiles("b.wav".to_string()),
    ];
    assert_eq!(serialize(&items), "a.wav\npause_500ms\nb.wav");
    assert_eq!(serialize(&Vec::new()), "");
}

#[test]
fn reparsing_a_serialized_parse_is_stable() {
    let texts = [
        "a.wav\npause_500ms\nb.wav",
        "\n\n  x.flac \npause_0ms\n\n y.ogg\n",
        "",
        "pause_12",
    ];
    for t in texts {
        let first = parse(t);
        let second = parse(&serialize(&first));
        assert_eq!(first.len(), second.len());
        for (a, b) in first.iter().zip(second.iter()) {
            match (a, b) {
                (PlaylistTypes::AudioFiles(x), PlaylistTypes::AudioFiles(y)) => assert_eq!(x, y),
                (PlaylistTypes::Pause(x), PlaylistTypes::Pause(y)) => assert_eq!(x, y),
                _ => panic!("round trip changed an item's kind"),
            }
        }
    }
}

#[test]
fn item_lines_render_back_to_the_grammar() {
    assert_eq!(item_line_string(&PlaylistTypes::Pause(500)), "pause_500ms");
    assert_eq!(item_line_string(&PlaylistTypes::Pause(0)), "pause_0ms");
    assert_eq!(
        item_line_string(&PlaylistTypes::AudioFiles("tune.mp3".to_string())),
        "tune.mp3"
    );
}

#[test]
fn decimal_parsing_covers_the_u32_range() {
    assert_eq!(parse_u32("0"), Some(0));
    assert_eq!(parse_u32("500"), Some(500));
    assert_eq!(parse_u32("4294967295"), Some(u32::MAX));
    assert_eq!(parse_u32("4294967296"), None);
    assert_eq!(parse_u32(""), None);
    assert_eq!(parse_u32("12a"), None);
    assert_eq!(parse_u32("007"), Some(7));
}

#[test]
fn decimal_rendering_is_exact() {
    assert_eq!(u128_to_string(0), "0");
    assert_eq!(u128_to_string(7), "7");
    assert_eq!(u128_to_string(1234567890), "1234567890");
    assert_eq!(u128_to_string(u128::MAX), "340282366920938463463374607431768211455");
}

#[test]
fn trimming_strips_blank_padding_only() {
    assert_eq!(trim_line("  a.wav\t\r"), "a.wav");
    assert_eq!(trim_line("a b"), "a b");
    assert_eq!(trim_line(" \t\r"), "");
    assert_eq!(trim_line(""), "");
}

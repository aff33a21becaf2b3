//! The asset and playlist stores: lookup, validation, reload, and
//! content-addressed creation.

use audio_server::assets::{has_audio_extension, preload_audio_files, AudioAsset, AudioFiles};
use audio_server::items::{parse, PlaylistTypes};
use audio_server::playlists::{
    create_from_items, load_and_validate_playlists, playlist_file_name, total_duration_ms,
    PlaylistFile, PlaylistRejection, Playlists,
};

fn asset(name: &str, duration_ms: u64) -> AudioAsset {
    AudioAsset { name: name.to_string(), duration_ms, sample_rate: 48000 }
}

fn store_with(names: &[(&str, u64)]) -> AudioFiles {
    let mut store = AudioFiles::new();
    for (name, dur) in names {
        store.insert(asset(name, *dur));
    }
    store
}

#[test]
fn recognizes_audio_extensions() {
    assert!(has_audio_extension("a.wav"));
    assert!(has_audio_extension("b.mp3"));
    assert!(has_audio_extension("c.flac"));
    assert!(has_audio_extension("d.ogg"));
    assert!(!has_audio_extension("notes.txt"));
    assert!(!has_audio_extension("wav"));
    assert!(!has_audio_extension(""));
}

#[test]
fn asset_store_looks_up_by_name() {
    let store = store_with(&[("a.wav", 200), ("b.wav", 300)]);
    assert_eq!(store.len(), 2);
    let a = store.lookup("a.wav").expect("a.wav is stored");
    assert_eq!(a.duration_ms, 200);
    assert!(store.lookup("c.wav").is_none());
    assert!(store.contains("b.wav"));
}

#[test]
fn asset_store_insert_replaces_same_name() {
    let mut store = store_with(&[("a.wav", 200)]);
    store.insert(asset("a.wav", 900));
    assert_eq!(store.len(), 1);
    assert_eq!(store.lookup("a.wav").unwrap().duration_ms, 900);
}

#[test]
fn preload_keeps_only_audio_files() {
    let decoded = vec![asset("a.wav", 1), asset("readme.txt", 2), asset("b.ogg", 3)];
    let store = preload_audio_files(&decoded);
    assert_eq!(store.len(), 2);
    assert!(store.contains("a.wav"));
    assert!(store.contains("b.ogg"));
    assert!(!store.contains("readme.txt"));
}

#[test]
fn registration_is_all_or_nothing() {
    let assets = store_with(&[("a.wav", 100), ("b.wav", 100)]);
    let mut lists = Playlists::new();
    let good = parse("a.wav\npause_500ms\nb.wav");
    assert!(lists.validate_and_register("good.txt".to_string(), good, &assets).is_ok());
    assert_eq!(lists.len(), 1);

    // a playlist referencing a missing asset is rejected whole
    let bad = parse("a.wav\nmissing.wav\nb.wav");
    let outcome = lists.validate_and_register("bad.txt".to_string(), bad, &assets);
    match outcome {
        Err(PlaylistRejection::MissingAsset(name)) => assert_eq!(name, "missing.wav"),
        _ => panic!("expected the missing asset to be reported"),
    }
    // the store is unchanged: same playlist count as before
    assert_eq!(lists.len(), 1);
    assert!(lists.lookup("bad.txt").is_none());

    // an empty playlist is rejected too
    let outcome = lists.validate_and_register("empty.txt".to_string(), Vec::new(), &assets);
    assert!(matches!(outcome, Err(PlaylistRejection::EmptyPlaylist)));
    assert_eq!(lists.len(), 1);
}

#[test]
fn reload_skips_bad_files_in_isolation() {
    let assets = store_with(&[("a.wav", 100), ("b.wav", 100)]);
    let files = vec![
        PlaylistFile { name: "good.txt".to_string(), contents: "a.wav\npause_5ms\nb.wav".to_string() },
        PlaylistFile { name: "bad.txt".to_string(), contents: "missing.wav".to_string() },
        PlaylistFile { name: "blank.txt".to_string(), contents: "\n\n  \n".to_string() },
        PlaylistFile { name: "notes.md".to_string(), contents: "a.wav".to_string() },
        PlaylistFile { name: "other.txt".to_string(), contents: "b.wav".to_string() },
    ];
    let store = load_and_validate_playlists(&files, &assets);
    assert_eq!(store.len(), 2);
    assert!(store.lookup("good.txt").is_some());
    assert!(store.lookup("other.txt").is_some());
    assert!(store.lookup("bad.txt").is_none());
    assert!(store.lookup("blank.txt").is_none());
    assert!(store.lookup("notes.md").is_none());
    let good = store.lookup("good.txt").unwrap();
    assert_eq!(good.items.len(), 3);
}

#[test]
fn install_swaps_the_whole_mapping() {
    let assets = store_with(&[("a.wav", 100)]);
    let mut active = Playlists::new();
    let items = parse("a.wav");
    active.validate_and_register("one.txt".to_string(), items, &assets).unwrap();
    assert_eq!(active.len(), 1);
    let rebuilt = load_and_validate_playlists(&Vec::new(), &assets);
    active.install(rebuilt);
    assert_eq!(active.len(), 0);
}

#[test]
fn created_playlists_are_content_addressed() {
    let items = parse("a.wav\npause_500ms\nb.wav");
    let created = create_from_items(&items);
    assert_eq!(created.body, "a.wav\npause_500ms\nb.wav");
    // the id is the first 8 hex characters of the body's SHA-256 digest
    assert_eq!(created.id, "0752f8cb");
    assert_eq!(created.id.len(), 8);
}

#[test]
fn identical_items_always_get_the_same_id() {
    let one = parse("x.wav");
    let two = parse("  x.wav  \n");
    let first = create_from_items(&one);
    let second = create_from_items(&two);
    assert_eq!(first.id, second.id);
    assert_eq!(first.id, "055c99c1");
}

#[test]
fn durations_sum_assets_and_pauses() {
    let assets = store_with(&[("a.wav", 200), ("b.wav", 300)]);
    let items = parse("a.wav\npause_500ms\nb.wav");
    assert_eq!(total_duration_ms(&items, &assets), 1000);
    assert_eq!(total_duration_ms(&Vec::new(), &assets), 0);
}

#[test]
fn generated_file_names_carry_id_duration_and_count() {
    assert_eq!(playlist_file_name("0752f8cb", 24500, 3), "playlist_0752f8cb_24s_3count.txt");
    assert_eq!(playlist_file_name("abcd1234", 0, 1), "playlist_abcd1234_0s_1count.txt");
}

#[test]
fn playlist_lookup_by_name() {
    let assets = store_with(&[("a.wav", 100)]);
    let mut lists = Playlists::new();
    let items: Vec<PlaylistTypes> = parse("a.wav\npause_1ms");
    lists.validate_and_register("p.txt".to_string(), items, &assets).unwrap();
    let p = lists.lookup("p.txt").unwrap();
    assert_eq!(p.name, "p.txt");
    assert_eq!(p.items.len(), 2);
    assert!(lists.lookup("q.txt").is_none());
}

//! The random queue generator: counts, positions, and membership.

use audio_server::assets::{AudioAsset, AudioFiles};
use audio_server::generate::{generate_random_audio_queue, GenerateError};
use audio_server::items::PlaylistTypes;

fn store_of(names: &[&str]) -> AudioFiles {
    let mut store = AudioFiles::new();
    for name in names {
        store.insert(AudioAsset { name: name.to_string(), duration_ms: 100, sample_rate: 44100 });
    }
    store
}

#[test]
fn queue_alternates_audio_and_breaks() {
    let assets = store_of(&["a.wav", "b.wav", "c.wav", "d.wav", "e.wav"]);
    let queue = generate_random_audio_queue(&assets, 10, 1000).expect("assets are available");
    // 10 audio items and 9 breaks, audio first and last
    assert_eq!(queue.len(), 19);
    for (i, item) in queue.iter().enumerate() {
        if i % 2 == 0 {
            match item {
                PlaylistTypes::AudioFiles(name) => assert!(assets.contains(name)),
                PlaylistTypes::Pause(_) => panic!("break at an audio position"),
            }
        } else {
            assert!(matches!(item, PlaylistTypes::Pause(1000)));
        }
    }
}

#[test]
fn zero_break_yields_audio_only() {
    let assets = store_of(&["a.wav", "b.wav"]);
    let queue = generate_random_audio_queue(&assets, 7, 0).expect("assets are available");
    assert_eq!(queue.len(), 7);
    for item in queue.iter() {
        match item {
            PlaylistTypes::AudioFiles(name) => assert!(assets.contains(name)),
            PlaylistTypes::Pause(_) => panic!("no breaks were requested"),
        }
    }
}

#[test]
fn empty_store_is_refused() {
    let assets = AudioFiles::new();
    let outcome = generate_random_audio_queue(&assets, 5, 100);
    assert!(matches!(outcome, Err(GenerateError::NoAssetsAvailable)));
}

#[test]
fn zero_files_give_an_empty_queue() {
    let assets = store_of(&["a.wav"]);
    let queue = generate_random_audio_queue(&assets, 0, 1000).expect("assets are available");
    assert_eq!(queue.len(), 0);
}

#[test]
fn single_file_queue_has_no_breaks() {
    let assets = store_of(&["a.wav"]);
    let queue = generate_random_audio_queue(&assets, 1, 1000).expect("assets are available");
    assert_eq!(queue.len(), 1);
    assert!(matches!(&queue[0], PlaylistTypes::AudioFiles(n) if n == "a.wav"));
}

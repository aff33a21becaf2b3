//! The asset store: what the library knows of each decoded audio file.
//!
//! Decoding itself happens outside the library; the store keeps, per
//! asset, the name it is requested under, its playing time and its native
//! sample rate. The store is read-only after startup, so no locking is
//! modeled here.

use vstd::prelude::*;

use crate::text::{ends_with, has_suffix, str_eq};

verus! {

/// What the library reads of one decoded audio asset.
pub struct AudioAsset {
    pub name: String,
    pub duration_ms: u64,
    pub sample_rate: u32,
}

/// The mathematical image of an asset.
pub struct AssetModel {
    pub name: Seq<char>,
    pub duration_ms: u64,
    pub sample_rate: u32,
}

impl View for AudioAsset {
    type V = AssetModel;

    open spec fn view(&self) -> AssetModel {
        AssetModel { name: self.name@, duration_ms: self.duration_ms, sample_rate: self.sample_rate }
    }
}

/// The in-memory store of decoded audio assets, keyed by name.
pub struct AudioFiles {
    files: Vec<AudioAsset>,
}

impl AudioFiles {
    /// The stored assets, in insertion order.
    pub closed spec fn assets(self) -> Seq<AssetModel> {
        self.files@.map_values(|a: AudioAsset| a@)
    }

    /// Names are unique: the store behaves as a mapping.
    pub open spec fn inv(self) -> bool {
        forall|i: int, j: int|
            0 <= i < j < self.assets().len() ==> #[trigger] self.assets()[i].name
                != #[trigger] self.assets()[j].name
    }

    pub open spec fn contains_name(self, n: Seq<char>) -> bool {
        exists|i: int| 0 <= i < self.assets().len() && #[trigger] self.assets()[i].name == n
    }

    /// The asset stored under `n` (meaningful only when `contains_name(n)`).
    pub open spec fn asset_named(self, n: Seq<char>) -> AssetModel {
        let i = choose|i: int| 0 <= i < self.assets().len() && #[trigger] self.assets()[i].name == n;
        self.assets()[i]
    }

    pub fn new() -> (r: AudioFiles)
        ensures
            r.inv(),
            r.assets().len() == 0,
    {
        AudioFiles { files: Vec::new() }
    }

    pub fn len(&self) -> (r: usize)
        ensures
            r == self.assets().len(),
    {
        self.files.len()
    }

    /// The name of the asset at position `i` of the store.
    pub fn name_at(&self, i: usize) -> (r: &String)
        requires
            i < self.assets().len(),
        ensures
            r@ == self.assets()[i as int].name,
            self.contains_name(r@),
    {
        let r = &self.files[i].name;
        proof {
            assert(self.assets()[i as int].name == r@);
        }
        r
    }

    /// Looks an asset up by name; `Some` exactly when the name is stored.
    pub fn lookup(&self, name: &str) -> (r: Option<&AudioAsset>)
        requires
            self.inv(),
        ensures
            match r {
                Some(a) => self.contains_name(name@) && a@ == self.asset_named(name@),
                None => !self.contains_name(name@),
            },
    {
        let n = self.files.len();
        let mut i: usize = 0;
        while i < n
            invariant
                0 <= i <= n,
                n == self.assets().len(),
                self.inv(),
                forall|k: int| 0 <= k < i ==> #[trigger] self.assets()[k].name != name@,
            decreases n - i,
        {
            if str_eq(self.files[i].name.as_str(), name) {
                proof {
                    assert(self.assets()[i as int].name == name@);
                }
                return Some(&self.files[i]);
            }
            proof {
                assert(self.assets()[i as int].name != name@);
            }
            i = i + 1;
        }
        None
    }

    /// Whether an asset of this name is stored.
    pub fn contains(&self, name: &str) -> (r: bool)
        requires
            self.inv(),
        ensures
            r == self.contains_name(name@),
    {
        self.lookup(name).is_some()
    }

    /// Inserts an asset, replacing any asset already stored under the
    /// same name.
    pub fn insert(&mut self, asset: AudioAsset)
        requires
            old(self).inv(),
        ensures
            final(self).inv(),
            final(self).contains_name(asset@.name),
            final(self).asset_named(asset@.name) == asset@,
            forall|n: Seq<char>|
                n != asset@.name ==> #[trigger] final(self).contains_name(n) == old(
                    self).contains_name(n),
            forall|n: Seq<char>|
                n != asset@.name && old(self).contains_name(n) ==> #[trigger] final(
                    self).asset_named(n) == old(self).asset_named(n),
            final(self).assets().len() == if old(self).contains_name(asset@.name) {
                old(self).assets().len()
            } else {
                old(self).assets().len() + 1
            },
    {
        let n = self.files.len();
        let mut i: usize = 0;
        while i < n
            invariant
                0 <= i <= n,
                n == self.assets().len(),
                self.inv(),
                self == old(self),
                forall|k: int| 0 <= k < i ==> #[trigger] self.assets()[k].name != asset@.name,
            decreases n - i,
        {
            if str_eq(self.files[i].name.as_str(), asset.name.as_str()) {
                proof {
                    assert(self.assets()[i as int].name == asset@.name);
                }
                self.files.set(i, asset);
                proof {
                    let new_assets = self.assets();
                    let old_assets = old(self).assets();
                    assert(new_assets =~= old_assets.update(i as int, asset@));
                    // every slot keeps its name, so the invariant carries over
                    assert(forall|k: int|
                        0 <= k < new_assets.len() ==> #[trigger] new_assets[k].name
                            == old_assets[k].name);
                    assert(self.inv());
                    // the replaced slot is the only one holding this name
                    assert forall|k: int|
                        0 <= k < new_assets.len() && #[trigger] new_assets[k].name == asset@.name
                        implies k == i as int by {}
                    assert(new_assets[i as int].name == asset@.name);
                    assert(new_assets[i as int] == asset@);
                    assert(self.contains_name(asset@.name) && self.asset_named(asset@.name)
                        == asset@);
                    assert forall|m: Seq<char>| m != asset@.name implies #[trigger] self
                        .contains_name(m) == old(self).contains_name(m) by {
                        if old(self).contains_name(m) {
                            let k = choose|k: int|
                                0 <= k < old_assets.len() && #[trigger] old_assets[k].name == m;
                            assert(new_assets[k].name == m);
                        }
                        if self.contains_name(m) {
                            let k = choose|k: int|
                                0 <= k < new_assets.len() && #[trigger] new_assets[k].name == m;
                            assert(old_assets[k].name == m);
                        }
                    }
                    assert forall|m: Seq<char>|
                        m != asset@.name && old(self).contains_name(m) implies #[trigger] self
                        .asset_named(m) == old(self).asset_named(m) by {
                        let k = choose|k: int|
                            0 <= k < new_assets.len() && #[trigger] new_assets[k].name == m;
                        let k2 = choose|k2: int|
                            0 <= k2 < old_assets.len() && #[trigger] old_assets[k2].name == m;
                        assert(new_assets[k2].name == m);
                        assert(old_assets[k].name == m);
                        assert(k == k2);
                    }
                }
                return ;
            }
            proof {
                assert(self.assets()[i as int].name != asset@.name);
            }
            i = i + 1;
        }
        self.files.push(asset);
        proof {
            let new_assets = self.assets();
            let old_assets = old(self).assets();
            let last = new_assets.len() - 1;
            assert(new_assets =~= old_assets.push(asset@));
            assert(new_assets[last] == asset@);
            // the fresh name is in no earlier slot, so uniqueness holds
            assert(forall|k: int| 0 <= k < last ==> #[trigger] old_assets[k].name != asset@.name);
            assert(self.inv());
            assert forall|k: int|
                0 <= k < new_assets.len() && #[trigger] new_assets[k].name == asset@.name implies k
                == last by {}
            assert(self.contains_name(asset@.name) && self.asset_named(asset@.name) == asset@);
            assert forall|m: Seq<char>| m != asset@.name implies #[trigger] self.contains_name(m)
                == old(self).contains_name(m) by {
                if old(self).contains_name(m) {
                    let k = choose|k: int|
                        0 <= k < old_assets.len() && #[trigger] old_assets[k].name == m;
                    assert(new_assets[k].name == m);
                }
                if self.contains_name(m) {
                    let k = choose|k: int|
                        0 <= k < new_assets.len() && #[trigger] new_assets[k].name == m;
                    assert(k < old_assets.len());
                    assert(old_assets[k].name == m);
                }
            }
            assert forall|m: Seq<char>|
                m != asset@.name && old(self).contains_name(m) implies #[trigger] self.asset_named(
                m) == old(self).asset_named(m) by {
                let k = choose|k: int|
                    0 <= k < new_assets.len() && #[trigger] new_assets[k].name == m;
                let k2 = choose|k2: int|
                    0 <= k2 < old_assets.len() && #[trigger] old_assets[k2].name == m;
                assert(new_assets[k2].name == m);
                assert(k < last);
                assert(old_assets[k].name == m);
                assert(k == k2);
            }
        }
    }
}

pub open spec fn suffix_mp3() -> Seq<char> {
    seq!['.', 'm', 'p', '3']
}

pub open spec fn suffix_wav() -> Seq<char> {
    seq!['.', 'w', 'a', 'v']
}

pub open spec fn suffix_flac() -> Seq<char> {
    seq!['.', 'f', 'l', 'a', 'c']
}

pub open spec fn suffix_ogg() -> Seq<char> {
    seq!['.', 'o', 'g', 'g']
}

/// Whether a file name carries one of the recognized audio extensions.
pub open spec fn is_audio_name(n: Seq<char>) -> bool {
    has_suffix(n, suffix_mp3()) || has_suffix(n, suffix_wav()) || has_suffix(n, suffix_flac())
        || has_suffix(n, suffix_ogg())
}

/// Recognizes the audio file extensions the server plays.
pub fn has_audio_extension(name: &str) -> (r: bool)
    ensures
        r == is_audio_name(name@),
{
    proof {
        reveal_strlit(".mp3");
        reveal_strlit(".wav");
        reveal_strlit(".flac");
        reveal_strlit(".ogg");
        assert(".mp3"@ =~= suffix_mp3());
        assert(".wav"@ =~= suffix_wav());
        assert(".flac"@ =~= suffix_flac());
        assert(".ogg"@ =~= suffix_ogg());
    }
    ends_with(name, ".mp3") || ends_with(name, ".wav") || ends_with(name, ".flac") || ends_with(
        name,
        ".ogg",
    )
}

/// Builds the asset store from the decoded files of the audio folder,
/// keeping exactly the entries whose names carry a recognized audio
/// extension.
pub fn preload_audio_files(decoded: &Vec<AudioAsset>) -> (r: AudioFiles)
    ensures
        r.inv(),
        forall|i: int|
            0 <= i < decoded@.len() && is_audio_name(#[trigger] decoded@[i]@.name)
                ==> r.contains_name(decoded@[i]@.name),
        forall|n: Seq<char>|
            #[trigger] r.contains_name(n) ==> is_audio_name(n) && exists|i: int|
                0 <= i < decoded@.len() && #[trigger] decoded@[i]@.name == n && r.asset_named(n)
                    == decoded@[i]@,
{
    let mut store = AudioFiles::new();
    let n = decoded.len();
    let mut idx: usize = 0;
    while idx < n
        invariant
            0 <= idx <= n,
            n == decoded@.len(),
            store.inv(),
            forall|i: int|
                0 <= i < idx && is_audio_name(#[trigger] decoded@[i]@.name)
                    ==> store.contains_name(decoded@[i]@.name),
            forall|m: Seq<char>|
                #[trigger] store.contains_name(m) ==> is_audio_name(m) && exists|i: int|
                    0 <= i < idx && #[trigger] decoded@[i]@.name == m && store.asset_named(m)
                        == decoded@[i]@,
        decreases n - idx,
    {
        if has_audio_extension(decoded[idx].name.as_str()) {
            let asset = AudioAsset {
                name: decoded[idx].name.clone(),
                duration_ms: decoded[idx].duration_ms,
                sample_rate: decoded[idx].sample_rate,
            };
            let ghost before = store;
            let ghost aname = asset@.name;
            proof {
                assert(asset@ == decoded@[idx as int]@);
            }
            store.insert(asset);
            proof {
                assert forall|m: Seq<char>| #[trigger] store.contains_name(m) implies is_audio_name(
                    m,
                ) && exists|i: int|
                    0 <= i < idx + 1 && #[trigger] decoded@[i]@.name == m && store.asset_named(m)
                        == decoded@[i]@ by {
                    if m == aname {
                        assert(decoded@[idx as int]@.name == m && store.asset_named(m)
                            == decoded@[idx as int]@);
                    } else {
                        assert(before.contains_name(m));
                        let i = choose|i: int|
                            0 <= i < idx && #[trigger] decoded@[i]@.name == m
                                && before.asset_named(m) == decoded@[i]@;
                        assert(decoded@[i]@.name == m && store.asset_named(m) == decoded@[i]@);
                    }
                }
            }
        }
        idx = idx + 1;
    }
    store
}

} // verus!

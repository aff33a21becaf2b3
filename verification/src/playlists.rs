//! The playlist store: validated playlists keyed by file name, plus
//! content-addressed creation of new playlists.
//!
//! A playlist is accepted only whole: it must have at least one item and
//! every asset reference must resolve in the asset store; otherwise the
//! store is left untouched and the first missing name is reported. A
//! reload builds a brand-new store from the folder's files and replaces
//! the active one in a single assignment; one bad file never affects the
//! others.

use vstd::prelude::*;

use crate::assets::AudioFiles;
use crate::items::{
    serialize, serialize_items, items_view, parse, parse_items, ItemModel, PlaylistTypes,
};
use crate::text::has_suffix;

verus! {

/// One validated playlist: the file name it is requested under and its
/// ordered items.
pub struct Playlist {
    pub name: String,
    pub items: Vec<PlaylistTypes>,
}

/// The mathematical image of a playlist.
pub struct PlaylistModel {
    pub name: Seq<char>,
    pub items: Seq<ItemModel>,
}

impl View for Playlist {
    type V = PlaylistModel;

    open spec fn view(&self) -> PlaylistModel {
        PlaylistModel { name: self.name@, items: items_view(self.items@) }
    }
}

/// Why a playlist was rejected by validation.
#[derive(Debug)]
pub enum PlaylistRejection {
    /// No items were left after parsing.
    EmptyPlaylist,
    /// The first asset reference that does not resolve in the asset store.
    MissingAsset(String),
}

/// Whether every asset reference among `items` resolves in `assets`.
pub open spec fn items_resolve(items: Seq<ItemModel>, assets: AudioFiles) -> bool {
    forall|i: int|
        0 <= i < items.len() ==> match #[trigger] items[i] {
            ItemModel::Audio(name) => assets.contains_name(name),
            ItemModel::Pause(_) => true,
        }
}

/// The first asset reference in order that does not resolve, if any.
pub open spec fn first_missing(items: Seq<ItemModel>, assets: AudioFiles) -> Option<Seq<char>>
    decreases items.len(),
{
    if items.len() == 0 {
        Option::None
    } else {
        match items[0] {
            ItemModel::Audio(name) => if !assets.contains_name(name) {
                Option::Some(name)
            } else {
                first_missing(items.drop_first(), assets)
            },
            ItemModel::Pause(_) => first_missing(items.drop_first(), assets),
        }
    }
}

/// There is a first missing reference exactly when not all resolve.
pub proof fn lemma_first_missing_none(items: Seq<ItemModel>, assets: AudioFiles)
    ensures
        first_missing(items, assets) is None <==> items_resolve(items, assets),
    decreases items.len(),
{
    if items.len() > 0 {
        lemma_first_missing_none(items.drop_first(), assets);
        let rest = items.drop_first();
        assert(forall|i: int| 0 <= i < rest.len() ==> #[trigger] rest[i] == items[i + 1]);
        if first_missing(items, assets) is None {
            assert forall|i: int| 0 <= i < items.len() implies match #[trigger] items[i] {
                ItemModel::Audio(name) => assets.contains_name(name),
                ItemModel::Pause(_) => true,
            } by {
                if i > 0 {
                    assert(items[i] == rest[i - 1]);
                }
            }
        }
    }
}

/// The in-memory mapping of validated playlists, keyed by file name.
pub struct Playlists {
    playlists: Vec<Playlist>,
}

impl Playlists {
    /// The stored playlists, in insertion order.
    pub closed spec fn entries(self) -> Seq<PlaylistModel> {
        self.playlists@.map_values(|p: Playlist| p@)
    }

    /// Names are unique and every stored playlist is non-empty.
    pub open spec fn inv(self) -> bool {
        &&& forall|i: int, j: int|
            0 <= i < j < self.entries().len() ==> #[trigger] self.entries()[i].name
                != #[trigger] self.entries()[j].name
        &&& forall|i: int|
            0 <= i < self.entries().len() ==> #[trigger] self.entries()[i].items.len() > 0
    }

    pub open spec fn contains_name(self, n: Seq<char>) -> bool {
        exists|i: int| 0 <= i < self.entries().len() && #[trigger] self.entries()[i].name == n
    }

    /// The playlist stored under `n` (meaningful only when
    /// `contains_name(n)`).
    pub open spec fn playlist_named(self, n: Seq<char>) -> PlaylistModel {
        let i = choose|i: int|
            0 <= i < self.entries().len() && #[trigger] self.entries()[i].name == n;
        self.entries()[i]
    }

    pub fn new() -> (r: Playlists)
        ensures
            r.inv(),
            r.entries().len() == 0,
    {
        Playlists { playlists: Vec::new() }
    }

    pub fn len(&self) -> (r: usize)
        ensures
            r == self.entries().len(),
    {
        self.playlists.len()
    }

    /// The name of the playlist at position `i` of the store.
    pub fn name_at(&self, i: usize) -> (r: &String)
        requires
            i < self.entries().len(),
        ensures
            r@ == self.entries()[i as int].name,
            self.contains_name(r@),
    {
        let r = &self.playlists[i].name;
        proof {
            assert(self.entries()[i as int].name == r@);
        }
        r
    }

    /// Looks a playlist up by name; `Some` exactly when the name is
    /// stored.
    pub fn lookup(&self, name: &str) -> (r: Option<&Playlist>)
        requires
            self.inv(),
        ensures
            match r {
                Some(p) => self.contains_name(name@) && p@ == self.playlist_named(name@)
                    && p@.items.len() > 0,
                None => !self.contains_name(name@),
            },
    {
        let n = self.playlists.len();
        let mut i: usize = 0;
        while i < n
            invariant
                0 <= i <= n,
                n == self.entries().len(),
                self.inv(),
                forall|k: int| 0 <= k < i ==> #[trigger] self.entries()[k].name != name@,
            decreases n - i,
        {
            if crate::text::str_eq(self.playlists[i].name.as_str(), name) {
                proof {
                    assert(self.entries()[i as int].name == name@);
                }
                return Some(&self.playlists[i]);
            }
            proof {
                assert(self.entries()[i as int].name != name@);
            }
            i = i + 1;
        }
        None
    }

    /// Registers `items` under `name` after validating them against the
    /// asset store. The playlist is accepted exactly when it is non-empty
    /// and every asset reference resolves; on rejection the store is left
    /// unchanged and the reason names the first unresolved asset, if that
    /// is the cause. Accepting replaces any playlist of the same name.
    pub fn validate_and_register(
        &mut self,
        name: String,
        items: Vec<PlaylistTypes>,
        assets: &AudioFiles,
    ) -> (r: Result<(), PlaylistRejection>)
        requires
            old(self).inv(),
            assets.inv(),
        ensures
            final(self).inv(),
            r is Ok <==> items_view(items@).len() > 0 && items_resolve(items_view(items@), *assets),
            match r {
                Ok(_) => {
                    &&& final(self).contains_name(name@)
                    &&& final(self).playlist_named(name@) == (PlaylistModel {
                        name: name@,
                        items: items_view(items@),
                    })
                    &&& forall|n: Seq<char>|
                        n != name@ ==> #[trigger] final(self).contains_name(n) == old(
                            self).contains_name(n)
                    &&& forall|n: Seq<char>|
                        n != name@ && old(self).contains_name(n) ==> #[trigger] final(
                            self).playlist_named(n) == old(self).playlist_named(n)
                    &&& final(self).entries().len() == if old(self).contains_name(name@) {
                        old(self).entries().len()
                    } else {
                        old(self).entries().len() + 1
                    }
                },
                Err(e) => {
                    &&& *final(self) == *old(self)
                    &&& match e {
                        PlaylistRejection::EmptyPlaylist => items_view(items@).len() == 0,
                        PlaylistRejection::MissingAsset(m) => first_missing(
                            items_view(items@),
                            *assets,
                        ) == Option::Some(m@),
                    }
                },
            },
    {
        if items.len() == 0 {
            proof {
                assert(items_view(items@).len() == 0);
            }
            return Err(PlaylistRejection::EmptyPlaylist);
        }
        // find the first unresolved asset reference, if any
        let ghost iv = items_view(items@);
        let mut i: usize = 0;
        let n = items.len();
        proof {
            assert(iv.skip(0) =~= iv);
        }
        while i < n
            invariant
                0 <= i <= n,
                n == iv.len(),
                iv == items_view(items@),
                assets.inv(),
                self == old(self),
                old(self).inv(),
                iv.len() > 0,
                forall|k: int|
                    0 <= k < i ==> match #[trigger] iv[k] {
                        ItemModel::Audio(nm) => assets.contains_name(nm),
                        ItemModel::Pause(_) => true,
                    },
                first_missing(iv, *assets) == first_missing(iv.skip(i as int), *assets),
            decreases n - i,
        {
            let ghost rem = iv.skip(i as int);
            proof {
                assert(rem[0] == iv[i as int]);
                assert(rem.drop_first() =~= iv.skip(i as int + 1));
            }
            match &items[i] {
                PlaylistTypes::AudioFiles(nm) => {
                    if !assets.contains(nm.as_str()) {
                        let missing = nm.clone();
                        proof {
                            assert(iv[i as int] == ItemModel::Audio(nm@));
                            assert(first_missing(rem, *assets) == Option::Some(nm@));
                        }
                        return Err(PlaylistRejection::MissingAsset(missing));
                    }
                    proof {
                        assert(iv[i as int] == ItemModel::Audio(nm@));
                    }
                },
                PlaylistTypes::Pause(_) => {},
            }
            i = i + 1;
        }
        proof {
            assert(iv.skip(n as int) =~= Seq::<ItemModel>::empty());
            assert(first_missing(iv, *assets) is None);
            lemma_first_missing_none(iv, *assets);
        }
        // accepted: insert, replacing any playlist of the same name
        self.put(Playlist { name, items });
        Ok(())
    }

    /// Inserts a non-empty playlist, replacing any entry of the same
    /// name.
    fn put(&mut self, playlist: Playlist)
        requires
            old(self).inv(),
            playlist@.items.len() > 0,
        ensures
            final(self).inv(),
            final(self).contains_name(playlist@.name),
            final(self).playlist_named(playlist@.name) == playlist@,
            forall|n: Seq<char>|
                n != playlist@.name ==> #[trigger] final(self).contains_name(n) == old(
                    self).contains_name(n),
            forall|n: Seq<char>|
                n != playlist@.name && old(self).contains_name(n) ==> #[trigger] final(
                    self).playlist_named(n) == old(self).playlist_named(n),
            final(self).entries().len() == if old(self).contains_name(playlist@.name) {
                old(self).entries().len()
            } else {
                old(self).entries().len() + 1
            },
    {
        let n = self.playlists.len();
        let mut i: usize = 0;
        while i < n
            invariant
                0 <= i <= n,
                n == self.entries().len(),
                self.inv(),
                self == old(self),
                playlist@.items.len() > 0,
                forall|k: int| 0 <= k < i ==> #[trigger] self.entries()[k].name != playlist@.name,
            decreases n - i,
        {
            if crate::text::str_eq(self.playlists[i].name.as_str(), playlist.name.as_str()) {
                proof {
                    assert(self.entries()[i as int].name == playlist@.name);
                }
                self.playlists.set(i, playlist);
                proof {
                    let new_entries = self.entries();
                    let old_entries = old(self).entries();
                    assert(new_entries =~= old_entries.update(i as int, playlist@));
                    assert(forall|k: int|
                        0 <= k < new_entries.len() ==> #[trigger] new_entries[k].name
                            == old_entries[k].name);
                    assert forall|k: int|
                        0 <= k < new_entries.len() implies #[trigger] new_entries[k].items.len()
                        > 0 by {
                        assert(old_entries[k].items.len() > 0);
                    }
                    assert(self.inv());
                    assert(new_entries[i as int] == playlist@);
                    assert(self.contains_name(playlist@.name) && self.playlist_named(
                        playlist@.name) == playlist@);
                    assert forall|m: Seq<char>| m != playlist@.name implies #[trigger] self
                        .contains_name(m) == old(self).contains_name(m) by {
                        if old(self).contains_name(m) {
                            let k = choose|k: int|
                                0 <= k < old_entries.len() && #[trigger] old_entries[k].name == m;
                            assert(new_entries[k].name == m);
                        }
                        if self.contains_name(m) {
                            let k = choose|k: int|
                                0 <= k < new_entries.len() && #[trigger] new_entries[k].name == m;
                            assert(old_entries[k].name == m);
                        }
                    }
                    assert forall|m: Seq<char>|
                        m != playlist@.name && old(self).contains_name(m) implies #[trigger] self
                        .playlist_named(m) == old(self).playlist_named(m) by {
                        let k = choose|k: int|
                            0 <= k < new_entries.len() && #[trigger] new_entries[k].name == m;
                        let k2 = choose|k2: int|
                            0 <= k2 < old_entries.len() && #[trigger] old_entries[k2].name == m;
                        assert(new_entries[k2].name == m);
                        assert(old_entries[k].name == m);
                        assert(k == k2);
                    }
                }
                return ;
            }
            proof {
                assert(self.entries()[i as int].name != playlist@.name);
            }
            i = i + 1;
        }
        self.playlists.push(playlist);
        proof {
            let new_entries = self.entries();
            let old_entries = old(self).entries();
            let last = new_entries.len() - 1;
            assert(new_entries =~= old_entries.push(playlist@));
            assert(new_entries[last] == playlist@);
            assert(forall|k: int|
                0 <= k < last ==> #[trigger] old_entries[k].name != playlist@.name);
            assert forall|k: int|
                0 <= k < new_entries.len() implies #[trigger] new_entries[k].items.len() > 0 by {
                if k < last {
                    assert(old_entries[k].items.len() > 0);
                }
            }
            assert(self.inv());
            assert forall|k: int|
                0 <= k < new_entries.len() && #[trigger] new_entries[k].name == playlist@.name
                implies k == last by {}
            assert(self.contains_name(playlist@.name) && self.playlist_named(playlist@.name)
                == playlist@);
            assert forall|m: Seq<char>| m != playlist@.name implies #[trigger] self.contains_name(
                m) == old(self).contains_name(m) by {
                if old(self).contains_name(m) {
                    let k = choose|k: int|
                        0 <= k < old_entries.len() && #[trigger] old_entries[k].name == m;
                    assert(new_entries[k].name == m);
                }
                if self.contains_name(m) {
                    let k = choose|k: int|
                        0 <= k < new_entries.len() && #[trigger] new_entries[k].name == m;
                    assert(k < old_entries.len());
                    assert(old_entries[k].name == m);
                }
            }
            assert forall|m: Seq<char>|
                m != playlist@.name && old(self).contains_name(m) implies #[trigger] self
                .playlist_named(m) == old(self).playlist_named(m) by {
                let k = choose|k: int|
                    0 <= k < new_entries.len() && #[trigger] new_entries[k].name == m;
                let k2 = choose|k2: int|
                    0 <= k2 < old_entries.len() && #[trigger] old_entries[k2].name == m;
                assert(new_entries[k2].name == m);
                assert(k < last);
                assert(old_entries[k].name == m);
                assert(k == k2);
            }
        }
    }

    /// The single swap of a hot reload: the freshly built store replaces
    /// the active one whole. Callers hold their lock only around this
    /// assignment.
    pub fn install(&mut self, newer: Playlists)
        ensures
            *final(self) == newer,
    {
        *self = newer;
    }
}

/// One file of the playlists folder, as handed in by the caller: its
/// bare file name and its full text.
pub struct PlaylistFile {
    pub name: String,
    pub contents: String,
}

pub open spec fn txt_suffix() -> Seq<char> {
    seq!['.', 't', 'x', 't']
}

/// Builds a fresh playlist store from the files of the playlists folder.
///
/// Only `.txt` files count. Each is parsed and validated against the
/// asset store; a file that is empty after parsing or references a
/// missing asset is skipped without affecting the others.
pub fn load_and_validate_playlists(files: &Vec<PlaylistFile>, assets: &AudioFiles) -> (r:
    Playlists)
    requires
        assets.inv(),
    ensures
        r.inv(),
        forall|i: int|
            {
                let name = #[trigger] files@[i].name@;
                let its = parse_items(files@[i].contents@);
                0 <= i < files@.len() && has_suffix(name, txt_suffix()) && its.len() > 0
                    && items_resolve(its, *assets) ==> r.contains_name(name)
            },
        forall|n: Seq<char>|
            #[trigger] r.contains_name(n) ==> has_suffix(n, txt_suffix()) && exists|i: int|
                0 <= i < files@.len() && #[trigger] files@[i].name@ == n && r.playlist_named(
                    n).items == parse_items(files@[i].contents@) && items_resolve(
                    parse_items(files@[i].contents@), *assets),
{
    let mut store = Playlists::new();
    let n = files.len();
    let mut idx: usize = 0;
    proof {
        reveal_strlit(".txt");
        assert(".txt"@ =~= txt_suffix());
    }
    while idx < n
        invariant
            0 <= idx <= n,
            n == files@.len(),
            assets.inv(),
            store.inv(),
            forall|i: int|
                {
                    let name = #[trigger] files@[i].name@;
                    let its = parse_items(files@[i].contents@);
                    0 <= i < idx && has_suffix(name, txt_suffix()) && its.len() > 0
                        && items_resolve(its, *assets) ==> store.contains_name(name)
                },
            forall|m: Seq<char>|
                #[trigger] store.contains_name(m) ==> has_suffix(m, txt_suffix()) && exists|i: int|
                    0 <= i < idx && #[trigger] files@[i].name@ == m && store.playlist_named(
                        m).items == parse_items(files@[i].contents@) && items_resolve(
                        parse_items(files@[i].contents@), *assets),
        decreases n - idx,
    {
        let file = &files[idx];
        proof {
            reveal_strlit(".txt");
            assert(".txt"@ =~= txt_suffix());
        }
        if crate::text::ends_with(file.name.as_str(), ".txt") {
            let items = parse(file.contents.as_str());
            let ghost before = store;
            let ghost fname = file.name@;
            let ghost its = parse_items(file.contents@);
            let outcome = store.validate_and_register(file.name.clone(), items, assets);
            proof {
                if outcome is Err {
                    assert(store == before);
                    lemma_first_missing_none(its, *assets);
                } else {
                    assert(store.playlist_named(fname).items == its);
                }
                assert forall|m: Seq<char>| #[trigger] store.contains_name(m) implies has_suffix(
                    m, txt_suffix()) && exists|i: int|
                    0 <= i < idx + 1 && #[trigger] files@[i].name@ == m && store.playlist_named(
                        m).items == parse_items(files@[i].contents@) && items_resolve(
                        parse_items(files@[i].contents@), *assets) by {
                    if outcome is Ok && m == fname {
                        assert(files@[idx as int].name@ == m);
                        assert(store.playlist_named(m).items == parse_items(
                            files@[idx as int].contents@));
                    } else {
                        assert(before.contains_name(m));
                        let i = choose|i: int|
                            0 <= i < idx && #[trigger] files@[i].name@ == m
                                && before.playlist_named(m).items == parse_items(
                                files@[i].contents@) && items_resolve(
                                parse_items(files@[i].contents@), *assets);
                        assert(files@[i].name@ == m && store.playlist_named(m).items
                            == parse_items(files@[i].contents@));
                    }
                }
            }
        }
        idx = idx + 1;
    }
    store
}

// ---------------------------------------------------------------------------
// Content-addressed creation
// ---------------------------------------------------------------------------

/// The hex form of the SHA-256 digest of a text, as the outside hashing
/// routine computes it from the text's bytes.
pub uninterp spec fn sha256_hex_of(s: Seq<char>) -> Seq<char>;

/// Relies on sha256::digest: the SHA-256 digest of the string's bytes,
/// hex encoded as 64 lowercase hex characters; a function of the input
/// alone.
#[verifier::external_body]
fn sha256_hex(s: &str) -> (r: String)
    ensures
        r@ == sha256_hex_of(s@),
        r@.len() == 64,
{
    sha256::digest(s)
}

/// The content-derived identifier of an item sequence: the first 8 hex
/// characters of the digest of its serialized text.
pub open spec fn playlist_id_of(items: Seq<ItemModel>) -> Seq<char> {
    sha256_hex_of(serialize_items(items)).take(8)
}

/// A freshly created playlist: its content-derived id and its body in
/// the playlist text format.
pub struct CreatedPlaylist {
    pub id: String,
    pub body: String,
}

/// Serializes `items` and derives the playlist's content-addressed id.
///
/// The id is a function of the serialized body alone, so regenerating
/// identical content always yields the same id (dedup by content).
pub fn create_from_items(items: &Vec<PlaylistTypes>) -> (r: CreatedPlaylist)
    ensures
        r.body@ == serialize_items(items_view(items@)),
        r.id@ == playlist_id_of(items_view(items@)),
        r.id@.len() == 8,
{
    let body = serialize(items);
    let hash = sha256_hex(body.as_str());
    let id = hash.substring_char(0, 8).to_owned();
    proof {
        assert(id@ =~= sha256_hex_of(body@).take(8));
    }
    CreatedPlaylist { id, body }
}

/// Content addressing is deterministic: two identical item sequences
/// always serialize to the same body and receive the same id.
pub proof fn lemma_create_from_items_deterministic(a: Seq<ItemModel>, b: Seq<ItemModel>)
    requires
        a == b,
    ensures
        serialize_items(a) == serialize_items(b),
        playlist_id_of(a) == playlist_id_of(b),
{
}

// ---------------------------------------------------------------------------
// Durations and the generated file name
// ---------------------------------------------------------------------------

/// How long one item plays, in milliseconds: the stored duration of the
/// referenced asset, or the pause's own length.
pub open spec fn item_duration_ms(it: ItemModel, assets: AudioFiles) -> int {
    match it {
        ItemModel::Audio(name) => assets.asset_named(name).duration_ms as int,
        ItemModel::Pause(d) => d as int,
    }
}

/// The total playing time of an item sequence, in milliseconds.
pub open spec fn total_duration_of(items: Seq<ItemModel>, assets: AudioFiles) -> int
    decreases items.len(),
{
    if items.len() == 0 {
        0
    } else {
        total_duration_of(items.drop_last(), assets) + item_duration_ms(items.last(), assets)
    }
}

/// Sums the playing time of a queue whose asset references all resolve.
pub fn total_duration_ms(items: &Vec<PlaylistTypes>, assets: &AudioFiles) -> (r: u128)
    requires
        assets.inv(),
        items_resolve(items_view(items@), *assets),
    ensures
        r == total_duration_of(items_view(items@), *assets),
{
    let ghost iv = items_view(items@);
    let mut acc: u128 = 0;
    let mut i: usize = 0;
    let n = items.len();
    proof {
        assert(iv.take(0) =~= Seq::<ItemModel>::empty());
    }
    while i < n
        invariant
            0 <= i <= n,
            n == iv.len(),
            iv == items_view(items@),
            assets.inv(),
            items_resolve(iv, *assets),
            acc == total_duration_of(iv.take(i as int), *assets),
            acc <= (i as int) * (u64::MAX as int),
        decreases n - i,
    {
        let d: u64 = match &items[i] {
            PlaylistTypes::AudioFiles(nm) => {
                proof {
                    assert(iv[i as int] == ItemModel::Audio(nm@));
                }
                let asset = assets.lookup(nm.as_str());
                match asset {
                    Some(a) => a.duration_ms,
                    None => 0,
                }
            },
            PlaylistTypes::Pause(ms) => *ms as u64,
        };
        proof {
            assert(d as int == item_duration_ms(iv[i as int], *assets));
            let p1 = i as int + 1;
            assert(p1 * (u64::MAX as int) < u128::MAX as int) by (nonlinear_arith)
                requires
                    0 < p1 <= 0x1_0000_0000_0000_0000int,
            {}
            assert(acc + d <= p1 * (u64::MAX as int));
            assert(iv.take(i + 1).drop_last() =~= iv.take(i as int));
            assert(iv.take(i + 1).last() == iv[i as int]);
        }
        acc = acc + d as u128;
        i = i + 1;
    }
    proof {
        assert(iv.take(n as int) =~= iv);
    }
    acc
}

/// The file name a generated playlist is persisted under: its id, its
/// total duration in whole seconds, and its item count.
pub open spec fn playlist_file_name_of(id: Seq<char>, total_ms: int, count: int) -> Seq<char> {
    "playlist_"@ + id + "_"@ + crate::text::decimal_digits((total_ms / 1000) as nat) + "s_"@
        + crate::text::decimal_digits(count as nat) + "count.txt"@
}

/// Builds the persisted file name of a generated playlist.
pub fn playlist_file_name(id: &str, total_ms: u128, count: usize) -> (r: String)
    ensures
        r@ == playlist_file_name_of(id@, total_ms as int, count as int),
{
    let mut r = "playlist_".to_owned();
    r.append(id);
    r.append("_");
    let secs = crate::text::u128_to_string(total_ms / 1000);
    r.append(secs.as_str());
    r.append("s_");
    let c = crate::text::u128_to_string(count as u128);
    r.append(c.as_str());
    r.append("count.txt");
    proof {
        assert(r@ =~= playlist_file_name_of(id@, total_ms as int, count as int));
    }
    r
}

} // verus!

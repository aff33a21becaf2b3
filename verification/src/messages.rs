//! The user-visible message texts of the HTTP surface, and the listing
//! of what the server offers.

use vstd::prelude::*;

use crate::text::decimal_digits;
use crate::text::u128_to_string;

verus! {

/// The 404 body for an asset that is not in the store.
pub fn asset_not_found_message(name: &str) -> (r: String)
    ensures
        r@ == "Audio file "@ + name@ + " not found"@,
{
    let mut r = "Audio file ".to_owned();
    r.append(name);
    r.append(" not found");
    r
}

/// The 404 body when the asset store is empty.
pub fn no_audio_files_message() -> (r: String)
    ensures
        r@ == "No audio files found"@,
{
    "No audio files found".to_owned()
}

/// The 404 body for an unknown playlist name.
pub fn playlist_not_found_message() -> (r: String)
    ensures
        r@ == "Playlist file name not found"@,
{
    "Playlist file name not found".to_owned()
}

/// The 404 body for a playlist with no items.
pub fn playlist_empty_message() -> (r: String)
    ensures
        r@ == "Playlist is empty"@,
{
    "Playlist is empty".to_owned()
}

/// The success body of a single play: when it started and what played.
pub fn played_message(started_ns: u128, label: &str) -> (r: String)
    ensures
        r@ == "At "@ + decimal_digits(started_ns as nat) + " played "@ + label@,
{
    let mut r = "At ".to_owned();
    let digits = u128_to_string(started_ns);
    r.append(digits.as_str());
    r.append(" played ");
    r.append(label);
    r
}

/// A request parameter left at zero falls back to its documented
/// default.
pub fn effective_count(requested: u32, default_count: u32) -> (r: u32)
    ensures
        r == if requested == 0 {
            default_count
        } else {
            requested
        },
{
    if requested == 0 {
        default_count
    } else {
        requested
    }
}

/// One indented listing row per name.
pub open spec fn listing_rows(names: Seq<Seq<char>>) -> Seq<char>
    decreases names.len(),
{
    if names.len() == 0 {
        Seq::empty()
    } else {
        listing_rows(names.drop_last()) + "\t\t\t\t"@ + names.last() + "\n"@
    }
}

/// The body of the `/list` route: the available audio files and
/// playlists with their counts, one indented name per row.
pub open spec fn listing_text(audio: Seq<Seq<char>>, lists: Seq<Seq<char>>) -> Seq<char> {
    "\n\tAudio files ("@ + decimal_digits(audio.len()) + "):\n\n"@ + listing_rows(audio)
        + "\n\n\n\n\tPlaylists ("@ + decimal_digits(lists.len()) + "):\n\n"@ + listing_rows(lists)
        + "\n\n"@
}

fn append_rows(r: &mut String, names: &Vec<String>)
    ensures
        final(r)@ == old(r)@ + listing_rows(names@.map_values(|s: String| s@)),
{
    let ghost nv = names@.map_values(|s: String| s@);
    let mut i: usize = 0;
    proof {
        assert(old(r)@ + listing_rows(nv.take(0)) =~= old(r)@);
    }
    while i < names.len()
        invariant
            0 <= i <= names@.len(),
            nv == names@.map_values(|s: String| s@),
            r@ == old(r)@ + listing_rows(nv.take(i as int)),
        decreases names@.len() - i,
    {
        r.append("\t\t\t\t");
        r.append(names[i].as_str());
        r.append("\n");
        proof {
            assert(nv.take(i + 1).drop_last() =~= nv.take(i as int));
            assert(nv.take(i + 1).last() == nv[i as int]);
            assert(r@ =~= old(r)@ + listing_rows(nv.take(i + 1)));
        }
        i = i + 1;
    }
    proof {
        assert(nv.take(names@.len() as int) =~= nv);
    }
}

/// Builds the `/list` body from the sorted audio and playlist names.
pub fn format_listing(audio_names: &Vec<String>, playlist_names: &Vec<String>) -> (r: String)
    ensures
        r@ == listing_text(
            audio_names@.map_values(|s: String| s@),
            playlist_names@.map_values(|s: String| s@),
        ),
{
    let ghost av = audio_names@.map_values(|s: String| s@);
    let ghost pv = playlist_names@.map_values(|s: String| s@);
    let mut r = "\n\tAudio files (".to_owned();
    let count = u128_to_string(audio_names.len() as u128);
    r.append(count.as_str());
    r.append("):\n\n");
    append_rows(&mut r, audio_names);
    r.append("\n\n\n\n\tPlaylists (");
    let count = u128_to_string(playlist_names.len() as u128);
    r.append(count.as_str());
    r.append("):\n\n");
    append_rows(&mut r, playlist_names);
    r.append("\n\n");
    proof {
        assert(r@ =~= listing_text(av, pv));
    }
    r
}

} // verus!

//! Playlist items and the line-oriented playlist grammar.
//!
//! A playlist text is newline-separated. Blank lines are ignored. A line
//! of the exact shape `pause_<integer>ms` (with the integer in range for
//! a `u32`) is a timed pause; any other non-blank line is the literal
//! name of an audio asset. Lines are trimmed of blank padding before
//! classification, and parsing preserves order.

use vstd::prelude::*;

use crate::text::{
    all_digits, decimal_digits, digits_value, is_digit, is_space_char, lemma_decimal_digits_value,
    lemma_trim_of_clean, lemma_trimmed_fixed, parse_u32, trim_line, trimmed, u128_to_string,
};

verus! {

/// One scheduling unit of a playlist: a named audio asset or a timed
/// pause in milliseconds.
#[derive(Clone)]
pub enum PlaylistTypes {
    AudioFiles(String),
    Pause(u32),
}

/// The mathematical image of a playlist item.
pub enum ItemModel {
    Audio(Seq<char>),
    Pause(u32),
}

impl View for PlaylistTypes {
    type V = ItemModel;

    open spec fn view(&self) -> ItemModel {
        match self {
            PlaylistTypes::AudioFiles(name) => ItemModel::Audio(name@),
            PlaylistTypes::Pause(d) => ItemModel::Pause(*d),
        }
    }
}

/// The image of a whole item vector.
pub open spec fn items_view(s: Seq<PlaylistTypes>) -> Seq<ItemModel> {
    s.map_values(|it: PlaylistTypes| it@)
}

// ---------------------------------------------------------------------------
// The grammar, one line at a time
// ---------------------------------------------------------------------------

pub open spec fn pause_head() -> Seq<char> {
    seq!['p', 'a', 'u', 's', 'e', '_']
}

pub open spec fn pause_tail() -> Seq<char> {
    seq!['m', 's']
}

/// Whether a trimmed line is a pause directive: `pause_<digits>ms` with a
/// non-empty digit run whose value fits in a `u32`.
pub open spec fn is_pause_line(line: Seq<char>) -> bool {
    &&& line.len() >= 9
    &&& line.subrange(0, 6) == pause_head()
    &&& line.subrange(line.len() - 2, line.len() as int) == pause_tail()
    &&& all_digits(line.subrange(6, line.len() - 2))
    &&& digits_value(line.subrange(6, line.len() - 2)) <= u32::MAX
}

pub open spec fn pause_line_value(line: Seq<char>) -> nat {
    digits_value(line.subrange(6, line.len() - 2))
}

/// The items contributed by one trimmed line: nothing for a blank line,
/// a pause for a pause directive, an asset reference otherwise.
pub open spec fn line_items(line: Seq<char>) -> Seq<ItemModel> {
    if line.len() == 0 {
        seq![]
    } else if is_pause_line(line) {
        seq![ItemModel::Pause(pause_line_value(line) as u32)]
    } else {
        seq![ItemModel::Audio(line)]
    }
}

/// Index of the first newline in `s`, or `-1` if there is none.
pub open spec fn first_newline(s: Seq<char>) -> int
    decreases s.len(),
{
    if s.len() == 0 {
        -1
    } else if s[0] == '\n' {
        0
    } else {
        let r = first_newline(s.drop_first());
        if r < 0 {
            -1
        } else {
            r + 1
        }
    }
}

pub proof fn lemma_first_newline(s: Seq<char>)
    ensures
        -1 <= first_newline(s) < s.len(),
        first_newline(s) >= 0 ==> s[first_newline(s)] == '\n',
        forall|j: int| 0 <= j < first_newline(s) ==> s[j] != '\n',
        first_newline(s) == -1 ==> forall|j: int| 0 <= j < s.len() ==> s[j] != '\n',
    decreases s.len(),
{
    if s.len() > 0 && s[0] != '\n' {
        lemma_first_newline(s.drop_first());
        assert forall|j: int| 0 <= j < first_newline(s) implies s[j] != '\n' by {
            if j > 0 {
                assert(s.drop_first()[j - 1] == s[j]);
            }
        }
        if first_newline(s) == -1 {
            assert forall|j: int| 0 <= j < s.len() implies s[j] != '\n' by {
                if j > 0 {
                    assert(s.drop_first()[j - 1] == s[j]);
                }
            }
        }
    }
}

/// A string with no newline at all has `first_newline == -1`.
proof fn lemma_first_newline_none(s: Seq<char>)
    requires
        forall|j: int| 0 <= j < s.len() ==> s[j] != '\n',
    ensures
        first_newline(s) == -1,
    decreases s.len(),
{
    if s.len() > 0 {
        assert(forall|j: int|
            0 <= j < s.drop_first().len() ==> #[trigger] s.drop_first()[j] == s[j + 1]);
        lemma_first_newline_none(s.drop_first());
    }
}

/// In `a + '\n' + b` with `a` newline-free, the first newline sits right
/// after `a`.
proof fn lemma_first_newline_concat(a: Seq<char>, b: Seq<char>)
    requires
        forall|j: int| 0 <= j < a.len() ==> a[j] != '\n',
    ensures
        first_newline(a + seq!['\n'] + b) == a.len(),
    decreases a.len(),
{
    let s = a + seq!['\n'] + b;
    if a.len() == 0 {
        assert(s[0] == '\n');
    } else {
        assert(s[0] == a[0]);
        lemma_first_newline_concat(a.drop_first(), b);
        assert(s.drop_first() =~= a.drop_first() + seq!['\n'] + b);
    }
}

/// The ordered item sequence denoted by a playlist text.
pub open spec fn parse_items(s: Seq<char>) -> Seq<ItemModel>
    decreases s.len(),
{
    let i = first_newline(s);
    if 0 <= i < s.len() {
        line_items(trimmed(s.take(i))) + parse_items(s.skip(i + 1))
    } else {
        line_items(trimmed(s))
    }
}

// ---------------------------------------------------------------------------
// Serialization
// ---------------------------------------------------------------------------

/// The line that stands for one item in the playlist text format; it is
/// also the item's label in session logs.
pub open spec fn item_line(it: ItemModel) -> Seq<char> {
    match it {
        ItemModel::Audio(name) => name,
        ItemModel::Pause(d) => pause_head() + decimal_digits(d as nat) + pause_tail(),
    }
}

/// The playlist text that stands for an item sequence: one line per item,
/// joined by single newlines.
pub open spec fn serialize_items(items: Seq<ItemModel>) -> Seq<char>
    decreases items.len(),
{
    if items.len() == 0 {
        seq![]
    } else if items.len() == 1 {
        item_line(items[0])
    } else {
        item_line(items[0]) + seq!['\n'] + serialize_items(items.drop_first())
    }
}

pub proof fn lemma_serialize_push(items: Seq<ItemModel>, it: ItemModel)
    ensures
        serialize_items(items.push(it)) == if items.len() == 0 {
            item_line(it)
        } else {
            serialize_items(items) + seq!['\n'] + item_line(it)
        },
    decreases items.len(),
{
    let p = items.push(it);
    if items.len() == 0 {
        assert(p.len() == 1);
        assert(p[0] == it);
    } else if items.len() == 1 {
        assert(p.drop_first() =~= seq![it]);
        assert(serialize_items(p.drop_first()) == item_line(it));
        assert(serialize_items(p) =~= serialize_items(items) + seq!['\n'] + item_line(it));
    } else {
        lemma_serialize_push(items.drop_first(), it);
        assert(p.drop_first() =~= items.drop_first().push(it));
        assert(p[0] == items[0]);
        assert(serialize_items(p) =~= serialize_items(items) + seq!['\n'] + item_line(it));
    }
}

// ---------------------------------------------------------------------------
// Round trip: parse after serialize after parse is parse
// ---------------------------------------------------------------------------

pub open spec fn no_newline(s: Seq<char>) -> bool {
    forall|i: int| 0 <= i < s.len() ==> s[i] != '\n'
}

/// An item that reparses to itself from its own line: every item a parse
/// produces has this shape.
pub open spec fn canonical_item(it: ItemModel) -> bool {
    match it {
        ItemModel::Audio(name) => {
            &&& name.len() > 0
            &&& trimmed(name) == name
            &&& no_newline(name)
            &&& !is_pause_line(name)
        },
        ItemModel::Pause(_) => true,
    }
}

proof fn lemma_trim_start_no_newline(s: Seq<char>)
    requires
        no_newline(s),
    ensures
        no_newline(crate::text::trim_start(s)),
    decreases s.len(),
{
    if s.len() > 0 && is_space_char(s[0]) {
        assert(forall|j: int|
            0 <= j < s.drop_first().len() ==> #[trigger] s.drop_first()[j] == s[j + 1]);
        lemma_trim_start_no_newline(s.drop_first());
    }
}

proof fn lemma_trim_end_no_newline(s: Seq<char>)
    requires
        no_newline(s),
    ensures
        no_newline(crate::text::trim_end(s)),
    decreases s.len(),
{
    if s.len() > 0 && is_space_char(s.last()) {
        lemma_trim_end_no_newline(s.drop_last());
    }
}

proof fn lemma_trimmed_no_newline(s: Seq<char>)
    requires
        no_newline(s),
    ensures
        no_newline(trimmed(s)),
{
    lemma_trim_start_no_newline(s);
    lemma_trim_end_no_newline(crate::text::trim_start(s));
}

/// Every item produced by a parse is canonical.
pub proof fn lemma_parse_canonical(s: Seq<char>)
    ensures
        forall|i: int|
            0 <= i < parse_items(s).len() ==> #[trigger] canonical_item(parse_items(s)[i]),
    decreases s.len(),
{
    lemma_first_newline(s);
    let i = first_newline(s);
    if 0 <= i < s.len() {
        let line = s.take(i);
        assert(no_newline(line)) by {
            assert(forall|j: int| 0 <= j < line.len() ==> line[j] == s[j]);
        }
        lemma_trimmed_no_newline(line);
        lemma_trimmed_fixed(line);
        lemma_parse_canonical(s.skip(i + 1));
        let li = line_items(trimmed(line));
        let rest = parse_items(s.skip(i + 1));
        assert(parse_items(s) == li + rest);
        assert forall|k: int|
            0 <= k < parse_items(s).len() implies #[trigger] canonical_item(
            parse_items(s)[k],
        ) by {
            if k < li.len() {
                assert(parse_items(s)[k] == li[k]);
                assert(li[k] == ItemModel::Audio(trimmed(line)) || canonical_item(li[k]));
            } else {
                assert(parse_items(s)[k] == rest[k - li.len()]);
                assert(canonical_item(rest[k - li.len()]));
            }
        }
    } else {
        let line = s;
        assert(no_newline(line));
        lemma_trimmed_no_newline(line);
        lemma_trimmed_fixed(line);
        let li = line_items(trimmed(line));
        assert forall|k: int|
            0 <= k < parse_items(s).len() implies #[trigger] canonical_item(
            parse_items(s)[k],
        ) by {
            assert(parse_items(s)[k] == li[k]);
        }
    }
}

/// The serialized line of a canonical item is free of newlines and blank
/// padding, and reparses to exactly that item.
proof fn lemma_item_line_clean(it: ItemModel)
    requires
        canonical_item(it),
    ensures
        no_newline(item_line(it)),
        trimmed(item_line(it)) == item_line(it),
        line_items(item_line(it)) =~= seq![it],
{
    match it {
        ItemModel::Audio(name) => {
            assert(line_items(item_line(it)) =~= seq![it]);
        },
        ItemModel::Pause(d) => {
            let line = item_line(it);
            let digits = decimal_digits(d as nat);
            lemma_decimal_digits_value(d as nat);
            assert(no_newline(line)) by {
                assert forall|j: int| 0 <= j < line.len() implies line[j] != '\n' by {
                    if j < 6 {
                        assert(line[j] == pause_head()[j]);
                    } else if j < 6 + digits.len() {
                        assert(line[j] == digits[j - 6]);
                        assert(is_digit(digits[j - 6]));
                    } else {
                        assert(line[j] == pause_tail()[j - 6 - digits.len()]);
                    }
                }
            }
            assert(line[0] == 'p');
            assert(line.last() == 's');
            lemma_trim_of_clean(line);
            assert(is_pause_line(line)) by {
                assert(line.subrange(0, 6) =~= pause_head());
                assert(line.subrange(line.len() - 2, line.len() as int) =~= pause_tail());
                assert(line.subrange(6, line.len() - 2) =~= digits);
            }
            assert(pause_line_value(line) == d as nat) by {
                assert(line.subrange(6, line.len() - 2) =~= digits);
            }
            assert(line_items(line) =~= seq![it]);
        },
    }
}

/// Parsing the serialization of canonical items returns exactly those
/// items.
pub proof fn lemma_parse_of_serialize(items: Seq<ItemModel>)
    requires
        forall|i: int| 0 <= i < items.len() ==> #[trigger] canonical_item(items[i]),
    ensures
        parse_items(serialize_items(items)) =~= items,
    decreases items.len(),
{
    if items.len() == 0 {
        let s = serialize_items(items);
        assert(s.len() == 0);
        assert(trimmed(s) =~= s) by {
            lemma_trim_of_clean(s);
        }
    } else if items.len() == 1 {
        let line = item_line(items[0]);
        lemma_item_line_clean(items[0]);
        lemma_first_newline_none(line);
        assert(parse_items(line) =~= line_items(trimmed(line)));
        assert(parse_items(line) =~= seq![items[0]]);
    } else {
        let line = item_line(items[0]);
        let rest = serialize_items(items.drop_first());
        let s = serialize_items(items);
        assert(s =~= line + seq!['\n'] + rest);
        lemma_item_line_clean(items[0]);
        lemma_first_newline_concat(line, rest);
        assert(s.take(line.len() as int) =~= line);
        assert(s.skip(line.len() as int + 1) =~= rest);
        assert(forall|i: int|
            0 <= i < items.drop_first().len() ==> #[trigger] canonical_item(
                items.drop_first()[i],
            ));
        lemma_parse_of_serialize(items.drop_first());
        assert(parse_items(s) =~= line_items(trimmed(line)) + parse_items(rest));
        assert(parse_items(s) =~= seq![items[0]] + items.drop_first());
    }
}

/// Round trip: for any playlist text, serializing the parsed sequence and
/// reparsing it yields the same sequence again (blank lines collapse on
/// the first parse and stay collapsed).
pub proof fn lemma_parse_serialize_roundtrip(t: Seq<char>)
    ensures
        parse_items(serialize_items(parse_items(t))) == parse_items(t),
{
    lemma_parse_canonical(t);
    lemma_parse_of_serialize(parse_items(t));
}

// ---------------------------------------------------------------------------
// Executable parser and serializer
// ---------------------------------------------------------------------------

/// Reads a trimmed line as a pause directive, if it is one.
fn read_pause_line(t: &str) -> (r: Option<u32>)
    ensures
        match r {
            Some(v) => is_pause_line(t@) && pause_line_value(t@) == v as nat,
            None => !is_pause_line(t@),
        },
{
    let len: usize = t.unicode_len();
    if len < 9 {
        return None;
    }
    let head_ok = t.get_char(0) == 'p' && t.get_char(1) == 'a' && t.get_char(2) == 'u'
        && t.get_char(3) == 's' && t.get_char(4) == 'e' && t.get_char(5) == '_';
    if !head_ok {
        proof {
            if is_pause_line(t@) {
                assert(forall|j: int|
                    0 <= j < 6 ==> #[trigger] t@.subrange(0, 6)[j] == t@[j]);
            }
        }
        return None;
    }
    let tail_ok = t.get_char(len - 2) == 'm' && t.get_char(len - 1) == 's';
    if !tail_ok {
        proof {
            if is_pause_line(t@) {
                let tl = t@.subrange(t@.len() - 2, t@.len() as int);
                assert(tl[0] == t@[t@.len() - 2]);
                assert(tl[1] == t@[t@.len() - 1]);
            }
        }
        return None;
    }
    let mid = t.substring_char(6, len - 2);
    let parsed = parse_u32(mid);
    proof {
        assert(mid@ == t@.subrange(6, t@.len() - 2));
        if parsed is Some {
            assert(t@.subrange(0, 6) =~= pause_head());
            assert(t@.subrange(t@.len() - 2, t@.len() as int) =~= pause_tail());
        }
    }
    parsed
}

/// Parses a playlist text into its ordered item sequence, ignoring blank
/// lines; this is total over all texts.
pub fn parse(text: &str) -> (items: Vec<PlaylistTypes>)
    ensures
        items_view(items@) == parse_items(text@),
{
    let len: usize = text.unicode_len();
    let mut items: Vec<PlaylistTypes> = Vec::new();
    let mut start: usize = 0;
    proof {
        assert(items_view(items@) =~= Seq::<ItemModel>::empty());
        assert(text@.skip(0) =~= text@);
    }
    loop
        invariant_except_break
            start <= len,
            len == text@.len(),
            items_view(items@) + parse_items(text@.skip(start as int)) =~= parse_items(text@),
        ensures
            items_view(items@) =~= parse_items(text@),
        decreases len - start,
    {
        let ghost remainder = text@.skip(start as int);
        // find the end of the current line
        let mut j: usize = start;
        while j < len && text.get_char(j) != '\n'
            invariant
                start <= j <= len,
                len == text@.len(),
                forall|k: int| start <= k < j ==> text@[k] != '\n',
            decreases len - j,
        {
            j = j + 1;
        }
        let line = text.substring_char(start, j);
        let t = trim_line(line);
        proof {
            assert(line@ == text@.subrange(start as int, j as int));
            assert(forall|k: int|
                0 <= k < remainder.len() ==> #[trigger] remainder[k] == text@[start + k]);
            if j < len {
                assert(remainder[j - start] == '\n');
                assert(forall|k: int| 0 <= k < j - start ==> #[trigger] remainder[k] != '\n');
                lemma_first_newline(remainder);
                if first_newline(remainder) < j - start {
                    let f = first_newline(remainder);
                    assert(remainder[f] != '\n');
                }
                assert(first_newline(remainder) == j - start);
                assert(remainder.take(j - start) =~= line@);
                assert(remainder.skip(j - start + 1) =~= text@.skip(j + 1));
                assert(parse_items(remainder) == line_items(trimmed(line@)) + parse_items(
                    text@.skip(j + 1),
                ));
            } else {
                assert(forall|k: int| 0 <= k < remainder.len() ==> #[trigger] remainder[k] != '\n');
                lemma_first_newline_none(remainder);
                assert(remainder =~= line@);
                assert(parse_items(remainder) == line_items(trimmed(line@)));
            }
        }
        let ghost items_before = items_view(items@);
        let tlen: usize = t.unicode_len();
        if tlen > 0 {
            match read_pause_line(t) {
                Some(v) => {
                    items.push(PlaylistTypes::Pause(v));
                },
                None => {
                    items.push(PlaylistTypes::AudioFiles(t.to_owned()));
                },
            }
        }
        proof {
            assert(items_view(items@) =~= items_before + line_items(trimmed(line@)));
        }
        if j == len {
            break;
        }
        start = j + 1;
    }
    items
}

/// Builds the playlist line (and log label) of one item.
pub fn item_line_string(it: &PlaylistTypes) -> (r: String)
    ensures
        r@ == item_line(it@),
{
    match it {
        PlaylistTypes::AudioFiles(name) => name.clone(),
        PlaylistTypes::Pause(d) => {
            proof {
                reveal_strlit("pause_");
                reveal_strlit("ms");
            }
            let mut s = "pause_".to_owned();
            assert(s@ =~= pause_head());
            let digits = u128_to_string(*d as u128);
            s.append(digits.as_str());
            s.append("ms");
            assert(s@ =~= pause_head() + decimal_digits(*d as nat) + pause_tail());
            s
        },
    }
}

/// Serializes an item sequence back to the playlist text format: one line
/// per item, joined by single newlines.
pub fn serialize(items: &Vec<PlaylistTypes>) -> (s: String)
    ensures
        s@ == serialize_items(items_view(items@)),
{
    let mut s = String::new();
    let mut i: usize = 0;
    proof {
        assert(items_view(items@.take(0)) =~= Seq::<ItemModel>::empty());
    }
    while i < items.len()
        invariant
            0 <= i <= items.len(),
            s@ == serialize_items(items_view(items@.take(i as int))),
        decreases items.len() - i,
    {
        let line = item_line_string(&items[i]);
        if i > 0 {
            proof {
                reveal_strlit("\n");
            }
            s.append("\n");
            assert(s@ =~= serialize_items(items_view(items@.take(i as int))) + seq!['\n']);
        }
        s.append(line.as_str());
        proof {
            let prev = items_view(items@.take(i as int));
            lemma_serialize_push(prev, items@[i as int]@);
            assert(items_view(items@.take(i + 1)) =~= prev.push(items@[i as int]@));
            assert(i == 0 ==> prev.len() == 0 && s@ =~= item_line(items@[i as int]@));
        }
        i = i + 1;
    }
    proof {
        assert(items@.take(items@.len() as int) =~= items@);
    }
    s
}

} // verus!

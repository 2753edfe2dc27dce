//! Localized text rows read out of a cooked text `DataTable`'s `.uexp`,
//! without a `.usmap`.
//!
//! The rows' structs are unversioned and unreadable without a schema, but
//! the payload wanted is an `FText` with `Base` history, which serializes as
//! plain `FString`s:
//!
//! ```text
//! u32 Flags | u8 HistoryType(0 = Base) | FString Namespace | FString Key | FString SourceString
//! ```
//!
//! Rows are found by anchoring on the namespace, which always equals the
//! table's own name, and reading the two `FString`s after it. The `_TextData`
//! key suffix then confirms the match is a real record.

use vstd::prelude::*;
use vstd::string::StringSliceAdditionalSpecFns;

use crate::bytes::le_u32;
use crate::data::uasset::{at_fstring, Reader, UassetError};
use crate::text::{
    ascii_lower, ascii_lowercase, chars_of, is_white_space, push_char, string_of, to_ascii_lower,
    trim, trim_bounds, trim_end, trim_start, trimmed, white_space,
};

verus! {

/// One row of a text `DataTable`.
#[derive(Debug, Clone, PartialEq, Eq)]
pub struct TextEntry {
    /// The row key with its `_TextData` suffix removed, e.g.
    /// `PAL_NAME_AmaterasuWolf`.
    pub key: String,
    /// The localized text, or `None` for an untranslated placeholder.
    pub text: Option<String>,
}

/// [`TextEntry`] with its strings seen as characters.
pub struct TextEntryV {
    pub key: Seq<char>,
    pub text: Option<Seq<char>>,
}

impl View for TextEntry {
    type V = TextEntryV;

    open spec fn view(&self) -> TextEntryV {
        TextEntryV {
            key: self.key@,
            text: match self.text {
                Some(t) => Some(t@),
                None => None,
            },
        }
    }
}

pub open spec fn entries_v(s: Seq<TextEntry>) -> Seq<TextEntryV> {
    s.map_values(|e: TextEntry| e@)
}

/// The suffix every text-table row key carries.
pub open spec fn key_suffix() -> Seq<char> {
    "_TextData"@
}

pub open spec fn ascii_alphabetic(c: char) -> bool {
    ('a' <= c <= 'z') || ('A' <= c <= 'Z')
}

/// Whether `c` is one of the separators a placeholder may contain.
pub open spec fn separator(c: char) -> bool {
    c == ' ' || c == '_' || c == '-'
}

/// `s` with every separator removed.
pub open spec fn drop_separators(s: Seq<char>) -> Seq<char>
    decreases s.len(),
{
    if s.len() == 0 {
        Seq::empty()
    } else if separator(s.last()) {
        drop_separators(s.drop_last())
    } else {
        drop_separators(s.drop_last()).push(s.last())
    }
}

/// Whether a source string is one of the game's untranslated placeholders:
/// blank after trimming, or a two-letter language tag followed by the word
/// `text`, ignoring ASCII case and any spaces, underscores and hyphens (so
/// `en_text`, `en Text`, `ja text`).
pub open spec fn placeholder(s: Seq<char>) -> bool {
    let t = trimmed(s);
    t.len() == 0 || {
        let n = drop_separators(ascii_lowercase(t));
        &&& n.len() == 6
        &&& n.subrange(2, 6) == seq!['t', 'e', 'x', 't']
        &&& ascii_alphabetic(n[0])
        &&& ascii_alphabetic(n[1])
    }
}

/// The text of `s` outside `<…>` markup, with the markup depth reached. A
/// `>` with no open tag is dropped.
pub open spec fn markup_scan(s: Seq<char>) -> (Seq<char>, nat)
    decreases s.len(),
{
    if s.len() == 0 {
        (Seq::empty(), 0)
    } else {
        let (out, depth) = markup_scan(s.drop_last());
        let c = s.last();
        if c == '<' {
            (out, depth + 1)
        } else if c == '>' {
            (out, if depth > 0 { (depth - 1) as nat } else { 0 })
        } else if depth == 0 {
            (out.push(c), depth)
        } else {
            (out, depth)
        }
    }
}

/// Unreal rich-text markup removed from `s`, then trimmed.
pub open spec fn without_markup(s: Seq<char>) -> Seq<char> {
    trimmed(markup_scan(s).0)
}

/// Whether `text` is an untranslated placeholder rather than real localized
/// text.
pub fn is_placeholder(text: &str) -> (b: bool)
    ensures
        b == placeholder(text@),
{
    let cs = chars_of(text);
    let (a, z) = trim_bounds(cs.as_slice());
    if a == z {
        return true;
    }
    let ghost t = cs@.subrange(a as int, z as int);
    // Lower-case and drop separators in one pass.
    let mut n: Vec<char> = Vec::new();
    let mut i = a;
    while i < z
        invariant
            a <= i <= z <= cs@.len(),
            t == cs@.subrange(a as int, z as int),
            n@ == drop_separators(ascii_lowercase(t).take(i - a)),
        decreases z - i,
    {
        let c = to_ascii_lower(cs[i]);
        proof {
            let lt = ascii_lowercase(t);
            assert(lt.take(i - a + 1).drop_last() =~= lt.take(i - a));
            assert(lt.take(i - a + 1).last() == c);
        }
        if !(c == ' ' || c == '_' || c == '-') {
            n.push(c);
        }
        i += 1;
    }
    proof {
        assert(ascii_lowercase(t).take(z - a) =~= ascii_lowercase(t));
    }
    if n.len() != 6 {
        return false;
    }
    let tail_is_text = n[2] == 't' && n[3] == 'e' && n[4] == 'x' && n[5] == 't';
    proof {
        if tail_is_text {
            assert(n@.subrange(2, 6) =~= seq!['t', 'e', 'x', 't']);
        }
    }
    let alpha0 = ('a' <= n[0] && n[0] <= 'z') || ('A' <= n[0] && n[0] <= 'Z');
    let alpha1 = ('a' <= n[1] && n[1] <= 'z') || ('A' <= n[1] && n[1] <= 'Z');
    tail_is_text && alpha0 && alpha1
}

/// Strip Unreal rich-text markup such as `<itemName id=|Rifle|/>`, keeping
/// the readable content, and trim the result.
pub fn strip_markup(text: &str) -> (r: String)
    ensures
        r@ == without_markup(text@),
{
    let cs = chars_of(text);
    let mut out: Vec<char> = Vec::new();
    let mut depth: usize = 0;
    let mut i: usize = 0;
    while i < cs.len()
        invariant
            i <= cs@.len(),
            cs@ == text@,
            depth <= i,
            (out@, depth as nat) == markup_scan(cs@.take(i as int)),
        decreases cs@.len() - i,
    {
        let ch = cs[i];
        proof {
            assert(cs@.take(i + 1).drop_last() =~= cs@.take(i as int));
        }
        if ch == '<' {
            depth += 1;
        } else if ch == '>' {
            if depth > 0 {
                depth -= 1;
            }
        } else if depth == 0 {
            out.push(ch);
        }
        i += 1;
    }
    proof {
        assert(cs@.take(cs@.len() as int) =~= cs@);
    }
    let (a, z) = trim_bounds(out.as_slice());
    string_of(out.as_slice(), a, z)
}

/// The little-endian bytes of a 32-bit value.
pub open spec fn le_bytes32(x: int) -> Seq<u8> {
    seq![(x % 256) as u8, ((x / 256) % 256) as u8, ((x / 65536) % 256) as u8, ((x / 16777216) % 256) as u8]
}

/// How an ASCII `FString` holding the bytes `b` appears on disk: its length
/// with the NUL counted, the bytes, and the NUL.
pub open spec fn encoded_fstring(b: Seq<u8>) -> Seq<u8> {
    le_bytes32((b.len() + 1) as int) + b + seq![0u8]
}

/// Encode a string the way an Unreal ASCII `FString` appears on disk, so it
/// can be found by exact byte match.
pub fn encode_ascii_fstring(s: &str) -> (out: Vec<u8>)
    requires
        s.spec_bytes().len() < 0x7fff_ffff,
    ensures
        out@ == encoded_fstring(s.spec_bytes()),
{
    let bytes = s.as_bytes();
    let n: u32 = (bytes.len() + 1) as u32;
    let mut out: Vec<u8> = Vec::with_capacity(bytes.len() + 5);
    out.push((n % 256) as u8);
    out.push(((n / 256) % 256) as u8);
    out.push(((n / 65536) % 256) as u8);
    out.push(((n / 16777216) % 256) as u8);
    let mut i: usize = 0;
    while i < bytes.len()
        invariant
            i <= bytes@.len(),
            bytes@ == s.spec_bytes(),
            out@ =~= le_bytes32((bytes@.len() + 1) as int) + bytes@.take(i as int),
        decreases bytes@.len() - i,
    {
        out.push(bytes[i]);
        i += 1;
    }
    out.push(0);
    proof {
        assert(bytes@.take(bytes@.len() as int) =~= bytes@);
    }
    out
}

/// Whether `n` occurs in `d` at `i`.
pub open spec fn occurs_at(d: Seq<u8>, n: Seq<u8>, i: int) -> bool {
    0 <= i && i + n.len() <= d.len() && d.subrange(i, i + n.len()) == n
}

/// The first position at or after `from` where `n` occurs in `d`.
pub open spec fn first_match(d: Seq<u8>, n: Seq<u8>, from: int) -> Option<int>
    decreases d.len() - from,
{
    if from < 0 || n.len() == 0 || from + n.len() > d.len() {
        None
    } else if occurs_at(d, n, from) {
        Some(from)
    } else {
        first_match(d, n, from + 1)
    }
}

/// The first position of a non-empty `needle` in `haystack`.
pub fn find(haystack: &[u8], needle: &[u8]) -> (r: Option<usize>)
    ensures
        r == (if needle@.len() == 0 {
            None::<usize>
        } else {
            match first_match(haystack@, needle@, 0) {
                Some(i) => Some(i as usize),
                None => None,
            }
        }),
{
    if needle.len() == 0 || haystack.len() < needle.len() {
        return None;
    }
    let mut i: usize = 0;
    while i <= haystack.len() - needle.len()
        invariant
            needle@.len() > 0,
            needle@.len() <= haystack@.len(),
            i <= haystack@.len(),
            first_match(haystack@, needle@, 0) == first_match(haystack@, needle@, i as int),
        decreases haystack@.len() - i,
    {
        let mut j: usize = 0;
        while j < needle.len() && haystack[i + j] == needle[j]
            invariant
                i + needle@.len() <= haystack@.len(),
                i + needle@.len() <= usize::MAX,
                j <= needle@.len(),
                forall|k: int| 0 <= k < j ==> haystack@[i + k] == needle@[k],
            decreases needle@.len() - j,
        {
            j += 1;
        }
        if j == needle.len() {
            proof {
                assert(haystack@.subrange(i as int, i + needle@.len()) =~= needle@);
            }
            return Some(i);
        }
        proof {
            assert(haystack@.subrange(i as int, i + needle@.len())[j as int] != needle@[j as int]);
        }
        i += 1;
    }
    None
}

/// Every `FString` read consumes at least its length prefix and stays in
/// bounds.
proof fn lemma_fstring_advances(d: Seq<u8>, pos: int)
    ensures
        at_fstring(d, pos) matches Ok((_, q)) ==> pos + 4 <= q <= d.len(),
{
}

/// A match found from `from` lies at or after it, within `d`.
proof fn lemma_first_match_bounds(d: Seq<u8>, n: Seq<u8>, from: int)
    ensures
        first_match(d, n, from) matches Some(i) ==> from <= i && occurs_at(d, n, i),
    decreases d.len() - from,
{
    if !(from < 0 || n.len() == 0 || from + n.len() > d.len()) && !occurs_at(d, n, from) {
        lemma_first_match_bounds(d, n, from + 1);
    }
}

/// Searching the tail of `d` from `f` finds what searching `d` from `f`
/// finds, shifted by `f`.
proof fn lemma_first_match_shift(d: Seq<u8>, n: Seq<u8>, f: int, k: int)
    requires
        0 <= f <= d.len(),
        0 <= k,
    ensures
        first_match(d.subrange(f, d.len() as int), n, k) == match first_match(d, n, f + k) {
            Some(i) => Some(i - f),
            None => None::<int>,
        },
    decreases d.len() - f - k,
{
    let s = d.subrange(f, d.len() as int);
    if !(n.len() == 0 || k + n.len() > s.len()) {
        assert(s.subrange(k, k + n.len()) =~= d.subrange(f + k, f + k + n.len()));
        if !occurs_at(d, n, f + k) {
            lemma_first_match_shift(d, n, f, k + 1);
        }
    }
}

/// The key and source string of the `FText` whose namespace ends at `pos`,
/// when both read.
pub open spec fn row_strings_at(d: Seq<u8>, pos: int) -> Option<(Seq<char>, Seq<char>, int)> {
    match at_fstring(d, pos) {
        Ok((k, p1)) => match at_fstring(d, p1) {
            Ok((src, p2)) => Some((k, src, p2)),
            Err(_) => None,
        },
        Err(_) => None,
    }
}

pub open spec fn ends_with(s: Seq<char>, suffix: Seq<char>) -> bool {
    s.len() >= suffix.len() && s.subrange(s.len() - suffix.len(), s.len() as int) == suffix
}

/// The row for `key` whose source string is `source`: markup stripped, and
/// no text for a placeholder.
pub open spec fn row_entry(key: Seq<char>, source: Seq<char>) -> TextEntryV {
    let cleaned = without_markup(source);
    TextEntryV { key, text: if placeholder(cleaned) { None } else { Some(cleaned) } }
}

/// The keys of `rows`.
pub open spec fn keys_of(rows: Seq<TextEntryV>) -> Set<Seq<char>> {
    Set::new(|k: Seq<char>| exists|i: int| 0 <= i < rows.len() && rows[i].key == k)
}

/// The rows found from `from` on: at each occurrence of the `anchor`
/// namespace preceded by a zero `HistoryType` byte, the key and source after
/// it, kept when the key carries the `_TextData` suffix and its stem is
/// non-empty and not in `seen`. A kept row resumes the search after its
/// source string, anything else right after the anchor.
pub open spec fn text_rows(d: Seq<u8>, anchor: Seq<u8>, from: int, seen: Set<Seq<char>>) -> Seq<TextEntryV>
    decreases d.len() - from,
    via text_rows_decreases
{
    if anchor.len() == 0 || from < 0 {
        Seq::empty()
    } else {
        match first_match(d, anchor, from) {
            None => Seq::empty(),
            Some(start) => {
                let next = start + anchor.len();
                if start == 0 || d[start - 1] != 0 {
                    text_rows(d, anchor, next, seen)
                } else {
                    match row_strings_at(d, next) {
                        None => text_rows(d, anchor, next, seen),
                        Some((key, source, after)) => {
                            let stem = key.subrange(0, key.len() - key_suffix().len());
                            if !ends_with(key, key_suffix()) || stem.len() == 0 || seen.contains(stem) {
                                text_rows(d, anchor, next, seen)
                            } else {
                                seq![row_entry(stem, source)] + text_rows(d, anchor, after, seen.insert(stem))
                            }
                        },
                    }
                }
            },
        }
    }
}

#[via_fn]
proof fn text_rows_decreases(d: Seq<u8>, anchor: Seq<u8>, from: int, seen: Set<Seq<char>>) {
    lemma_first_match_bounds(d, anchor, from);
    if let Some(start) = first_match(d, anchor, from) {
        lemma_fstring_advances(d, start + anchor.len());
        if let Ok((_, p1)) = at_fstring(d, start + anchor.len()) {
            lemma_fstring_advances(d, p1);
        }
    }
}

/// A row appended adds its key.
proof fn lemma_keys_push(rows: Seq<TextEntryV>, e: TextEntryV)
    ensures
        keys_of(rows.push(e)) == keys_of(rows).insert(e.key),
{
    let n = rows.push(e);
    assert forall|k: Seq<char>| keys_of(n).contains(k) <==> keys_of(rows).insert(e.key).contains(k) by {
        if keys_of(n).contains(k) {
            let i = choose|i: int| 0 <= i < n.len() && n[i].key == k;
            if i < rows.len() {
                assert(rows[i].key == k);
            }
        }
        if keys_of(rows).contains(k) {
            let i = choose|i: int| 0 <= i < rows.len() && rows[i].key == k;
            assert(n[i].key == k);
        }
        if k == e.key {
            assert(n[rows.len() as int].key == k);
        }
    }
    assert(keys_of(n) =~= keys_of(rows).insert(e.key));
}

/// Whether `s` holds neither `<` nor `>`.
pub open spec fn free_of_angles(s: Seq<char>) -> bool {
    forall|i: int| 0 <= i < s.len() ==> #[trigger] s[i] != '<' && s[i] != '>'
}

/// Whether a row's text is absent, or a trimmed string free of markup
/// brackets that is no placeholder.
pub open spec fn clean_text(t: Option<Seq<char>>) -> bool {
    t matches Some(s) ==> !placeholder(s) && trimmed(s) == s && free_of_angles(s)
}

/// Dropping leading white space leaves a tail of `s` that starts with no
/// white space.
proof fn lemma_trim_start_tail(s: Seq<char>)
    ensures
        trim_start(s).len() <= s.len(),
        trim_start(s) == s.subrange(s.len() - trim_start(s).len(), s.len() as int),
        trim_start(s).len() > 0 ==> !white_space(trim_start(s)[0]),
    decreases s.len(),
{
    if s.len() > 0 && white_space(s[0]) {
        lemma_trim_start_tail(s.drop_first());
        let t = trim_start(s.drop_first());
        assert(s.drop_first().subrange(s.drop_first().len() - t.len(), s.drop_first().len() as int)
            =~= s.subrange(s.len() - t.len(), s.len() as int));
    } else {
        assert(s.subrange(0, s.len() as int) =~= s);
    }
}

/// Dropping trailing white space leaves a head of `s` that ends with no
/// white space.
proof fn lemma_trim_end_head(s: Seq<char>)
    ensures
        trim_end(s).len() <= s.len(),
        trim_end(s) == s.subrange(0, trim_end(s).len() as int),
        trim_end(s).len() > 0 ==> !white_space(trim_end(s).last()),
    decreases s.len(),
{
    if s.len() > 0 && white_space(s.last()) {
        lemma_trim_end_head(s.drop_last());
        let t = trim_end(s.drop_last());
        assert(s.drop_last().subrange(0, t.len() as int) =~= s.subrange(0, t.len() as int));
    } else {
        assert(s.subrange(0, s.len() as int) =~= s);
    }
}

/// Trimming twice trims no more than once, and keeps a string free of
/// markup brackets so.
proof fn lemma_trimmed_clean(x: Seq<char>)
    ensures
        trimmed(trimmed(x)) == trimmed(x),
        free_of_angles(x) ==> free_of_angles(trimmed(x)),
{
    let a = trim_start(x);
    let y = trim_end(a);
    lemma_trim_start_tail(x);
    lemma_trim_end_head(a);
    if y.len() > 0 {
        assert(y[0] == a[0]);
    }
    assert(trim_start(y) == y);
    assert(trim_end(y) == y);
    if free_of_angles(x) {
        assert forall|i: int| 0 <= i < y.len() implies #[trigger] y[i] != '<' && y[i] != '>' by {
            assert(y[i] == a[i]);
            assert(a[i] == x[x.len() - a.len() + i]);
        }
    }
}

/// What markup scanning keeps holds no markup brackets.
proof fn lemma_markup_scan_free(s: Seq<char>)
    ensures
        free_of_angles(markup_scan(s).0),
    decreases s.len(),
{
    if s.len() > 0 {
        lemma_markup_scan_free(s.drop_last());
        let out = markup_scan(s.drop_last()).0;
        let c = s.last();
        if c != '<' && c != '>' {
            assert forall|i: int| 0 <= i < out.push(c).len() implies #[trigger] out.push(c)[i] != '<'
                && out.push(c)[i] != '>' by {
                if i < out.len() {
                    assert(out.push(c)[i] == out[i]);
                }
            }
        }
    }
}

/// The row made from any key and source string has a clean text.
proof fn lemma_row_entry_clean(key: Seq<char>, source: Seq<char>)
    ensures
        row_entry(key, source).key == key,
        clean_text(row_entry(key, source).text),
{
    lemma_markup_scan_free(source);
    lemma_trimmed_clean(markup_scan(source).0);
}

/// The rows of a text table, from any position and with any keys already
/// seen: each key is non-empty and was not seen before, no two rows share a
/// key, and each text is absent or a trimmed string, free of `<` and `>`,
/// that is no untranslated placeholder.
pub proof fn lemma_text_rows_clean(d: Seq<u8>, anchor: Seq<u8>, from: int, seen: Set<Seq<char>>)
    ensures
        forall|i: int|
            0 <= i < text_rows(d, anchor, from, seen).len() ==> {
                let e = #[trigger] text_rows(d, anchor, from, seen)[i];
                &&& e.key.len() > 0
                &&& !seen.contains(e.key)
                &&& clean_text(e.text)
            },
        forall|i: int, j: int|
            0 <= i < j < text_rows(d, anchor, from, seen).len() ==> #[trigger] text_rows(
                d,
                anchor,
                from,
                seen,
            )[i].key != #[trigger] text_rows(d, anchor, from, seen)[j].key,
    decreases d.len() - from,
{
    if anchor.len() == 0 || from < 0 {
        return;
    }
    lemma_first_match_bounds(d, anchor, from);
    match first_match(d, anchor, from) {
        None => {},
        Some(start) => {
            let next = start + anchor.len();
            if start == 0 || d[start - 1] != 0 {
                lemma_text_rows_clean(d, anchor, next, seen);
            } else {
                lemma_fstring_advances(d, next);
                match row_strings_at(d, next) {
                    None => {
                        lemma_text_rows_clean(d, anchor, next, seen);
                    },
                    Some((key, source, after)) => {
                        let stem = key.subrange(0, key.len() - key_suffix().len());
                        if !ends_with(key, key_suffix()) || stem.len() == 0 || seen.contains(stem) {
                            lemma_text_rows_clean(d, anchor, next, seen);
                        } else {
                            let p1 = at_fstring(d, next)->Ok_0.1;
                            lemma_fstring_advances(d, p1);
                            let seen2 = seen.insert(stem);
                            lemma_text_rows_clean(d, anchor, after, seen2);
                            lemma_row_entry_clean(stem, source);
                            let rest = text_rows(d, anchor, after, seen2);
                            let rows = text_rows(d, anchor, from, seen);
                            assert(rows == seq![row_entry(stem, source)] + rest);
                            assert forall|i: int| 0 < i < rows.len() implies rows[i] == rest[i - 1] by {}
                            assert forall|i: int| 0 <= i < rows.len() implies {
                                let e = #[trigger] rows[i];
                                &&& e.key.len() > 0
                                &&& !seen.contains(e.key)
                                &&& clean_text(e.text)
                            } by {
                                if i > 0 {
                                    assert(rows[i] == rest[i - 1]);
                                }
                            }
                            assert forall|i: int, j: int| 0 <= i < j < rows.len() implies #[trigger] rows[i].key
                                != #[trigger] rows[j].key by {
                                assert(rows[j] == rest[j - 1]);
                                if i > 0 {
                                    assert(rows[i] == rest[i - 1]);
                                } else {
                                    assert(!seen2.contains(rest[j - 1].key));
                                }
                            }
                        }
                    },
                }
            }
        },
    }
}

/// Whether some row in `entries` has the key `key`.
fn has_key(entries: &Vec<TextEntry>, key: &String) -> (b: bool)
    ensures
        b == keys_of(entries_v(entries@)).contains(key@),
{
    let mut i: usize = 0;
    while i < entries.len()
        invariant
            i <= entries@.len(),
            forall|j: int| 0 <= j < i ==> entries@[j].key@ != key@,
        decreases entries@.len() - i,
    {
        if entries[i].key == *key {
            proof {
                assert(entries_v(entries@)[i as int].key == key@);
            }
            return true;
        }
        i += 1;
    }
    proof {
        if keys_of(entries_v(entries@)).contains(key@) {
            let j = choose|j: int| 0 <= j < entries_v(entries@).len() && entries_v(entries@)[j].key == key@;
            assert(entries@[j].key@ == key@);
        }
    }
    false
}

/// The stem of `key` before the `_TextData` suffix, when it carries one.
fn strip_key_suffix(key: &str) -> (r: Option<String>)
    ensures
        match r {
            Some(s) => ends_with(key@, key_suffix()) && s@ == key@.subrange(0, key@.len() - key_suffix().len()),
            None => !ends_with(key@, key_suffix()),
        },
{
    let cs = chars_of(key);
    let suffix = chars_of("_TextData");
    if cs.len() < suffix.len() {
        return None;
    }
    let base = cs.len() - suffix.len();
    let mut i: usize = 0;
    while i < suffix.len()
        invariant
            suffix@ == key_suffix(),
            cs@ == key@,
            cs@.len() <= usize::MAX,
            base == cs@.len() - suffix@.len(),
            i <= suffix@.len(),
            forall|k: int| 0 <= k < i ==> cs@[base + k] == suffix@[k],
        decreases suffix@.len() - i,
    {
        if cs[base + i] != suffix[i] {
            proof {
                assert(cs@.subrange(base as int, cs@.len() as int)[i as int] != suffix@[i as int]);
            }
            return None;
        }
        i += 1;
    }
    proof {
        assert(cs@.subrange(base as int, cs@.len() as int) =~= suffix@);
    }
    Some(string_of(cs.as_slice(), 0, base))
}

/// Extract every `FText` row from a cooked text `DataTable`'s `.uexp`.
///
/// `namespace` is the table's own name (e.g. `DT_PalNameText_Common`), which
/// the game writes into each record's namespace field.
#[verifier::spinoff_prover]
#[verifier::rlimit(100)]
pub fn parse(uexp: &[u8], namespace: &str) -> (r: Result<Vec<TextEntry>, UassetError>)
    requires
        namespace.spec_bytes().len() < 0x7fff_ffff,
    ensures
        r matches Ok(v) && entries_v(v@) == text_rows(
            uexp@,
            encoded_fstring(namespace.spec_bytes()),
            0,
            Set::empty(),
        ),
{
    let anchor = encode_ascii_fstring(namespace);
    let ghost d = uexp@;
    let ghost a = anchor@;
    let mut entries: Vec<TextEntry> = Vec::new();
    let mut search_from: usize = 0;
    proof {
        assert(keys_of(entries_v(entries@)) =~= Set::<Seq<char>>::empty());
        assert(entries_v(entries@) + text_rows(d, a, 0, Set::empty()) =~= text_rows(d, a, 0, Set::empty()));
    }
    loop
        invariant
            d == uexp@,
            a == anchor@,
            a == encoded_fstring(namespace.spec_bytes()),
            a.len() > 0,
            search_from <= d.len(),
            text_rows(d, a, 0, Set::empty()) == entries_v(entries@) + text_rows(
                d,
                a,
                search_from as int,
                keys_of(entries_v(entries@)),
            ),
        decreases d.len() - search_from,
    {
        let ghost seen = keys_of(entries_v(entries@));
        let ghost here = search_from as int;
        let rest = &uexp[search_from..uexp.len()];
        let found = find(rest, anchor.as_slice());
        proof {
            assert(rest@ == d.subrange(here, d.len() as int));
            lemma_first_match_shift(d, a, here, 0);
            lemma_first_match_bounds(d, a, here);
        }
        let rel = match found {
            Some(rel) => rel,
            None => {
                proof {
                    assert(text_rows(d, a, here, seen) =~= Seq::<TextEntryV>::empty());
                    assert(entries_v(entries@) + Seq::<TextEntryV>::empty() =~= entries_v(entries@));
                }
                return Ok(entries);
            },
        };
        let start = search_from + rel;
        search_from = start + anchor.len();
        // Base history (zero) precedes the namespace of a real record.
        if start == 0 || uexp[start - 1] != 0 {
            continue;
        }
        let mut r = Reader::at(uexp, search_from);
        let key = r.fstring();
        let source = r.fstring();
        let (key, source) = match (key, source) {
            (Ok(k), Ok(s)) => (k, s),
            _ => {
                continue;
            },
        };
        proof {
            lemma_fstring_advances(d, search_from as int);
        }
        let after = r.pos();
        let stem = match strip_key_suffix(key.as_str()) {
            Some(stem) => stem,
            None => {
                continue;
            },
        };
        if stem.as_str().unicode_len() == 0 || has_key(&entries, &stem) {
            continue;
        }
        let cleaned = strip_markup(source.as_str());
        let text = if is_placeholder(cleaned.as_str()) {
            None
        } else {
            Some(cleaned)
        };
        let entry = TextEntry { key: stem, text };
        proof {
            assert(entry@ == row_entry(stem@, source@));
            assert(entries_v(entries@.push(entry)) =~= entries_v(entries@).push(entry@));
            lemma_keys_push(entries_v(entries@), entry@);
            assert(entries_v(entries@).push(entry@) + text_rows(d, a, after as int, seen.insert(stem@)) =~= entries_v(entries@) + (seq![row_entry(stem@, source@)] + text_rows(d, a, after as int, seen.insert(stem@))));
        }
        entries.push(entry);
        search_from = after;
    }
}

} // verus!

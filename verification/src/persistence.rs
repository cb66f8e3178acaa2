//! Saving the table to disk and restoring it at start-up.
//!
//! The table is kept as a JSON snapshot: after each change the whole table
//! is written as one JSON object of strings; at start-up the file is read
//! back. A missing file means a first start (an empty table); a file that
//! is empty or holds only whitespace also means an empty table; a file that
//! is not UTF-8 text or does not hold such an object is reported as
//! corrupted and never taken for an empty table.

use vstd::prelude::*;
use vstd::string::*;
use crate::error::KvError;
use crate::store::{
    distinct_keys, keys_of, ordered_pairs, pairs_map, pairs_view, sorted_pairs, strictly_sorted,
    Pairs, lemma_ordered_pairs, lemma_pairs_map_len, lemma_sorted_distinct,
};
use crate::text::{seq_trim, trim};
use vstd::utf8::{decode_utf8, encode_utf8, valid_utf8};

verus! {

/// Where the snapshot is kept.
#[derive(Debug, Clone)]
pub struct Persistence {
    /// The full path of the data file (such as `data/kv.json`).
    path: String,
}

impl Persistence {
    /// The path of the data file.
    pub closed spec fn path_view(&self) -> Seq<char> {
        self.path@
    }

    /// Persistence to the data file at `path`.
    pub fn new(path: String) -> (p: Self)
        ensures
            p.path_view() == path@,
    {
        Persistence { path }
    }

    /// The path of the data file.
    pub fn path(&self) -> (r: &str)
        ensures
            r@ == self.path_view(),
    {
        self.path.as_str()
    }
}

/// What reading the data file gave.
#[derive(Debug)]
pub enum FileRead {
    /// There is no such file.
    Missing,
    /// The file's bytes.
    Contents(Vec<u8>),
}

/// What `serde_json::from_str` makes of `text` read as a map of strings:
/// the map, when `text` is a JSON object whose values are all strings, else
/// the message (the `Display` text) of the error it reports.
pub uninterp spec fn json_string_map(text: Seq<char>) -> Result<Map<Seq<char>, Seq<char>>, Seq<char>>;

/// The hexadecimal digit for `n` (below sixteen), in small letters.
pub open spec fn hex_digit(n: int) -> char {
    seq!['0', '1', '2', '3', '4', '5', '6', '7', '8', '9', 'a', 'b', 'c', 'd', 'e', 'f'][n]
}

/// How a character stands inside a JSON string: the quote, the backslash
/// and the control characters below U+0020 are escaped (the six with a short
/// escape by it, the others as `\u00XX`); every other character stands as
/// itself.
pub open spec fn json_escaped_char(c: char) -> Seq<char> {
    let n = c as int;
    if n == 0x22 {
        seq!['\\', '"']
    } else if n == 0x5c {
        seq!['\\', '\\']
    } else if n == 8 {
        seq!['\\', 'b']
    } else if n == 9 {
        seq!['\\', 't']
    } else if n == 10 {
        seq!['\\', 'n']
    } else if n == 12 {
        seq!['\\', 'f']
    } else if n == 13 {
        seq!['\\', 'r']
    } else if n < 0x20 {
        seq!['\\', 'u', '0', '0', hex_digit(n / 16), hex_digit(n % 16)]
    } else {
        seq![c]
    }
}

/// The characters of `s`, each as it stands inside a JSON string.
pub open spec fn json_escaped(s: Seq<char>) -> Seq<char>
    decreases s.len(),
{
    if s.len() == 0 {
        Seq::empty()
    } else {
        json_escaped(s.drop_last()) + json_escaped_char(s.last())
    }
}

/// `s` as a JSON string literal.
pub open spec fn json_quoted(s: Seq<char>) -> Seq<char> {
    seq!['"'] + json_escaped(s) + seq!['"']
}

/// One pair of a pretty JSON object: indented by two spaces, the key, a
/// colon and a space, and the value.
pub open spec fn json_member(p: (Seq<char>, Seq<char>)) -> Seq<char> {
    seq![' ', ' '] + json_quoted(p.0) + seq![':', ' '] + json_quoted(p.1)
}

/// The pairs of a pretty JSON object, one per line, separated by commas.
pub open spec fn json_members(entries: Pairs) -> Seq<char>
    decreases entries.len(),
{
    if entries.len() <= 1 {
        if entries.len() == 0 {
            Seq::empty()
        } else {
            json_member(entries[0])
        }
    } else {
        json_members(entries.drop_last()) + seq![',', '\n'] + json_member(entries.last())
    }
}

/// The text that `serde_json::to_string_pretty` writes for a map of strings
/// whose pairs, in the order it writes them, are `entries`: `{}` when there
/// are none, else `{`, a line per pair, and `}` on a line of its own.
pub open spec fn json_pretty_text(entries: Pairs) -> Seq<char> {
    if entries.len() == 0 {
        seq!['{', '}']
    } else {
        seq!['{', '\n'] + json_members(entries) + seq!['\n', '}']
    }
}

/// Whether `serde_json::from_str` reads `text` as the map of strings `m`.
pub open spec fn reads_back_as(text: Seq<char>, m: Map<Seq<char>, Seq<char>>) -> bool {
    json_string_map(text) matches Ok(x) && x == m
}

/// Reads `text` with `serde_json::from_str` as a `BTreeMap<String, String>`
/// and lists its pairs, or gives the error's message. Claimed: the outcome
/// is `json_string_map(text@)`; on success the pairs come in strictly
/// increasing order of key, the order in which a `BTreeMap` hands out its
/// entries (`String` is ordered by its bytes, which in UTF-8 is the order of
/// the characters' code points).
#[verifier::external_body]
fn parse_string_map(text: &str) -> (r: Result<Vec<(String, String)>, String>)
    ensures
        match json_string_map(text@) {
            Ok(m) => r matches Ok(v) && strictly_sorted(keys_of(pairs_view(v@))) && pairs_map(
                pairs_view(v@),
            ) == m,
            Err(msg) => r matches Err(e) && e@ == msg,
        },
{
    match serde_json::from_str::<std::collections::BTreeMap<String, String>>(text) {
        Ok(m) => Ok(m.into_iter().collect()),
        Err(e) => Err(e.to_string()),
    }
}

/// Writes the pairs with `serde_json::to_string_pretty`, as a
/// `BTreeMap<String, String>`; the pairs arrive in increasing order of key,
/// which is the order the map keeps. Claimed: it succeeds (serde_json fails
/// only on a `Serialize` impl that fails or on a map with keys that are not
/// strings, and writing into its in-memory buffer does not fail); the text
/// is `json_pretty_text` of the pairs (serde_json's pretty formatter with
/// its default indent of two spaces, and its string escapes); and
/// `serde_json::from_str` reads the same map back from it.
#[verifier::external_body]
fn write_string_map(entries: &Vec<(String, String)>) -> (r: Result<String, serde_json::Error>)
    requires
        strictly_sorted(keys_of(pairs_view(entries@))),
    ensures
        r is Ok,
        r matches Ok(t) ==> t@ == json_pretty_text(pairs_view(entries@)),
        r matches Ok(t) ==> reads_back_as(t@, pairs_map(pairs_view(entries@))),
{
    let map: std::collections::BTreeMap<String, String> = entries.iter().cloned().collect();
    serde_json::to_string_pretty(&map)
}

/// Reads `bytes` as UTF-8 text with `String::from_utf8`. Claimed: it
/// succeeds exactly when the bytes are valid UTF-8, and the text is then
/// their decoding (the bytes are kept as they are).
#[verifier::external_body]
fn utf8_text(bytes: Vec<u8>) -> (r: Option<String>)
    ensures
        r is Some == valid_utf8(bytes@),
        r matches Some(s) ==> s@ == decode_utf8(bytes@),
{
    String::from_utf8(bytes).ok()
}

/// What reading the data file gave: no file, or its bytes.
pub open spec fn file_read_view(read: FileRead) -> Option<Seq<u8>> {
    match read {
        FileRead::Missing => None,
        FileRead::Contents(bytes) => Some(bytes@),
    }
}

/// The reason given for a data file that is not UTF-8 text.
pub open spec fn not_utf8_message() -> Seq<char> {
    "数据文件不是合法的 UTF-8 文本"@
}

/// The table that the data file restores (`contents` is `None` when there
/// is no file), or the reason why the file is corrupted.
pub open spec fn restored(contents: Option<Seq<u8>>) -> Result<Map<Seq<char>, Seq<char>>, Seq<char>> {
    match contents {
        None => Ok(Map::empty()),
        Some(bytes) => if !valid_utf8(bytes) {
            Err(not_utf8_message())
        } else if seq_trim(decode_utf8(bytes)).len() == 0 {
            Ok(Map::empty())
        } else {
            json_string_map(decode_utf8(bytes))
        },
    }
}

/// Restores the table from what reading the data file gave: a missing file
/// or one of only whitespace gives an empty table, a JSON object of strings
/// gives its pairs in increasing order of key, and anything else (bytes
/// that are not UTF-8, or text that is not such an object) is
/// `CorruptedData` with the reason.
pub fn decode_snapshot(read: FileRead) -> (r: Result<Vec<(String, String)>, KvError>)
    ensures
        match restored(file_read_view(read)) {
            Ok(m) => r matches Ok(v) && {
                &&& distinct_keys(pairs_view(v@))
                &&& pairs_map(pairs_view(v@)) == m
                &&& pairs_view(v@) == ordered_pairs(m)
                &&& v@.len() == m.len()
            },
            Err(msg) => r matches Err(KvError::CorruptedData(c)) && c@ == msg,
        },
{
    match read {
        FileRead::Missing => {
            let v: Vec<(String, String)> = Vec::new();
            assert(pairs_map(pairs_view(v@)) =~= Map::empty());
            proof {
                lemma_ordered_pairs(pairs_view(v@));
                lemma_pairs_map_len(pairs_view(v@));
            }
            Ok(v)
        },
        FileRead::Contents(bytes) => {
            let text = match utf8_text(bytes) {
                Some(text) => text,
                None => {
                    return Err(KvError::CorruptedData("数据文件不是合法的 UTF-8 文本".to_owned()));
                },
            };
            if trim(text.as_str()).is_empty() {
                let v: Vec<(String, String)> = Vec::new();
                assert(pairs_map(pairs_view(v@)) =~= Map::empty());
                proof {
                    lemma_ordered_pairs(pairs_view(v@));
                    lemma_pairs_map_len(pairs_view(v@));
                }
                return Ok(v);
            }
            match parse_string_map(text.as_str()) {
                Ok(v) => {
                    proof {
                        lemma_sorted_distinct(pairs_view(v@));
                        lemma_ordered_pairs(pairs_view(v@));
                        lemma_pairs_map_len(pairs_view(v@));
                    }
                    Ok(v)
                },
                Err(msg) => Err(KvError::CorruptedData(msg)),
            }
        },
    }
}

/// The JSON text to write for a table with the pairs `data`: the pretty
/// JSON object of its pairs in increasing order of key. It always succeeds.
pub fn encode_snapshot(data: &Vec<(String, String)>) -> (r: Result<String, KvError>)
    requires
        distinct_keys(pairs_view(data@)),
    ensures
        r matches Ok(t) && {
            &&& t@ == json_pretty_text(ordered_pairs(pairs_map(pairs_view(data@))))
            &&& reads_back_as(t@, pairs_map(pairs_view(data@)))
            &&& seq_trim(t@).len() > 0
        },
{
    let sorted = sorted_pairs(data);
    proof {
        lemma_ordered_pairs(pairs_view(sorted@));
    }
    match write_string_map(&sorted) {
        Ok(t) => {
            proof {
                let e = pairs_view(sorted@);
                if e.len() == 0 {
                    assert(t@[0] == '{');
                } else {
                    assert(t@[0] == '{') by {
                        assert(t@ == seq!['{', '\n'] + json_members(e) + seq!['\n', '}']);
                        assert((seq!['{', '\n'] + json_members(e) + seq!['\n', '}'])[0] == '{');
                    }
                }
                crate::text::lemma_trim_keeps(t@, 0);
            }
            Ok(t)
        },
        Err(e) => Err(KvError::Serde(e)),
    }
}

/// The bytes of a saved snapshot restore the table it was written for:
/// the saved text is UTF-8 encoded, not blank, and reads back as the table.
pub proof fn lemma_saved_text_restores(saved: Seq<char>, table: Map<Seq<char>, Seq<char>>)
    requires
        reads_back_as(saved, table),
        seq_trim(saved).len() > 0,
    ensures
        (restored(Some(encode_utf8(saved))) matches Ok(x) && x == table),
{
    vstd::utf8::encode_utf8_valid_utf8(saved);
    vstd::utf8::encode_utf8_decode_utf8(saved);
}

} // verus!

//! Reading values out of JSON documents by dotted paths.
//!
//! Documents are handled as JSON text; parsing, indexing and printing are
//! done by `serde_json`, whose results are named by the spec functions below.
//! The walk along the path is the library's own and is proved.
use vstd::prelude::*;

use crate::text::{chars_of, parse_usize, parse_usize_chars, split_char, split_chars, string_of};

verus! {

/// What parsing a text as JSON and printing the value compactly
/// (`serde_json::from_str::<Value>` then `Value::to_string`) gives: `None`
/// when the text is not JSON.
pub uninterp spec fn json_compact_of(text: Seq<char>) -> Option<Seq<char>>;

/// What `Value::get(index)` gives on the value of a JSON text, printed
/// compactly: the element at that index of an array, `None` for anything
/// else or an index out of range.
pub uninterp spec fn json_index_child_of(doc: Seq<char>, index: nat) -> Option<Seq<char>>;

/// What `Value::get(key)` gives on the value of a JSON text, printed
/// compactly: the member with that key of an object, `None` for anything
/// else or a missing key.
pub uninterp spec fn json_key_child_of(doc: Seq<char>, key: Seq<char>) -> Option<Seq<char>>;

/// The content of the JSON text when its value is a string
/// (`Value::String`), `None` for any other value.
pub uninterp spec fn json_string_of(doc: Seq<char>) -> Option<Seq<char>>;

/// The number of elements when a text parses as a JSON array
/// (`serde_json::from_str::<Vec<Value>>`), `None` when it does not.
pub uninterp spec fn json_array_len_of(text: Seq<char>) -> Option<nat>;

/// `serde_json::from_str::<Vec<Value>>`, keeping the number of elements;
/// named `json_array_len_of`.
#[verifier::external_body]
pub(crate) fn json_array_len(text: &str) -> (r: Option<usize>)
    ensures
        match r {
            Some(n) => json_array_len_of(text@) == Some(n as nat),
            None => json_array_len_of(text@) is None,
        },
{
    match serde_json::from_str::<Vec<serde_json::Value>>(text) {
        Ok(v) => Some(v.len()),
        Err(_) => None,
    }
}

/// `serde_json::from_str::<Value>` followed by `Value::to_string`.
#[verifier::external_body]
pub(crate) fn json_compact(text: &str) -> (r: Option<String>)
    ensures
        match r {
            Some(s) => json_compact_of(text@) == Some(s@),
            None => json_compact_of(text@) is None,
        },
{
    match serde_json::from_str::<serde_json::Value>(text) {
        Ok(v) => Some(v.to_string()),
        Err(_) => None,
    }
}

/// Parses `doc` and takes `Value::get(index)`, printed compactly.
#[verifier::external_body]
fn json_index_child(doc: &str, index: usize) -> (r: Option<String>)
    ensures
        match r {
            Some(s) => json_index_child_of(doc@, index as nat) == Some(s@),
            None => json_index_child_of(doc@, index as nat) is None,
        },
{
    match serde_json::from_str::<serde_json::Value>(doc) {
        Ok(v) => v.get(index).map(|c| c.to_string()),
        Err(_) => None,
    }
}

/// Parses `doc` and takes `Value::get(key)`, printed compactly.
#[verifier::external_body]
fn json_key_child(doc: &str, key: &str) -> (r: Option<String>)
    ensures
        match r {
            Some(s) => json_key_child_of(doc@, key@) == Some(s@),
            None => json_key_child_of(doc@, key@) is None,
        },
{
    match serde_json::from_str::<serde_json::Value>(doc) {
        Ok(v) => v.get(key).map(|c| c.to_string()),
        Err(_) => None,
    }
}

/// Parses `doc` and, for a `Value::String`, gives its content.
#[verifier::external_body]
fn json_string(doc: &str) -> (r: Option<String>)
    ensures
        match r {
            Some(s) => json_string_of(doc@) == Some(s@),
            None => json_string_of(doc@) is None,
        },
{
    match serde_json::from_str::<serde_json::Value>(doc) {
        Ok(serde_json::Value::String(s)) => Some(s),
        _ => None,
    }
}

/// One step of a path: a segment that reads as a `usize` indexes an array,
/// any other segment names an object member.
pub open spec fn json_step(doc: Seq<char>, segment: Seq<char>) -> Option<Seq<char>> {
    match parse_usize(segment) {
        Some(i) => json_index_child_of(doc, i),
        None => json_key_child_of(doc, segment),
    }
}

/// The JSON text reached from `doc` by following the segments in order.
pub open spec fn json_walk(doc: Seq<char>, segments: Seq<Seq<char>>) -> Option<Seq<char>>
    decreases segments.len(),
{
    if segments.len() == 0 {
        Some(doc)
    } else {
        match json_step(doc, segments[0]) {
            Some(child) => json_walk(child, segments.drop_first()),
            None => None,
        }
    }
}

/// The value found at a dotted path in a JSON text: a string's content, any
/// other value as compact JSON; `None` when a segment is missing.
pub open spec fn json_path_value(doc: Seq<char>, path: Seq<char>) -> Option<Seq<char>> {
    match json_walk(doc, split_char(path, '.')) {
        Some(v) => match json_string_of(v) {
            Some(s) => Some(s),
            None => Some(v),
        },
        None => None,
    }
}

/// Follows the dotted `path` (segments separated by `.`) through the JSON
/// text `doc`: numeric segments index arrays, others name object members.
/// A string found there is returned without quotes, any other value as
/// compact JSON.
pub fn extract_json_path(doc: &str, path: &str) -> (r: Option<String>)
    ensures
        match r {
            Some(s) => json_path_value(doc@, path@) == Some(s@),
            None => json_path_value(doc@, path@) is None,
        },
{
    let p = chars_of(path);
    let parts = split_chars(&p, '.');
    let ghost segs: Seq<Seq<char>> = parts@.map_values(|v: Vec<char>| v@);
    assert(segs =~= split_char(path@, '.'));
    let mut current: String = string_of(&chars_of(doc));
    let mut i: usize = 0;
    proof {
        assert(segs.skip(0) =~= segs);
    }
    while i < parts.len()
        invariant
            i <= parts@.len(),
            segs == parts@.map_values(|v: Vec<char>| v@),
            segs == split_char(path@, '.'),
            json_walk(doc@, segs) == json_walk(current@, segs.skip(i as int)),
        decreases parts.len() - i,
    {
        proof {
            assert(segs.skip(i as int)[0] == parts@[i as int]@);
            assert(segs.skip(i as int).drop_first() =~= segs.skip(i + 1));
        }
        let step = match parse_usize_chars(&parts[i]) {
            Some(idx) => json_index_child(current.as_str(), idx),
            None => {
                let key = string_of(&parts[i]);
                json_key_child(current.as_str(), key.as_str())
            },
        };
        match step {
            Some(child) => {
                current = child;
            },
            None => {
                proof {
                    assert(json_step(current@, segs.skip(i as int)[0]) is None);
                    assert(json_walk(current@, segs.skip(i as int)) is None);
                }
                return None;
            },
        }
        i = i + 1;
    }
    proof {
        assert(segs.skip(i as int).len() == 0);
    }
    match json_string(current.as_str()) {
        Some(s) => Some(s),
        None => Some(current),
    }
}

} // verus!

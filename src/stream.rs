//! The newline-delimited JSON stream of a prompt enhancement: framing into
//! lines, and the text each line adds.

use vstd::prelude::*;
use vstd::slice::slice_to_vec;
use vstd::string::*;
use crate::text::{trim_white_space, trimmed};

verus! {

/// The text of `bytes` decoded as UTF-8, invalid sequences replaced.
pub uninterp spec fn utf8_lossy_of(bytes: Seq<u8>) -> Seq<char>;

/// The string value of the member `key` of the JSON text `json`; none if
/// `json` does not parse, is not an object, or that member is missing or
/// not a string.
pub uninterp spec fn json_str_member_of(json: Seq<char>, key: Seq<char>) -> Option<Seq<char>>;

/// Relies on `String::from_utf8_lossy`: the text depends on the bytes alone.
#[verifier::external_body]
fn lossy_text(bytes: &[u8]) -> (r: String)
    ensures
        r@ == utf8_lossy_of(bytes@),
{
    String::from_utf8_lossy(bytes).into_owned()
}

/// Relies on `serde_json::from_str` into a `serde_json::Value`, then
/// `Value::get` and `Value::as_str`: the result depends on the text and the
/// key alone.
#[verifier::external_body]
fn json_str_member(json: &str, key: &str) -> (r: Option<String>)
    ensures
        match r {
            Some(t) => json_str_member_of(json@, key@) == Some(t@),
            None => json_str_member_of(json@, key@) is None,
        },
{
    match serde_json::from_str::<serde_json::Value>(json) {
        Ok(v) => v.get(key).and_then(|t| t.as_str()).map(|t| t.to_string()),
        Err(_) => None,
    }
}

/// The text one line of the stream adds: its `text` member, once the line
/// is decoded and trimmed; nothing for a blank or unreadable line.
pub open spec fn line_text_of(line: Seq<u8>) -> Seq<char> {
    let t = trimmed(utf8_lossy_of(line));
    if t.len() == 0 {
        Seq::empty()
    } else {
        match json_str_member_of(t, "text"@) {
            Some(x) => x,
            None => Seq::empty(),
        }
    }
}

/// The text of one line of the stream.
pub fn line_text(line: &[u8]) -> (r: String)
    ensures
        r@ == line_text_of(line@),
{
    let decoded = lossy_text(line);
    let t = trim_white_space(decoded.as_str());
    if t.as_str().is_empty() {
        return String::new();
    }
    match json_str_member(t.as_str(), "text") {
        Some(x) => x,
        None => String::new(),
    }
}

pub open spec fn no_newline(s: Seq<u8>) -> bool {
    forall|i: int| 0 <= i < s.len() ==> #[trigger] s[i] != 10
}

/// The lines, each followed by its newline.
pub open spec fn joined_lines(lines: Seq<Seq<u8>>) -> Seq<u8>
    decreases lines.len(),
{
    if lines.len() == 0 {
        Seq::empty()
    } else {
        joined_lines(lines.drop_last()) + lines.last().push(10)
    }
}

/// Splits received bytes into the complete lines (without their newlines)
/// and the partial line after the last newline.
pub fn take_lines(buffer: &[u8]) -> (r: (Vec<Vec<u8>>, Vec<u8>))
    ensures
        joined_lines(r.0@.map_values(|l: Vec<u8>| l@)) + r.1@ == buffer@,
        forall|i: int| 0 <= i < r.0@.len() ==> no_newline(#[trigger] r.0@[i]@),
        no_newline(r.1@),
{
    let mut lines: Vec<Vec<u8>> = Vec::new();
    let mut start: usize = 0;
    let mut i: usize = 0;
    while i < buffer.len()
        invariant
            start <= i <= buffer@.len(),
            joined_lines(lines@.map_values(|l: Vec<u8>| l@)) == buffer@.take(start as int),
            forall|k: int| 0 <= k < lines@.len() ==> no_newline(#[trigger] lines@[k]@),
            forall|k: int| start <= k < i ==> #[trigger] buffer@[k] != 10,
        decreases buffer@.len() - i,
    {
        if buffer[i] == 10 {
            let line = slice_to_vec(&buffer[start..i]);
            let ghost before = lines@.map_values(|l: Vec<u8>| l@);
            lines.push(line);
            proof {
                let now = lines@.map_values(|l: Vec<u8>| l@);
                assert(now =~= before.push(line@));
                assert(now.drop_last() =~= before);
                assert(buffer@.take(i + 1) =~= buffer@.take(start as int) + line@.push(10));
                assert forall|k: int| 0 <= k < lines@.len() implies no_newline(#[trigger] lines@[k]@) by {
                    if k == lines@.len() - 1 {
                        assert(lines@[k]@ == buffer@.subrange(start as int, i as int));
                    }
                }
            }
            start = i + 1;
        }
        i = i + 1;
    }
    let rest = slice_to_vec(&buffer[start..buffer.len()]);
    assert(buffer@.take(start as int) + rest@ =~= buffer@);
    (lines, rest)
}

} // verus!

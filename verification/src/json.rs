use vstd::prelude::*;

use crate::task::{str_pairs, strs};

verus! {

/// The lowercase hexadecimal digit character for a value from 0 to 15.
pub open spec fn hex_char_lower(d: int) -> char {
    if d < 10 {
        (d + 48) as char
    } else {
        (d + 87) as char
    }
}

/// How one character is written inside a JSON string literal: `"` and `\`
/// get a backslash escape, the control characters backspace, tab, line feed,
/// form feed and carriage return get their short escapes, every other
/// control character below space is written as `\u00XX` with lowercase hex
/// digits, and all remaining characters stand for themselves.
pub open spec fn spec_escape_char(c: char) -> Seq<char> {
    if c == '"' {
        seq!['\\', '"']
    } else if c == '\\' {
        seq!['\\', '\\']
    } else if c == '\u{8}' {
        seq!['\\', 'b']
    } else if c == '\t' {
        seq!['\\', 't']
    } else if c == '\n' {
        seq!['\\', 'n']
    } else if c == '\u{c}' {
        seq!['\\', 'f']
    } else if c == '\r' {
        seq!['\\', 'r']
    } else if (c as int) < 32 {
        seq!['\\', 'u', '0', '0', hex_char_lower((c as int) / 16), hex_char_lower((c as int) % 16)]
    } else {
        seq![c]
    }
}

pub open spec fn spec_escape_chars(s: Seq<char>) -> Seq<char>
    decreases s.len(),
{
    if s.len() == 0 {
        Seq::empty()
    } else {
        spec_escape_char(s[0]) + spec_escape_chars(s.drop_first())
    }
}

/// The JSON string literal denoting `s`: a double quote, the escaped
/// characters, and a closing double quote.
pub open spec fn spec_json_quote(s: Seq<char>) -> Seq<char> {
    seq!['"'] + spec_escape_chars(s) + seq!['"']
}

/// Relies on `serde_json::to_string` for `&str`: it writes an opening `"`,
/// each character escaped as [`spec_escape_char`] says (the serializer
/// escapes per UTF-8 byte, but only bytes below 0x20 plus `"` and `\` are
/// affected, so the byte-wise and character-wise descriptions agree), and a
/// closing `"`. Serializing a string never fails, so the unwrap never runs.
#[verifier::external_body]
pub fn json_quote(s: &str) -> (r: String)
    ensures
        r@ == spec_json_quote(s@),
{
    serde_json::to_string(s).unwrap()
}

/// The members of the one JSON object that `s` is, each value rendered as
/// its compact JSON text; nothing when `s` is not one JSON object. Parsing
/// and compact rendering are functions of the text alone, the same in every
/// process and on every machine.
pub uninterp spec fn json_members_of(s: Seq<char>) -> Option<Seq<(Seq<char>, Seq<char>)>>;

/// The string a JSON string literal denotes; nothing when `s` is not the
/// text of one JSON string.
pub uninterp spec fn json_text_string(s: Seq<char>) -> Option<Seq<char>>;

/// The strings a JSON array of strings holds; nothing when `s` is not the
/// text of one JSON array of strings.
pub uninterp spec fn json_text_strings(s: Seq<char>) -> Option<Seq<Seq<char>>>;

/// The members of each object in a JSON array of objects, values rendered
/// as their compact JSON text; nothing when `s` is not the text of one JSON
/// array of objects.
pub uninterp spec fn json_text_objects(s: Seq<char>) -> Option<Seq<Seq<(Seq<char>, Seq<char>)>>>;

/// Relies on `serde_json::from_str` for `serde_json::Map<String, Value>`
/// and on `serde_json::to_string` for each member value: `Some` exactly
/// when `s` is one complete JSON object (with nothing but whitespace around
/// it), and then the object's members with their values in compact JSON
/// text. The map keeps one entry per key, so the returned keys are
/// distinct; a `Value` always serializes, so the unwrap never runs.
#[verifier::external_body]
pub fn parse_object(s: &str) -> (r: Option<Vec<(String, String)>>)
    ensures
        match r {
            Some(members) => json_members_of(s@) == Some(str_pairs(members@)) && (forall|
                i: int,
                j: int,
            |
                0 <= i < j < members@.len() ==> (#[trigger] members@[i]).0@ != (
                #[trigger] members@[j]).0@),
            None => json_members_of(s@) is None,
        },
{
    match serde_json::from_str::<serde_json::Map<String, serde_json::Value>>(s) {
        Ok(m) => Some(
            m.into_iter().map(|(k, v)| (k, serde_json::to_string(&v).unwrap())).collect(),
        ),
        Err(_) => None,
    }
}

/// Relies on `serde_json::from_str` for `String`: `Some` with the denoted
/// string exactly when `s` is the text of one JSON string.
#[verifier::external_body]
pub fn read_json_string(s: &str) -> (r: Option<String>)
    ensures
        match r {
            Some(t) => json_text_string(s@) == Some(t@),
            None => json_text_string(s@) is None,
        },
{
    serde_json::from_str::<String>(s).ok()
}

/// Relies on `serde_json::from_str` for `Vec<String>`: `Some` with the
/// denoted strings exactly when `s` is the text of one JSON array of
/// strings.
#[verifier::external_body]
pub fn read_json_strings(s: &str) -> (r: Option<Vec<String>>)
    ensures
        match r {
            Some(l) => json_text_strings(s@) == Some(strs(l@)),
            None => json_text_strings(s@) is None,
        },
{
    serde_json::from_str::<Vec<String>>(s).ok()
}

/// The views of a vector of member vectors.
pub open spec fn member_views(v: Seq<Vec<(String, String)>>) -> Seq<Seq<(Seq<char>, Seq<char>)>> {
    v.map_values(|o: Vec<(String, String)>| str_pairs(o@))
}

/// Relies on `serde_json::from_str` for `Vec<serde_json::Map<String,
/// Value>>` and on `serde_json::to_string` for each member value: `Some`
/// with each object's members (values in compact JSON text) exactly when
/// `s` is the text of one JSON array of objects. A `Value` always
/// serializes, so the unwrap never runs.
#[verifier::external_body]
pub fn read_json_objects(s: &str) -> (r: Option<Vec<Vec<(String, String)>>>)
    ensures
        match r {
            Some(objs) => json_text_objects(s@) == Some(member_views(objs@)),
            None => json_text_objects(s@) is None,
        },
{
    match serde_json::from_str::<Vec<serde_json::Map<String, serde_json::Value>>>(s) {
        Ok(v) => Some(
            v.into_iter().map(
                |m|
                    m.into_iter().map(
                        |(k, x)| (k, serde_json::to_string(&x).unwrap()),
                    ).collect(),
            ).collect(),
        ),
        Err(_) => None,
    }
}

} // verus!

//! JSON and TOML value fragments, through `serde_json` and `toml`.
//!
//! The step format carries JSON values (`with:`, `input:`, `output:`,
//! `call:`) inline. The library keeps a value as its compact JSON text and
//! leaves the JSON grammar itself to `serde_json`; each reading function
//! below makes one call into it (or into `toml`) and says what it returns
//! over a named result. Nothing here states what those names are on given
//! text: that is the outside crates' behaviour, which the tests exercise.
//! Writing a string as JSON is short enough to state, and is proved.

use vstd::prelude::*;
use crate::text::{chars_of, string_of};

verus! {

/// What `serde_json` makes of a text: `Ok` with the compact rendering of the
/// value it parses to, or `Err` with its error message.
pub uninterp spec fn json_decoded(text: Seq<char>) -> Result<Seq<char>, Seq<char>>;

/// The entries of a JSON object text, keys with the compact text of their
/// values, in the order `serde_json`'s map keeps them; `None` when the text is
/// not an object.
pub uninterp spec fn json_entries(text: Seq<char>) -> Option<Seq<(Seq<char>, Seq<char>)>>;

/// The items of a JSON array text, each as the compact text of its value;
/// `None` when the text is not an array.
pub uninterp spec fn json_items(text: Seq<char>) -> Option<Seq<Seq<char>>>;

/// The content of a JSON string text; `None` when the text is not a string.
pub uninterp spec fn json_string_content(text: Seq<char>) -> Option<Seq<char>>;

/// The lower-case hex digit of `d`, for `d < 16`.
pub open spec fn hex_digit(d: int) -> char {
    "0123456789abcdef"@[d]
}

/// How a JSON string writes one character: a quote and a backslash behind
/// a backslash, backspace, tab, line feed, form feed and carriage return as
/// their short escapes, the other characters below U+0020 as `\u00XX` with
/// lower-case hex digits, and every other character as itself.
pub open spec fn escaped_char(c: char) -> Seq<char> {
    if c == '"' {
        seq!['\\', '"']
    } else if c == '\\' {
        seq!['\\', '\\']
    } else if c == '\u{8}' {
        seq!['\\', 'b']
    } else if c == '\t' {
        seq!['\\', 't']
    } else if c == '\n' {
        seq!['\\', 'n']
    } else if c == '\u{c}' {
        seq!['\\', 'f']
    } else if c == '\r' {
        seq!['\\', 'r']
    } else if (c as u32) < 0x20 {
        seq!['\\', 'u', '0', '0', hex_digit((c as u32) as int / 16), hex_digit((c as u32) as int % 16)]
    } else {
        seq![c]
    }
}

pub open spec fn escaped(s: Seq<char>) -> Seq<char>
    decreases s.len(),
{
    if s.len() == 0 {
        Seq::empty()
    } else {
        escaped(s.drop_last()) + escaped_char(s.last())
    }
}

/// The compact JSON text of a string value: quoted, and escaped as
/// `serde_json` writes it.
pub open spec fn json_quoted(s: Seq<char>) -> Seq<char> {
    seq!['"'] + escaped(s) + seq!['"']
}

/// The compact JSON text of a TOML document, `None` when it does not parse
/// or does not convert.
pub uninterp spec fn toml_as_json(doc: Seq<char>) -> Option<Seq<char>>;

/// Parses `text` with `serde_json::from_str::<serde_json::Value>` and renders
/// the value with its compact `Display`, or returns the error's message.
/// The contract claims only that the outcome is a function of the text.
#[verifier::external_body]
pub(crate) fn json_decode(text: &str) -> (r: Result<String, String>)
    ensures
        match r {
            Ok(t) => json_decoded(text@) == Ok::<Seq<char>, Seq<char>>(t@),
            Err(e) => json_decoded(text@) == Err::<Seq<char>, Seq<char>>(e@),
        },
{
    match serde_json::from_str::<serde_json::Value>(text) {
        Ok(v) => Ok(v.to_string()),
        Err(e) => Err(e.to_string()),
    }
}

/// Parses `text` with `serde_json::from_str::<serde_json::Value>` and, when it
/// is an object, lists its entries with each value in compact `Display` form.
/// The contract claims only that the outcome is a function of the text.
#[verifier::external_body]
pub(crate) fn json_object_entries(text: &str) -> (r: Option<Vec<(String, String)>>)
    ensures
        match r {
            Some(v) => json_entries(text@) == Some(
                v@.map_values(|e: (String, String)| (e.0@, e.1@)),
            ),
            None => json_entries(text@) is None,
        },
{
    match serde_json::from_str::<serde_json::Value>(text) {
        Ok(serde_json::Value::Object(m)) => Some(
            m.into_iter().map(|(k, v)| (k, v.to_string())).collect(),
        ),
        _ => None,
    }
}

/// Parses `text` with `serde_json::from_str::<serde_json::Value>` and, when it
/// is an array, lists its items in compact `Display` form. The contract
/// claims only that the outcome is a function of the text.
#[verifier::external_body]
pub(crate) fn json_array_items(text: &str) -> (r: Option<Vec<String>>)
    ensures
        match r {
            Some(v) => json_items(text@) == Some(v@.map_values(|e: String| e@)),
            None => json_items(text@) is None,
        },
{
    match serde_json::from_str::<serde_json::Value>(text) {
        Ok(serde_json::Value::Array(a)) => Some(a.iter().map(|v| v.to_string()).collect()),
        _ => None,
    }
}

/// Parses `text` with `serde_json::from_str::<serde_json::Value>` and, when it
/// is a string, returns its content. The contract claims only that the
/// outcome is a function of the text.
#[verifier::external_body]
pub(crate) fn json_string_of(text: &str) -> (r: Option<String>)
    ensures
        match r {
            Some(s) => json_string_content(text@) == Some(s@),
            None => json_string_content(text@) is None,
        },
{
    match serde_json::from_str::<serde_json::Value>(text) {
        Ok(serde_json::Value::String(s)) => Some(s),
        _ => None,
    }
}

fn push_escaped(out: &mut Vec<char>, c: char)
    ensures
        final(out)@ == old(out)@ + escaped_char(c),
{
    let ghost before = out@;
    if c == '"' {
        out.push('\\');
        out.push('"');
    } else if c == '\\' {
        out.push('\\');
        out.push('\\');
    } else if c == '\u{8}' {
        out.push('\\');
        out.push('b');
    } else if c == '\t' {
        out.push('\\');
        out.push('t');
    } else if c == '\n' {
        out.push('\\');
        out.push('n');
    } else if c == '\u{c}' {
        out.push('\\');
        out.push('f');
    } else if c == '\r' {
        out.push('\\');
        out.push('r');
    } else if (c as u32) < 0x20 {
        let digits = chars_of("0123456789abcdef");
        proof {
            reveal_strlit("0123456789abcdef");
        }
        let u = c as u32;
        out.push('\\');
        out.push('u');
        out.push('0');
        out.push('0');
        out.push(digits[(u / 16) as usize]);
        out.push(digits[(u % 16) as usize]);
    } else {
        out.push(c);
    }
    assert(out@ =~= before + escaped_char(c));
}

/// The compact JSON text of a string value, as `serde_json` renders a
/// `Value::String`.
pub(crate) fn json_quote(s: &str) -> (r: String)
    ensures
        r@ == json_quoted(s@),
{
    let cs = chars_of(s);
    let mut out: Vec<char> = Vec::new();
    out.push('"');
    let mut k: usize = 0;
    assert(cs@.take(0) =~= Seq::<char>::empty());
    while k < cs.len()
        invariant
            k <= cs@.len(),
            out@ == seq!['"'] + escaped(cs@.take(k as int)),
        decreases cs@.len() - k,
    {
        assert(cs@.take(k + 1).drop_last() =~= cs@.take(k as int));
        push_escaped(&mut out, cs[k]);
        k = k + 1;
    }
    assert(cs@.take(cs@.len() as int) =~= cs@);
    out.push('"');
    assert(out@ =~= json_quoted(s@));
    string_of(&out)
}

/// Parses `doc` with `toml::from_str::<toml::Value>` and converts the table
/// with `serde_json::to_value`, rendering it in compact `Display` form. The
/// contract claims only that the outcome is a function of the document.
#[verifier::external_body]
pub(crate) fn toml_document_json(doc: &str) -> (r: Option<String>)
    ensures
        match r {
            Some(t) => toml_as_json(doc@) == Some(t@),
            None => toml_as_json(doc@) is None,
        },
{
    match toml::from_str::<toml::Value>(doc) {
        Ok(v) => serde_json::to_value(v).ok().map(|j| j.to_string()),
        Err(_) => None,
    }
}

} // verus!

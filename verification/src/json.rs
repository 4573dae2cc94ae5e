use vstd::prelude::*;

use crate::text::digit_char;

verus! {

/// Whether `serde_json` reads `text` as a JSON document.
pub uninterp spec fn json_parses(text: Seq<char>) -> bool;

/// The lower-case hexadecimal digit of `d`.
pub open spec fn hex_digit(d: nat) -> char {
    if d < 10 {
        digit_char(d)
    } else if d == 10 {
        'a'
    } else if d == 11 {
        'b'
    } else if d == 12 {
        'c'
    } else if d == 13 {
        'd'
    } else if d == 14 {
        'e'
    } else {
        'f'
    }
}

/// One character inside a JSON string: the quote and the backslash get a
/// backslash, the usual control characters their short escapes, the other
/// control characters `\u00XX`, and every other character stays.
pub open spec fn json_escape_char(c: char) -> Seq<char> {
    let code = c as u32;
    if c == '"' {
        seq!['\\', '"']
    } else if c == '\\' {
        seq!['\\', '\\']
    } else if code == 8 {
        seq!['\\', 'b']
    } else if code == 12 {
        seq!['\\', 'f']
    } else if code == 10 {
        seq!['\\', 'n']
    } else if code == 13 {
        seq!['\\', 'r']
    } else if code == 9 {
        seq!['\\', 't']
    } else if code < 32 {
        seq!['\\', 'u', '0', '0', hex_digit((code / 16) as nat), hex_digit((code % 16) as nat)]
    } else {
        seq![c]
    }
}

/// The characters of `s`, each escaped for a JSON string.
pub open spec fn json_escaped(s: Seq<char>) -> Seq<char>
    decreases s.len(),
{
    if s.len() == 0 {
        Seq::empty()
    } else {
        json_escaped(s.drop_last()) + json_escape_char(s.last())
    }
}

/// The JSON string literal of the text `s`: its escaped characters between
/// double quotes.
pub open spec fn json_string_literal(s: Seq<char>) -> Seq<char> {
    seq!['"'] + json_escaped(s) + seq!['"']
}

/// Calls `serde_json::from_str::<serde_json::Value>` on `text` and reports
/// whether it succeeded; the contract claims only that this answer is the
/// one `json_parses` names for the same text.
#[verifier::external_body]
pub(crate) fn parses_as_json(text: &str) -> (res: bool)
    ensures
        res == json_parses(text@),
{
    serde_json::from_str::<serde_json::Value>(text).is_ok()
}

/// Calls `serde_json::to_string` on the text `s`; the contract claims that the
/// result is `json_string_literal(s)`, as `serde_json`'s string writer and its
/// table of escapes show.  Writing a `str` into a `String` does not fail in
/// `serde_json`, so the error arm, which would give an empty string, is never
/// taken.
#[verifier::external_body]
pub(crate) fn encode_json_string(s: &str) -> (res: String)
    ensures
        res@ == json_string_literal(s@),
{
    serde_json::to_string(s).unwrap_or_default()
}

} // verus!

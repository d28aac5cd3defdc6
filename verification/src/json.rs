//! The JSON text that `serde_json` writes for a string, and the string
//! fields it reads from a JSON object.

use vstd::prelude::*;

verus! {

/// The lowercase hexadecimal digit of `d` (for `d < 16`).
pub open spec fn hex_digit(d: nat) -> char {
    if d < 10 {
        (d + 48) as char
    } else {
        (d + 87) as char
    }
}

/// How one character is written inside a JSON string: `"` and `\` and the
/// control characters below 0x20 are escaped (`\b`, `\t`, `\n`, `\f`, `\r`,
/// else `\u00XX` in lowercase hex); any other character stands as it is.
pub open spec fn json_escape_char(c: char) -> Seq<char> {
    if c == '"' {
        seq!['\\', '"']
    } else if c == '\\' {
        seq!['\\', '\\']
    } else if c == '\u{8}' {
        seq!['\\', 'b']
    } else if c == '\t' {
        seq!['\\', 't']
    } else if c == '\n' {
        seq!['\\', 'n']
    } else if c == '\u{c}' {
        seq!['\\', 'f']
    } else if c == '\r' {
        seq!['\\', 'r']
    } else if (c as u32) < 0x20 {
        seq!['\\', 'u', '0', '0', hex_digit((c as u32 / 16) as nat), hex_digit((c as u32 % 16) as nat)]
    } else {
        seq![c]
    }
}

/// The characters of `s`, each written as inside a JSON string.
pub open spec fn json_escape(s: Seq<char>) -> Seq<char>
    decreases s.len(),
{
    if s.len() == 0 {
        seq![]
    } else {
        json_escape(s.drop_last()) + json_escape_char(s.last())
    }
}

/// The JSON string literal of the text `s`: a quote, the escaped text, a quote.
pub open spec fn json_quoted(s: Seq<char>) -> Seq<char> {
    seq!['"'] + json_escape(s) + seq!['"']
}

/// What `serde_json` reads as a string from the field `key` of the JSON
/// text `json`: `None` when the text is not JSON, is not an object, has no
/// such field, or the field is not a string.
pub uninterp spec fn json_text_field(json: Seq<char>, key: Seq<char>) -> Option<Seq<char>>;

/// The JSON string literal of `s`.
///
/// Trusted: calls `serde_json::to_string` on the string slice and claims that
/// it gives `json_quoted(s@)`: serde_json writes a string into a `Vec`, which
/// cannot fail, quoting it and escaping each byte by its fixed escape table
/// (only ASCII bytes are escaped, so the escaping is the same per character).
#[verifier::external_body]
pub(crate) fn quote_json(s: &str) -> (r: String)
    ensures
        r@ == json_quoted(s@),
{
    serde_json::to_string(s).unwrap_or_default()
}

/// The string at the field `key` of the JSON object in `json`.
///
/// Trusted: parses `json` with `serde_json::from_str` into a
/// `serde_json::Value`, indexes it with `key` (which gives `Null` for a
/// missing field or a non-object) and reads it with `Value::as_str`; claims
/// only that the outcome is the named result `json_text_field` of the
/// characters of `json` and `key`.
#[verifier::external_body]
pub(crate) fn text_field(json: &str, key: &str) -> (r: Option<String>)
    ensures
        match r {
            Some(v) => json_text_field(json@, key@) == Some(v@),
            None => json_text_field(json@, key@) is None,
        },
{
    serde_json::from_str::<serde_json::Value>(json).ok().and_then(
        |v| v[key].as_str().map(|t| t.to_string()),
    )
}

} // verus!

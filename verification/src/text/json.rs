//! Texts as `serde_json` writes them.
use crate::text::make::{joined, strings};
use crate::text::scan::opt_string;
use vstd::prelude::*;

verus! {

/// A digit of a hexadecimal number.
pub open spec fn hex_digit(n: nat) -> char {
    if n < 10 {
        (n + '0' as nat) as char
    } else {
        (n - 10 + 'a' as nat) as char
    }
}

/// A character inside a JSON string: quotes, backslashes and control characters are
/// escaped.
pub open spec fn json_char(c: char) -> Seq<char> {
    let code = c as nat;
    if c == '"' {
        seq!['\\', '"']
    } else if c == '\\' {
        seq!['\\', '\\']
    } else if code == 8 {
        seq!['\\', 'b']
    } else if code == 9 {
        seq!['\\', 't']
    } else if code == 10 {
        seq!['\\', 'n']
    } else if code == 12 {
        seq!['\\', 'f']
    } else if code == 13 {
        seq!['\\', 'r']
    } else if code < 32 {
        seq!['\\', 'u', '0', '0', hex_digit(code / 16), hex_digit(code % 16)]
    } else {
        seq![c]
    }
}

/// The characters of a JSON string.
pub open spec fn json_chars(text: Seq<char>) -> Seq<char>
    decreases text.len(),
{
    if text.len() == 0 {
        Seq::empty()
    } else {
        json_chars(text.drop_last()) + json_char(text.last())
    }
}

/// A text as a JSON string.
pub open spec fn json_text(text: Seq<char>) -> Seq<char> {
    seq!['"'] + json_chars(text) + seq!['"']
}

/// `serde_json::to_string` on a string: the text in quotes, with quotes, backslashes
/// and control characters escaped. It cannot fail on a string.
#[verifier::external_body]
pub(crate) fn to_json_text(text: &str) -> (r: String)
    ensures
        r@ == json_text(text@),
{
    serde_json::to_string(text).unwrap_or_default()
}

/// A list of texts as a JSON array.
pub open spec fn json_list(items: Seq<Seq<char>>) -> Seq<char> {
    seq!['['] + joined(items.map_values(|t: Seq<char>| json_text(t)), seq![',']) + seq![']']
}

/// `serde_json::to_string` on a list of strings: the strings in brackets, separated by
/// commas. It cannot fail on strings.
#[verifier::external_body]
pub(crate) fn to_json_list(items: &Vec<String>) -> (r: String)
    ensures
        r@ == json_list(strings(items@)),
{
    serde_json::to_string(items).unwrap_or_default()
}

/// The text that a JSON value holds at a pointer, such as `/a/b` for what stands under
/// `b` in what stands under `a`.
pub uninterp spec fn json_text_at(json: Seq<char>, pointer: Seq<char>) -> Option<Seq<char>>;

/// `serde_json::from_str`, `serde_json::Value::pointer` and `serde_json::Value::as_str`:
/// the text at a pointer, or nothing where `json` is no JSON or holds no text there.
/// Nothing more is claimed than that the answer depends on the two texts alone.
#[verifier::external_body]
pub(crate) fn read_json_text(json: &str, pointer: &str) -> (r: Option<String>)
    ensures
        opt_string(r) == json_text_at(json@, pointer@),
{
    let value = serde_json::from_str::<serde_json::Value>(json).ok()?;
    value.pointer(pointer)?.as_str().map(str::to_owned)
}

} // verus!

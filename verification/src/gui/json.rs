//! Texts as JSON.

use vstd::prelude::*;
#[allow(unused_imports)]
use crate::text::hex_char;

verus! {

/// A character within a JSON text: quotes, backslashes and control characters are
/// escaped, and nothing else is.
pub open spec fn json_char(c: char) -> Seq<char> {
    if c == '"' {
        seq!['\\', '"']
    } else if c == '\\' {
        seq!['\\', '\\']
    } else if c == '\n' {
        seq!['\\', 'n']
    } else if c == '\r' {
        seq!['\\', 'r']
    } else if c == '\t' {
        seq!['\\', 't']
    } else if c as int == 8 {
        seq!['\\', 'b']
    } else if c as int == 12 {
        seq!['\\', 'f']
    } else if (c as int) < 32 {
        seq![
            '\\',
            'u',
            '0',
            '0',
            hex_char((c as int / 16) as nat, false),
            hex_char((c as int % 16) as nat, false),
        ]
    } else {
        seq![c]
    }
}

/// The characters of a text within a JSON text.
pub open spec fn json_chars(s: Seq<char>) -> Seq<char>
    decreases s.len(),
{
    if s.len() == 0 {
        seq![]
    } else {
        json_chars(s.drop_last()) + json_char(s.last())
    }
}

/// A text as JSON.
pub open spec fn json_text(s: Seq<char>) -> Seq<char> {
    seq!['"'] + json_chars(s) + seq!['"']
}

/// `serde_json::to_string` of a text: the text in quotes, with quotes,
/// backslashes and control characters escaped. It fails for no text.
#[verifier::external_body]
fn text_to_json(s: &str) -> (r: Option<String>)
    ensures
        match r {
            Some(j) => j@ == json_text(s@),
            None => false,
        },
{
    serde_json::to_string(s).ok()
}

/// A text as JSON.
pub fn to_json(s: &str) -> (r: String)
    ensures
        r@ == json_text(s@),
{
    match text_to_json(s) {
        Some(j) => j,
        None => crate::text::own("\"\""),
    }
}

} // verus!

//! How an old text is read, and which encoding is taken where none is named.

use crate::legacy_text::{
    better, big5_decoded, chars_score, gbk_decoded, has_bom, hint_score, hints, mode_named,
    mode_number, numbered_mode, text_of, text_score, until_zero, without_bom, LegacyEncoding,
    TextEncodingMode,
};
use crate::text::ascii_lower_of;
use crate::text_laws::{blank, law_trim, tight};
use vstd::prelude::*;
use vstd::utf8::valid_utf8;

verus! {

/// The names of the encodings, in capitals or small letters and with white space around
/// them; any other name leaves the choice open.
pub proof fn law_encoding_names(a: Seq<char>, word: Seq<char>, b: Seq<char>)
    requires
        blank(a) && blank(b),
        tight(word),
    ensures
        ({
            let w = ascii_lower_of(word);
            let mode = mode_named(a + word + b);
            &&& w == "big5"@ || w == "cp950"@ || w == "traditional"@ || w == "trad"@ || w == "tw"@
                ==> mode == TextEncodingMode::Big5
            &&& w == "gbk"@ || w == "gb2312"@ || w == "simplified"@ || w == "simp"@ || w == "cn"@
                ==> mode == TextEncodingMode::Gbk
            &&& w == "auto"@ || w.len() == 0 ==> mode == TextEncodingMode::Auto
            &&& w.len() > 0 && w[0] != 'b' && w[0] != 'c' && w[0] != 't' && w[0] != 'g' && w[0]
                != 's' ==> mode == TextEncodingMode::Auto
        }),
{
    law_trim(a, word, b);
    reveal_strlit("big5");
    reveal_strlit("cp950");
    reveal_strlit("traditional");
    reveal_strlit("trad");
    reveal_strlit("tw");
    reveal_strlit("gbk");
    reveal_strlit("gb2312");
    reveal_strlit("simplified");
    reveal_strlit("simp");
    reveal_strlit("cn");
    reveal_strlit("auto");
    assert("big5"@[0] == 'b' && "cp950"@[0] == 'c' && "traditional"@[0] == 't' && "trad"@[0] == 't'
        && "tw"@[0] == 't' && "gbk"@[0] == 'g' && "gb2312"@[0] == 'g' && "simplified"@[0] == 's'
        && "simp"@[0] == 's' && "cn"@[0] == 'c' && "auto"@[0] == 'a');
    assert("cn"@[1] == 'n' && "cp950"@[1] == 'p');
}

/// The numbers by which the encodings are kept.
pub proof fn law_encoding_numbers(v: u8)
    ensures
        mode_number(TextEncodingMode::Auto) == 0,
        mode_number(TextEncodingMode::Big5) == 1,
        mode_number(TextEncodingMode::Gbk) == 2,
        v > 2 ==> numbered_mode(v) == TextEncodingMode::Auto,
        v <= 2 ==> mode_number(numbered_mode(v)) == v,
{
}

/// A text that is UTF-8, a byte order mark in front aside, is read as such whatever
/// encoding is asked for; any other is read in the encoding that is asked for, and in the
/// better one where none is.
pub proof fn law_encodings_in_turn(bytes: Seq<u8>, mode: TextEncodingMode)
    ensures
        ({
            let b = if bytes.len() >= 3 && bytes[0] == 0xEF && bytes[1] == 0xBB && bytes[2]
                == 0xBF {
                bytes.skip(3)
            } else {
                bytes
            };
            &&& valid_utf8(b) ==> text_of(bytes, mode).1 == LegacyEncoding::Utf8
                && vstd::utf8::encode_utf8(text_of(bytes, mode).0) == b
            &&& !valid_utf8(b) && mode == TextEncodingMode::Big5 ==> text_of(bytes, mode) == (
                big5_decoded(b).0,
                LegacyEncoding::Big5,
            )
            &&& !valid_utf8(b) && mode == TextEncodingMode::Gbk ==> text_of(bytes, mode) == (
                gbk_decoded(b).0,
                LegacyEncoding::Gbk,
            )
            &&& !valid_utf8(b) && mode == TextEncodingMode::Auto ==> text_of(bytes, mode).1
                == better(big5_decoded(b), gbk_decoded(b))
            &&& text_of(bytes, mode).1 == LegacyEncoding::Big5 ==> text_of(bytes, mode).0
                == big5_decoded(b).0
            &&& text_of(bytes, mode).1 == LegacyEncoding::Gbk ==> text_of(bytes, mode).0
                == gbk_decoded(b).0
        }),
{
    let b = without_bom(bytes);
    if valid_utf8(b) {
        vstd::utf8::decode_utf8_encode_utf8(b);
    }
}

/// A reading without errors is better than one with errors; of two of a kind the
/// one with the higher score is, and Big5 where they score alike.
pub proof fn law_better_reading(b: Seq<char>, g: Seq<char>, broken: bool)
    ensures
        better((b, false), (g, true)) == LegacyEncoding::Big5,
        better((b, true), (g, false)) == LegacyEncoding::Gbk,
        better((b, broken), (g, broken)) == (if chars_score(g) + hint_score(g, true) > chars_score(
            b,
        ) + hint_score(b, false) {
            LegacyEncoding::Gbk
        } else {
            LegacyEncoding::Big5
        }),
{
}

/// What a character says of a reading: an ideograph speaks for it, plain signs and
/// punctuation do a little, a replacement or a control character speaks strongly against
/// it, and anything else a little.
pub proof fn law_character_scores(s: Seq<char>, c: char)
    ensures
        chars_score(Seq::empty()) == 0,
        '\u{4E00}' <= c <= '\u{9FFF}' ==> chars_score(s.push(c)) == chars_score(s) + 4,
        '0' <= c <= '9' || 'A' <= c <= 'Z' || 'a' <= c <= 'z' || c == ' ' ==> chars_score(s.push(c))
            == chars_score(s) + 1,
        '\u{3000}' <= c <= '\u{303F}' || '\u{FF00}' <= c <= '\u{FFEF}' ==> chars_score(s.push(c))
            == chars_score(s) + 1,
        c == '\u{FFFD}' || !(c >= ' ') || '\u{7F}' <= c <= '\u{9F}' ==> chars_score(s.push(c))
            == chars_score(s) - 80,
        c == '(' || c == ')' || c == '[' || c == ']' || c == '+' || c == '-' || c == ',' || c == '.'
            || c == ':' || c == '_' || c == '/' || c == '#' || c == '=' || c == '<' || c == '>' || c
            == '"' || c == '\'' || c == ';' ==> chars_score(s.push(c)) == chars_score(s) + 1,
        c == '!' || c == '?' || c == '*' || c == '@' || c == '%' || c == '&' ==> chars_score(
            s.push(c),
        ) == chars_score(s) - 2,
        '\u{A0}' <= c < '\u{3000}' || '\u{3040}' <= c < '\u{4E00}' || '\u{A000}' <= c < '\u{FF00}'
            ==> chars_score(s.push(c)) == chars_score(s) - 2,
{
    assert(s.push(c).drop_last() =~= s);
    assert(s.push(c).last() == c);
}

/// An error takes two hundred off a score.
pub proof fn law_errors_cost(s: Seq<char>)
    ensures
        text_score(s, false) == chars_score(s),
        text_score(s, true) == chars_score(s) - 200,
{
}

/// A character that is common in one script speaks for that script, and half as much
/// against the other.
pub proof fn law_hints(s: Seq<char>, c: char, simplified: bool)
    ensures
        hint_score(Seq::empty(), simplified) == 0,
        hints(simplified).contains(c) && !hints(!simplified).contains(c) ==> {
            &&& hint_score(s.push(c), simplified) == hint_score(s, simplified) + 12
            &&& hint_score(s.push(c), !simplified) == hint_score(s, !simplified) - 6
        },
        hints(simplified).contains(c) && hints(!simplified).contains(c) ==> hint_score(
            s.push(c),
            simplified,
        ) == hint_score(s, simplified) + 6,
        !hints(simplified).contains(c) && !hints(!simplified).contains(c) ==> hint_score(
            s.push(c),
            simplified,
        ) == hint_score(s, simplified),
{
    assert(s.push(c).drop_last() =~= s);
    assert(s.push(c).last() == c);
}

/// A byte order mark is the three bytes EF, BB and BF.
pub proof fn law_byte_order_mark(b: Seq<u8>)
    ensures
        has_bom(seq![0xEFu8, 0xBB, 0xBF] + b),
        without_bom(seq![0xEFu8, 0xBB, 0xBF] + b) == b,
        b.len() < 3 || b[0] != 0xEF || b[1] != 0xBB || b[2] != 0xBF ==> without_bom(b) == b,
{
    assert((seq![0xEFu8, 0xBB, 0xBF] + b).skip(3) =~= b);
}

/// A text in memory ends before its first zero.
pub proof fn law_until_zero(a: Seq<u8>, b: Seq<u8>)
    requires
        !a.contains(0),
    ensures
        until_zero(a) == a,
        until_zero(a + seq![0u8] + b) == a,
    decreases a.len(),
{
    if a.len() > 0 {
        let t = a.skip(1);
        assert(a[0] != 0) by {
            assert(a.contains(a[0]));
        }
        assert(!t.contains(0)) by {
            if t.contains(0) {
                let i = choose|i: int| 0 <= i < t.len() && t[i] == 0;
                assert(a[i + 1] == 0);
                assert(a.contains(0));
            }
        }
        law_until_zero(t, b);
        assert((a + seq![0u8] + b).skip(1) =~= t + seq![0u8] + b);
        assert(seq![a[0]] + t =~= a);
    } else {
        assert((a + seq![0u8] + b)[0] == 0);
    }
}

} // verus!

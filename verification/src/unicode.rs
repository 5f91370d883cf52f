//! Texts as UTF-8 bytes and as UTF-16 units.

use vstd::prelude::*;
use vstd::slice::slice_to_vec;
#[allow(unused_imports)]
use vstd::utf8::{decode_utf8, encode_utf8, valid_utf8};

verus! {

/// `char::from_u32` converts every number that is a character's and no other.
#[verifier::external_body]
fn char_from(x: u32) -> (r: Option<char>)
    ensures
        match r {
            Some(c) => c as int == x,
            None => 0xD800 <= x <= 0xDFFF || x > 0x10FFFF,
        },
{
    char::from_u32(x)
}

/// What is read of bytes that need not be UTF-8.
pub uninterp spec fn lossy_utf8(bytes: Seq<u8>) -> Seq<char>;

/// `String::from_utf8_lossy` depends on the bytes alone; of UTF-8 it gives the
/// text that the bytes encode.
#[verifier::external_body]
fn lossy_string(bytes: &[u8]) -> (r: String)
    ensures
        r@ == lossy_utf8(bytes@),
        valid_utf8(bytes@) ==> r@ == decode_utf8(bytes@),
{
    String::from_utf8_lossy(bytes).into_owned()
}

/// What is read of bytes that need not be UTF-8.
pub fn read_lossy(bytes: &[u8]) -> (r: String)
    ensures
        r@ == lossy_utf8(bytes@),
        valid_utf8(bytes@) ==> r@ == decode_utf8(bytes@),
{
    lossy_string(bytes)
}

/// `std::str::from_utf8` accepts exactly UTF-8 and gives the text that the
/// bytes encode.
#[verifier::external_body]
fn str_of(bytes: &[u8]) -> (r: Option<String>)
    ensures
        match r {
            Some(s) => valid_utf8(bytes@) && s@ == decode_utf8(bytes@),
            None => !valid_utf8(bytes@),
        },
{
    std::str::from_utf8(bytes).ok().map(str::to_owned)
}

/// The text that bytes encode, where they are UTF-8.
pub fn read_utf8(bytes: &[u8]) -> (r: Option<String>)
    ensures
        match r {
            Some(s) => valid_utf8(bytes@) && s@ == decode_utf8(bytes@),
            None => !valid_utf8(bytes@),
        },
{
    str_of(bytes)
}

/// The UTF-8 bytes of a text.
pub fn utf8_bytes(s: &str) -> (r: Vec<u8>)
    ensures
        r@ == encode_utf8(s@),
{
    slice_to_vec(s.as_bytes())
}

/// A character is its number, which lies in one of two ranges.
pub proof fn lemma_char(c: char)
    ensures
        0 <= c as int <= 0x10FFFF,
        !(0xD800 <= c as int <= 0xDFFF),
        c as u32 == c as int,
        (c as int) as char == c,
{
}

/// The first unit of a pair.
pub open spec fn is_high(u: u16) -> bool {
    0xD800 <= u <= 0xDBFF
}

/// The second unit of a pair.
pub open spec fn is_low(u: u16) -> bool {
    0xDC00 <= u <= 0xDFFF
}

/// The units of a character.
pub open spec fn char_units(c: char) -> Seq<u16> {
    if (c as int) < 0x10000 {
        seq![(c as int) as u16]
    } else {
        seq![
            (0xD800 + (c as int - 0x10000) / 0x400) as u16,
            (0xDC00 + (c as int - 0x10000) % 0x400) as u16,
        ]
    }
}

/// The UTF-16 units of a text.
pub open spec fn utf16_of(s: Seq<char>) -> Seq<u16>
    decreases s.len(),
{
    if s.len() == 0 {
        seq![]
    } else {
        utf16_of(s.drop_last()) + char_units(s.last())
    }
}

/// The character of a pair of units.
pub open spec fn pair_char(h: u16, l: u16) -> char {
    (0x10000 + (h - 0xD800) * 0x400 + (l - 0xDC00)) as char
}

/// The text that units encode, with U+FFFD for each unit that is half of a pair
/// only.
pub open spec fn lossy_utf16(u: Seq<u16>) -> Seq<char>
    decreases u.len(),
{
    if u.len() == 0 {
        seq![]
    } else if is_high(u[0]) && u.len() > 1 && is_low(u[1]) {
        seq![pair_char(u[0], u[1])] + lossy_utf16(u.skip(2))
    } else if is_high(u[0]) || is_low(u[0]) {
        seq!['\u{FFFD}'] + lossy_utf16(u.skip(1))
    } else {
        seq![u[0] as char] + lossy_utf16(u.skip(1))
    }
}

/// The UTF-16 units of a run of characters.
pub fn encode_utf16(s: &[char]) -> (r: Vec<u16>)
    ensures
        r@ == utf16_of(s@),
{
    let mut out: Vec<u16> = Vec::new();
    let mut i: usize = 0;
    while i < s.len()
        invariant
            i <= s@.len(),
            s.len() == s@.len(),
            out@ == utf16_of(s@.take(i as int)),
        decreases s@.len() - i,
    {
        let ghost before = out@;
        proof {
            lemma_char(s@[i as int]);
        }
        let c: u32 = s[i] as u32;
        assert(c == s@[i as int] as int);
        if c < 0x10000 {
            out.push(c as u16);
        } else {
            out.push((0xD800 + (c - 0x10000) / 0x400) as u16);
            out.push((0xDC00 + (c - 0x10000) % 0x400) as u16);
        }
        proof {
            let done = s@.take(i + 1);
            assert(done.drop_last() == s@.take(i as int));
            assert(done.last() == s@[i as int]);
            assert(out@ == before + char_units(s@[i as int]));
        }
        i += 1;
    }
    assert(s@.take(i as int) == s@);
    out
}

/// The text that units encode, with U+FFFD for each unit that is half of a pair
/// only.
pub fn decode_utf16(u: &[u16]) -> (r: Vec<char>)
    ensures
        r@ == lossy_utf16(u@),
{
    let mut out: Vec<char> = Vec::new();
    let mut i: usize = 0;
    assert(u@.skip(0) == u@);
    assert(Seq::<char>::empty() + lossy_utf16(u@) == lossy_utf16(u@));
    while i < u.len()
        invariant
            i <= u@.len(),
            u.len() == u@.len(),
            out@ + lossy_utf16(u@.skip(i as int)) == lossy_utf16(u@),
        decreases u@.len() - i,
    {
        let ghost before = out@;
        let ghost rest = u@.skip(i as int);
        let h: u32 = u[i] as u32;
        if 0xD800 <= h && h <= 0xDBFF && i + 1 < u.len() && 0xDC00 <= u[i + 1] && u[i + 1]
            <= 0xDFFF {
            let l: u32 = u[i + 1] as u32;
            match char_from(0x10000 + (h - 0xD800) * 0x400 + (l - 0xDC00)) {
                Some(c) => {
                    out.push(c);
                    proof {
                        lemma_char(c);
                        assert(rest[0] == u@[i as int] && rest[1] == u@[i + 1]);
                        assert(rest.skip(2) == u@.skip(i + 2));
                        assert(c == pair_char(rest[0], rest[1]));
                        assert(before + (seq![c] + lossy_utf16(rest.skip(2))) == out@
                            + lossy_utf16(rest.skip(2)));
                    }
                },
                None => {},
            }
            i += 2;
        } else {
            let c: char = match char_from(h) {
                Some(c) => c,
                None => '\u{FFFD}',
            };
            out.push(c);
            proof {
                lemma_char(c);
                assert(rest[0] == u@[i as int]);
                assert(rest.skip(1) == u@.skip(i + 1));
                assert(before + (seq![c] + lossy_utf16(rest.skip(1))) == out@ + lossy_utf16(
                    rest.skip(1),
                ));
            }
            i += 1;
        }
    }
    assert(u@.skip(i as int).len() == 0);
    assert(out@ + lossy_utf16(u@.skip(i as int)) == out@);
    out
}

proof fn lemma_utf16_front(c: char, s: Seq<char>)
    ensures
        utf16_of(seq![c] + s) == char_units(c) + utf16_of(s),
    decreases s.len(),
{
    let all = seq![c] + s;
    if s.len() == 0 {
        assert(all.drop_last() == Seq::<char>::empty());
        assert(all.last() == c);
        assert(utf16_of(all.drop_last()) == Seq::<u16>::empty());
        assert(utf16_of(s) == Seq::<u16>::empty());
        assert(utf16_of(all) == char_units(c) + utf16_of(s));
    } else {
        assert(all.drop_last() == seq![c] + s.drop_last());
        assert(all.last() == s.last());
        lemma_utf16_front(c, s.drop_last());
        assert(utf16_of(all) == char_units(c) + utf16_of(s));
    }
}

/// A text is read back from its UTF-16 units.
pub proof fn law_utf16_reads_back(s: Seq<char>)
    ensures
        lossy_utf16(utf16_of(s)) == s,
    decreases s.len(),
{
    if s.len() > 0 {
        let c = s[0];
        let rest = s.drop_first();
        assert(s == seq![c] + rest);
        lemma_utf16_front(c, rest);
        law_utf16_reads_back(rest);
        lemma_char(c);
        let u = utf16_of(s);
        if (c as int) < 0x10000 {
            assert(u[0] == (c as int) as u16);
            assert(u.skip(1) == utf16_of(rest));
            assert(u[0] as char == c);
        } else {
            let d = c as int - 0x10000;
            assert(u[0] == (0xD800 + d / 0x400) as u16);
            assert(u[1] == (0xDC00 + d % 0x400) as u16);
            assert(d == (d / 0x400) * 0x400 + d % 0x400);
            assert(is_high(u[0]) && is_low(u[1]));
            assert(pair_char(u[0], u[1]) == c);
            assert(u.skip(2) == utf16_of(rest));
        }
        assert(lossy_utf16(u) == seq![c] + rest);
    } else {
        assert(utf16_of(s) == Seq::<u16>::empty());
        assert(s == Seq::<char>::empty());
    }
}

} // verus!

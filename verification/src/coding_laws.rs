//! How numbers, characters and bytes are written in other forms.

use crate::base64_text::{base64_of, quad, symbol};
use crate::code::{distance, from_le16, from_le32, jump_code, le16, le32, le64, offset};
use crate::i18n::{is_replaced, needs_translation, replaced_at, simplified, t2s, translation};
use crate::morph_auth::{absorbed, chained, counted, mac_of, mixed, padded};
use crate::unicode::{char_units, lossy_utf16, utf16_of};
use vstd::prelude::*;

verus! {

/// A number has its low byte first.
pub proof fn law_low_byte_first(x: u32)
    ensures
        le32(x).len() == 4,
        x == le32(x)[0] + 0x100 * le32(x)[1] + 0x1_0000 * le32(x)[2] + 0x100_0000 * le32(x)[3],
{
    crate::code::law_le32_reads_back(x);
    let s = le32(x);
    assert(s[0] + 256 * s[1] + 65536 * s[2] + 16777216 * s[3] <= u32::MAX);
}

/// A number of 16 bits likewise.
pub proof fn law_low_byte_first_16(y: u16)
    ensures
        le16(y).len() == 2,
        y == le16(y)[0] + 0x100 * le16(y)[1],
        from_le16(le16(y)) == y,
{
}

/// A number of 64 bits is its lower half and its upper half.
pub proof fn law_low_half_first(z: u64)
    ensures
        le64(z).len() == 8,
        from_le32(le64(z).subrange(0, 4)) == z % 0x1_0000_0000,
        from_le32(le64(z).subrange(4, 8)) == z / 0x1_0000_0000,
{
    let lo = (z % 0x1_0000_0000) as u32;
    let hi = (z / 0x1_0000_0000) as u32;
    assert(le64(z).subrange(0, 4) =~= le32(lo));
    assert(le64(z).subrange(4, 8) =~= le32(hi));
    crate::code::law_le32_reads_back(lo);
    crate::code::law_le32_reads_back(hi);
}

/// A place so many bytes on, and the way from one place to another, go round at the end of
/// the memory.
pub proof fn law_way(a: u32, b: u32)
    ensures
        offset(a, distance(a, b) as int) == b,
        offset(a, 0) == a,
        distance(a, a) == 0,
        jump_code(a, b).len() == 5,
        jump_code(a, b)[0] == 0xE9,
        offset(a, 5 + from_le32(jump_code(a, b).subrange(1, 5))) == b,
{
    reveal(jump_code);
    let next = ((a + 5) % 0x1_0000_0000) as u32;
    assert(jump_code(a, b).subrange(1, 5) =~= le32(distance(next, b)));
    crate::code::law_le32_reads_back(distance(next, b));
}

/// The sixty-four signs of base64: the capitals, the small letters, the digits, the plus
/// sign and the slash.
pub proof fn law_base64_signs(v: int)
    ensures
        0 <= v < 26 ==> symbol(v) as int - 'A' as int == v,
        26 <= v < 52 ==> symbol(v) as int - 'a' as int == v - 26,
        52 <= v < 62 ==> symbol(v) as int - '0' as int == v - 52,
        symbol(62) == '+',
        symbol(63) == '/',
{
    reveal(symbol);
}

/// Three bytes are four signs of six bits each, the highest first; one and two bytes at
/// the end are filled up with zeros, and with an equals sign for each byte that is
/// missing.
pub proof fn law_base64(a: u8, b: u8, c: u8, rest: Seq<u8>)
    ensures
        base64_of(Seq::empty()).len() == 0,
        base64_of(seq![a, b, c] + rest) == seq![
            symbol(a as int / 4),
            symbol(a as int % 4 * 16 + b as int / 16),
            symbol(b as int % 16 * 4 + c as int / 64),
            symbol(c as int % 64),
        ] + base64_of(rest),
        base64_of(seq![a, b]) == seq![
            symbol(a as int / 4),
            symbol(a as int % 4 * 16 + b as int / 16),
            symbol(b as int % 16 * 4),
            '=',
        ],
        base64_of(seq![a]) == seq![symbol(a as int / 4), symbol(a as int % 4 * 16), '=', '='],
{
    let s = seq![a, b, c] + rest;
    assert(s[0] == a && s[1] == b && s[2] == c);
    assert(s.skip(3) =~= rest);
    lemma_quad(a, b, c);
    lemma_quad(a, b, 0);
    lemma_quad(a, 0, 0);
    assert(base64_of(seq![a, b]) =~= seq![
        symbol(a as int / 4),
        symbol(a as int % 4 * 16 + b as int / 16),
        symbol(b as int % 16 * 4),
        '=',
    ]);
    assert(base64_of(seq![a]) =~= seq![symbol(a as int / 4), symbol(a as int % 4 * 16), '=', '=']);
}

proof fn lemma_quad(a: u8, b: u8, c: u8)
    ensures
        quad(a, b, c) == seq![
            symbol(a as int / 4),
            symbol(a as int % 4 * 16 + b as int / 16),
            symbol(b as int % 16 * 4 + c as int / 64),
            symbol(c as int % 64),
        ],
{
    lemma_first_bits(a as int, b as int, c as int);
    lemma_middle_bits(a as int, b as int, c as int);
    lemma_last_bits(a as int, b as int, c as int);
    assert(quad(a, b, c) =~= seq![
        symbol(a as int / 4),
        symbol(a as int % 4 * 16 + b as int / 16),
        symbol(b as int % 16 * 4 + c as int / 64),
        symbol(c as int % 64),
    ]);
}

proof fn lemma_first_bits(a: int, b: int, c: int)
    requires
        0 <= a < 256 && 0 <= b < 256 && 0 <= c < 256,
    ensures
        (a * 65536 + b * 256 + c) / 262144 == a / 4,
{
    assert(a == a / 4 * 4 + a % 4);
}

proof fn lemma_middle_bits(a: int, b: int, c: int)
    requires
        0 <= a < 256 && 0 <= b < 256 && 0 <= c < 256,
    ensures
        (a * 65536 + b * 256 + c) / 4096 % 64 == a % 4 * 16 + b / 16,
        (a * 65536 + b * 256 + c) / 64 % 64 == b % 16 * 4 + c / 64,
{
    let n = a * 65536 + b * 256 + c;
    assert(b == b / 16 * 16 + b % 16);
    assert(n / 4096 == a * 16 + b / 16);
    assert(a == a / 4 * 4 + a % 4);
    assert((a * 16 + b / 16) % 64 == a % 4 * 16 + b / 16);
    assert(c == c / 64 * 64 + c % 64);
    assert(n / 64 == a * 1024 + b * 4 + c / 64);
    assert((a * 1024 + b * 4 + c / 64) % 64 == b % 16 * 4 + c / 64);
}

proof fn lemma_last_bits(a: int, b: int, c: int)
    requires
        0 <= a < 256 && 0 <= b < 256 && 0 <= c < 256,
    ensures
        (a * 65536 + b * 256 + c) % 64 == c % 64,
{
    assert(c == c / 64 * 64 + c % 64);
}

/// A character of the first plane is one unit; any other is two, with its upper and its
/// lower ten bits.
pub proof fn law_units(s: Seq<char>, c: char)
    ensures
        utf16_of(Seq::empty()).len() == 0,
        utf16_of(s.push(c)) == utf16_of(s) + char_units(c),
        c <= '\u{FFFF}' ==> char_units(c).len() == 1 && char_units(c)[0] as int == c as int,
        c > '\u{FFFF}' ==> {
            &&& char_units(c).len() == 2
            &&& 0xD800 <= char_units(c)[0] <= 0xDBFF
            &&& 0xDC00 <= char_units(c)[1] <= 0xDFFF
            &&& c as int == 0x10000 + (char_units(c)[0] - 0xD800) * 0x400 + (char_units(c)[1]
                - 0xDC00)
        },
{
    assert(s.push(c).drop_last() =~= s);
    assert(s.push(c).last() == c);
    let v = c as int - 0x10000;
    if c > '\u{FFFF}' {
        assert(v == v / 0x400 * 0x400 + v % 0x400);
    }
}

/// A unit of a pair that stands alone reads as the replacement character.
pub proof fn law_lone_units(h: u16, rest: Seq<u16>)
    requires
        0xD800 <= h <= 0xDFFF,
        rest.len() == 0 || !(0xDC00 <= rest[0] <= 0xDFFF) || h >= 0xDC00,
    ensures
        lossy_utf16(seq![h] + rest) == seq!['\u{FFFD}'] + lossy_utf16(rest),
{
    let u = seq![h] + rest;
    assert(u[0] == h);
    if rest.len() > 0 {
        assert(u[1] == rest[0]);
    }
    assert(u.skip(1) =~= rest);
}

/// A text is translated character by character: those of the list have their simplified
/// form, and every other one stays.
pub proof fn law_translation(s: Seq<char>, i: int, c: char)
    requires
        0 <= i < s.len(),
    ensures
        translation(s).len() == s.len(),
        translation(s)[i] == simplified(s[i]),
        (forall|k: int| 0 <= k < t2s().len() ==> (#[trigger] t2s()[k]).0 != c) ==> simplified(c) == c,
{
    if forall|k: int| 0 <= k < t2s().len() ==> (#[trigger] t2s()[k]).0 != c {
        if is_replaced(c) {
            let k = choose|k: int| replaced_at(c, k);
            assert(t2s()[k].0 == c);
        }
    }
}

/// The code over some data: the length goes in first, then whole blocks one by one, and
/// the last block is filled up with a mark and zeros.
pub proof fn law_code_over_data(data: Seq<u8>, state: Seq<u8>, block: Seq<u8>, rest: Seq<u8>)
    requires
        block.len() == 16,
    ensures
        mac_of(data) == absorbed(counted(data.len()), data),
        absorbed(state, Seq::empty()) == state,
        rest.len() > 0 ==> absorbed(state, block + rest) == absorbed(chained(state, block), rest),
        0 < rest.len() < 16 ==> absorbed(state, rest) == chained(state, padded(rest)),
        absorbed(state, block) == chained(chained(state, block), padded(Seq::empty())),
{
    if rest.len() > 0 {
        let d = block + rest;
        assert(d.take(16) =~= block);
        assert(d.skip(16) =~= rest);
    }
}

/// A short block is filled up with the mark 80 and zeros, and blocks are mixed byte by
/// byte.
pub proof fn law_filled_block(d: Seq<u8>, a: Seq<u8>, b: Seq<u8>, i: int)
    requires
        d.len() < 16,
        0 <= i < 16,
    ensures
        padded(d).len() == 16,
        i < d.len() ==> padded(d)[i] == d[i],
        padded(d)[d.len() as int] == 0x80,
        i > d.len() ==> padded(d)[i] == 0,
        mixed(a, b).len() == 16,
        mixed(a, b)[i] == a[i] ^ b[i],
{
}

/// A text is translated only where a character of it is in the list.
pub proof fn law_needs_translation(s: Seq<char>, i: int, k: int)
    ensures
        0 <= i < s.len() && 0 <= k < t2s().len() && s[i] == t2s()[k].0 ==> needs_translation(s),
        (forall|j: int, l: int|
            0 <= j < s.len() && 0 <= l < t2s().len() ==> (#[trigger] s[j]) != (
            #[trigger] t2s()[l]).0) ==> !needs_translation(s),
{
    if 0 <= i < s.len() && 0 <= k < t2s().len() && s[i] == t2s()[k].0 {
        assert(replaced_at(s[i], k));
        assert(is_replaced(s[i]));
    }
    if needs_translation(s) {
        let j = choose|j: int| 0 <= j < s.len() && is_replaced(#[trigger] s[j]);
        let l = choose|l: int| replaced_at(s[j], l);
        assert(s[j] == t2s()[l].0);
    }
}

/// A character of the list has its own simplified form.
pub proof fn law_listed_characters(k: int)
    requires
        0 <= k < t2s().len(),
    ensures
        simplified(t2s()[k].0) == t2s()[k].1,
{
    let c = t2s()[k].0;
    assert(replaced_at(c, k));
    let l = choose|l: int| replaced_at(c, l);
    crate::i18n::law_table_is_sound();
    if l < k {
        assert(t2s()[l].0 != t2s()[k].0);
    } else if k < l {
        assert(t2s()[k].0 != t2s()[l].0);
    }
}

} // verus!

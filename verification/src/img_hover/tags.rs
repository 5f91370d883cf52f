//! The pictures and their highlighted forms in a dialog's text.

use vstd::prelude::*;
use vstd::slice::slice_subrange;
use crate::code::{offset_by, read16};
#[allow(unused_imports)]
use crate::code::{from_le16, offset};
use crate::text::{chars_of, find_char, find_chars, parse_u32, rfind_chars};
#[allow(unused_imports)]
use crate::text::{find_text, parse_dec, rfind_text};
use crate::unicode::decode_utf16;
#[allow(unused_imports)]
use crate::unicode::lossy_utf16;

verus! {

/// Bytes as the characters with the same numbers.
pub open spec fn latin(bytes: Seq<u8>) -> Seq<char> {
    Seq::new(bytes.len(), |i: int| bytes[i] as char)
}

fn latin_chars(bytes: &[u8]) -> (r: Vec<char>)
    ensures
        r@ == latin(bytes@),
{
    let mut out: Vec<char> = Vec::new();
    let mut i: usize = 0;
    while i < bytes.len()
        invariant
            i <= bytes@.len(),
            bytes.len() == bytes@.len(),
            out@ == latin(bytes@.take(i as int)),
        decreases bytes@.len() - i,
    {
        out.push(bytes[i] as char);
        proof {
            assert(out@ == latin(bytes@.take(i + 1)));
        }
        i += 1;
    }
    assert(bytes@.take(i as int) == bytes@);
    out
}

/// The number in front of the first quotation mark, or the whole text as a
/// number where there is none.
pub open spec fn number_before_quote(s: Seq<char>) -> Option<nat> {
    match s.index_of_first('"') {
        Some(i) => parse_dec(s.take(i), u32::MAX as nat),
        None => parse_dec(s, u32::MAX as nat),
    }
}

/// The number of a highlighted form, from the ten bytes behind `highlight="#`.
/// 0 where there is no number.
pub fn highlight_number(buf: &[u8]) -> (r: u32)
    ensures
        r == (match number_before_quote(latin(buf@)) {
            Some(n) => n as u32,
            None => 0u32,
        }),
{
    let cs = latin_chars(buf);
    let end: usize = match find_char(cs.as_slice(), '"') {
        Some(i) => i,
        None => cs.len(),
    };
    let head = slice_subrange(cs.as_slice(), 0, end);
    assert(head@ == cs@.take(end as int));
    assert(cs@.take(cs@.len() as int) == cs@);
    match parse_u32(head) {
        Some(n) => n,
        None => 0,
    }
}

/// The number of an attribute, from what stands behind its quotation mark.
pub open spec fn quoted_number(rest: Seq<char>) -> Option<nat> {
    match rest.index_of_first('"') {
        Some(i) => parse_dec(rest.take(i), u32::MAX as nat),
        None => None,
    }
}

fn read_quoted(rest: &[char]) -> (r: Option<u32>)
    ensures
        match r {
            Some(n) => quoted_number(rest@) == Some(n as nat),
            None => quoted_number(rest@) is None,
        },
{
    match find_char(rest, '"') {
        Some(i) => {
            let head = slice_subrange(rest, 0, i);
            assert(head@ == rest@.take(i as int));
            parse_u32(head)
        },
        None => None,
    }
}

/// The number of the last `src` attribute.
pub open spec fn last_source(s: Seq<char>) -> Option<nat> {
    match rfind_text(s, "src=\"#"@) {
        Some(i) => quoted_number(s.skip(i + "src=\"#"@.len())),
        None => None,
    }
}

/// The number of a picture, from the bytes in front of `highlight="#`.
pub fn source_number(buf: &[u8]) -> (r: Option<u32>)
    ensures
        match r {
            Some(n) => last_source(latin(buf@)) == Some(n as nat),
            None => last_source(latin(buf@)) is None,
        },
{
    let cs = latin_chars(buf);
    let p = chars_of("src=\"#");
    match rfind_chars(cs.as_slice(), p.as_slice()) {
        Some(i) => {
            let n: usize = cs.len();
            let rest = slice_subrange(cs.as_slice(), i + p.len(), n);
            assert(rest@ == cs@.skip(i + p@.len()));
            read_quoted(rest)
        },
        None => None,
    }
}

/// The picture and its highlighted form at a hit: from the bytes behind it and
/// in front of it, each where they could be read.
pub fn hit_mapping(behind: Option<&[u8]>, before: Option<&[u8]>) -> (r: Option<(u32, u32)>)
    ensures
        ({
            let hl = match behind {
                Some(b) => number_before_quote(latin(b@)),
                None => None,
            };
            let src = match before {
                Some(b) => last_source(latin(b@)),
                None => None,
            };
            match r {
                Some(m) => hl == Some(m.1 as nat) && m.1 != 0 && src == Some(m.0 as nat),
                None => hl is None || hl == Some(0nat) || src is None,
            }
        }),
{
    let hl: u32 = match behind {
        Some(b) => highlight_number(b),
        None => 0,
    };
    if hl == 0 {
        return None;
    }
    match before {
        Some(b) => match source_number(b) {
            Some(src) => Some((src, hl)),
            None => None,
        },
        None => None,
    }
}

/// The number of the first attribute that begins with `prefix`.
pub open spec fn attribute(s: Seq<char>, prefix: Seq<char>) -> Option<nat> {
    match find_text(s, prefix) {
        Some(i) => quoted_number(s.skip(i + prefix.len())),
        None => None,
    }
}

fn attribute_of(s: &[char], prefix: &[char]) -> (r: Option<u32>)
    ensures
        match r {
            Some(n) => attribute(s@, prefix@) == Some(n as nat),
            None => attribute(s@, prefix@) is None,
        },
{
    match find_chars(s, prefix) {
        Some(i) => {
            let n: usize = s.len();
            let rest = slice_subrange(s, i + prefix.len(), n);
            assert(rest@ == s@.skip(i + prefix@.len()));
            read_quoted(rest)
        },
        None => None,
    }
}

/// The number of the first attribute of a text that begins with `prefix`.
pub fn extract_attr_from_context(text: &str, prefix: &str) -> (r: Option<u32>)
    ensures
        match r {
            Some(n) => attribute(text@, prefix@) == Some(n as nat),
            None => attribute(text@, prefix@) is None,
        },
{
    attribute_of(chars_of(text).as_slice(), chars_of(prefix).as_slice())
}

/// Where the tag begins that holds the first `highlight` attribute: the last
/// `<img` in front of it, or else the last `<IMG`.
pub open spec fn tag_start(s: Seq<char>) -> Option<int> {
    match find_text(s, "highlight=\"#"@) {
        Some(h) => match rfind_text(s.take(h), "<img"@) {
            Some(i) => Some(i),
            None => rfind_text(s.take(h), "<IMG"@),
        },
        None => None,
    }
}

/// The picture and its highlighted form in a text.
pub open spec fn image_tag(s: Seq<char>) -> Option<(nat, nat)> {
    match tag_start(s) {
        Some(i) => match (
            attribute(s.skip(i), "src=\"#"@),
            attribute(s.skip(i), "highlight=\"#"@),
        ) {
            (Some(src), Some(hl)) => Some((src, hl)),
            _ => None,
        },
        None => None,
    }
}

fn tag_of(cs: &[char]) -> (r: Option<(u32, u32)>)
    ensures
        match r {
            Some(m) => image_tag(cs@) == Some((m.0 as nat, m.1 as nat)),
            None => image_tag(cs@) is None,
        },
{
    let mark = chars_of("highlight=\"#");
    let h: usize = match find_chars(cs, mark.as_slice()) {
        Some(h) => h,
        None => {
            return None;
        },
    };
    let before = slice_subrange(cs, 0, h);
    assert(before@ == cs@.take(h as int));
    let start: usize = match rfind_chars(before, chars_of("<img").as_slice()) {
        Some(i) => i,
        None => match rfind_chars(before, chars_of("<IMG").as_slice()) {
            Some(i) => i,
            None => {
                return None;
            },
        },
    };
    let tag = slice_subrange(cs, start, cs.len());
    assert(tag@ == cs@.skip(start as int));
    match attribute_of(tag, chars_of("src=\"#").as_slice()) {
        Some(src) => match attribute_of(tag, mark.as_slice()) {
            Some(hl) => Some((src, hl)),
            None => None,
        },
        None => None,
    }
}

/// The picture and its highlighted form in a text.
pub fn parse_img_tag_from_context(text: &str) -> (r: Option<(u32, u32)>)
    ensures
        match r {
            Some(m) => image_tag(text@) == Some((m.0 as nat, m.1 as nat)),
            None => image_tag(text@) is None,
        },
{
    tag_of(chars_of(text).as_slice())
}

/// The units that pairs of bytes stand for. An odd byte at the end is left out.
pub open spec fn units(bytes: Seq<u8>) -> Seq<u16> {
    Seq::new((bytes.len() / 2) as nat, |i: int| from_le16(bytes.subrange(2 * i, 2 * i + 2)))
}

/// The units that pairs of bytes stand for.
pub fn units_of(bytes: &[u8]) -> (r: Vec<u16>)
    ensures
        r@ == units(bytes@),
{
    let n: usize = bytes.len() / 2;
    let mut out: Vec<u16> = Vec::new();
    let mut i: usize = 0;
    while i < n
        invariant
            i <= n,
            n == bytes@.len() / 2,
            bytes.len() == bytes@.len(),
            out@ == units(bytes@).take(i as int),
        decreases n - i,
    {
        out.push(read16(bytes, 2 * i));
        assert(out@ == units(bytes@).take(i + 1));
        i += 1;
    }
    assert(units(bytes@).take(n as int) == units(bytes@));
    out
}

/// The picture and its highlighted form in a text of UTF-16.
pub fn parse_wide(bytes: &[u8]) -> (r: Option<(u32, u32)>)
    ensures
        match r {
            Some(m) => image_tag(lossy_utf16(units(bytes@))) == Some((m.0 as nat, m.1 as nat)),
            None => image_tag(lossy_utf16(units(bytes@))) is None,
        },
{
    let u = units_of(bytes);
    tag_of(decode_utf16(u.as_slice()).as_slice())
}

/// A picture is among those known.
pub open spec fn is_known(known: Seq<(u32, u32)>, src: u32) -> bool {
    exists|i: int| 0 <= i < known.len() && (#[trigger] known[i]).0 == src
}

/// Adds a picture that is not known yet.
pub fn add_mapping(known: &mut Vec<(u32, u32)>, src: u32, hl: u32)
    ensures
        final(known)@ == (if is_known(old(known)@, src) {
            old(known)@
        } else {
            old(known)@.push((src, hl))
        }),
{
    let mut i: usize = 0;
    while i < known.len()
        invariant
            i <= known@.len(),
            known@ == old(known)@,
            forall|k: int| 0 <= k < i ==> (#[trigger] known@[k]).0 != src,
        decreases known@.len() - i,
    {
        if known[i].0 == src {
            assert(is_known(old(known)@, src));
            return;
        }
        i += 1;
    }
    known.push((src, hl));
}

/// No picture is known twice.
pub open spec fn distinct(known: Seq<(u32, u32)>) -> bool {
    forall|i: int, j: int|
        0 <= i < j < known.len() ==> (#[trigger] known[i]).0 != (#[trigger] known[j]).0
}

/// Adding a picture keeps each picture known once.
pub proof fn law_pictures_stay_distinct(known: Seq<(u32, u32)>, src: u32, hl: u32)
    requires
        distinct(known),
    ensures
        distinct(
            if is_known(known, src) {
                known
            } else {
                known.push((src, hl))
            },
        ),
{
}

/// The passes of the search for `highlight="#`: the addresses from a start to an
/// end, and whether the text is sought in UTF-16. Ever wider ranges are searched
/// for it in bytes, and at last the widest one in UTF-16.
pub open spec fn pass_at(pass: int) -> Option<(u32, u32, bool)> {
    if pass == 0 {
        Some((0x21000000u32, 0x22000000u32, false))
    } else if pass == 1 {
        Some((0x1F000000u32, 0x25000000u32, false))
    } else if pass == 2 {
        Some((0x00100000u32, 0x30000000u32, false))
    } else if pass == 3 {
        Some((0x00100000u32, 0x30000000u32, true))
    } else {
        None
    }
}

/// A pass of the search.
pub fn search_pass(pass: usize) -> (r: Option<(u32, u32, bool)>)
    ensures
        r == pass_at(pass as int),
{
    match pass {
        0 => Some((0x21000000, 0x22000000, false)),
        1 => Some((0x1F000000, 0x25000000, false)),
        2 => Some((0x00100000, 0x30000000, false)),
        3 => Some((0x00100000, 0x30000000, true)),
        _ => None,
    }
}

/// The pass behind a pass with so many hits. One with hits is the last.
pub open spec fn pass_after(pass: int, hits: nat) -> Option<int> {
    if hits == 0 && pass_at(pass + 1) is Some {
        Some(pass + 1)
    } else {
        None
    }
}

/// The pass behind a pass with so many hits.
pub fn next_pass(pass: usize, hits: usize) -> (r: Option<usize>)
    ensures
        match r {
            Some(p) => pass_after(pass as int, hits as nat) == Some(p as int),
            None => pass_after(pass as int, hits as nat) is None,
        },
{
    if hits == 0 && pass < 3 {
        Some(pass + 1)
    } else {
        None
    }
}

/// The pass that comes behind passes with so many hits each.
pub open spec fn pass_behind(hits: Seq<nat>) -> Option<int>
    decreases hits.len(),
{
    if hits.len() == 0 {
        Some(0)
    } else {
        match pass_behind(hits.drop_last()) {
            Some(p) => pass_after(p, hits.last()),
            None => None,
        }
    }
}

/// A range is searched only where every narrower one held nothing, UTF-16 comes
/// last, and behind four passes there is none.
pub proof fn law_wider_ranges_come_later(hits: Seq<nat>)
    ensures
        pass_behind(hits) matches Some(p) ==> p == hits.len() && p <= 3 && forall|i: int|
            0 <= i < hits.len() ==> #[trigger] hits[i] == 0,
        pass_behind(hits) is None ==> hits.len() >= 4 || exists|i: int|
            0 <= i < hits.len() && #[trigger] hits[i] > 0,
    decreases hits.len(),
{
    if hits.len() > 0 {
        let before = hits.drop_last();
        law_wider_ranges_come_later(before);
        assert forall|i: int| 0 <= i < before.len() implies before[i] == hits[i] by {}
        if pass_behind(hits) is None {
            match pass_behind(before) {
                Some(p) => {
                    if hits.last() > 0 {
                        assert(hits[hits.len() - 1] > 0);
                    }
                },
                None => {
                    if before.len() < 4 {
                        let i = choose|i: int| 0 <= i < before.len() && #[trigger] before[i] > 0;
                        assert(hits[i] > 0);
                    }
                },
            }
        } else {
            assert forall|i: int| 0 <= i < hits.len() implies #[trigger] hits[i] == 0 by {
                if i < before.len() {
                    assert(before[i] == 0);
                }
            }
        }
    }
}

/// The bytes that are read round a hit.
#[derive(Debug, Clone, Copy, PartialEq, Eq)]
pub struct HitReads {
    /// Where the first read begins.
    pub at: u32,
    /// How long it is.
    pub len: usize,
    /// Where a second read begins, of what stands before the hit, and how long it is.
    pub before: Option<(u32, usize)>,
}

/// An address lowered by a number, down to zero.
pub open spec fn lowered(addr: u32, n: int) -> u32 {
    if addr >= n {
        (addr - n) as u32
    } else {
        0
    }
}

/// The bytes that are read round a hit: what stands behind it, and what stands
/// before it. In UTF-16 one read covers both.
pub fn hit_reads(addr: u32, wide: bool) -> (r: HitReads)
    ensures
        r == (if wide {
            HitReads { at: lowered(addr, 240), len: 600, before: None }
        } else {
            HitReads { at: offset(addr, 12), len: 10, before: Some((lowered(addr, 80), 80)) }
        }),
{
    if wide {
        let at: u32 = if addr >= 240 {
            addr - 240
        } else {
            0
        };
        HitReads { at, len: 600, before: None }
    } else {
        let start: u32 = if addr >= 80 {
            addr - 80
        } else {
            0
        };
        HitReads { at: offset_by(addr, 12), len: 10, before: Some((start, 80)) }
    }
}

/// The picture and its highlighted form that a hit stands for, from the bytes that
/// were read round it.
pub open spec fn hit_of(wide: bool, first: Option<Seq<u8>>, before: Option<Seq<u8>>) -> Option<
    (nat, nat),
> {
    if wide {
        match first {
            Some(b) => image_tag(lossy_utf16(units(b))),
            None => None,
        }
    } else {
        let hl = match first {
            Some(b) => number_before_quote(latin(b)),
            None => None,
        };
        let src = match before {
            Some(b) => last_source(latin(b)),
            None => None,
        };
        match (src, hl) {
            (Some(s), Some(h)) => if h != 0 {
                Some((s, h))
            } else {
                None
            },
            _ => None,
        }
    }
}

/// Adds the picture that a hit stands for, unless it is known already.
pub fn add_hit(
    known: &mut Vec<(u32, u32)>,
    wide: bool,
    first: Option<&[u8]>,
    before: Option<&[u8]>,
)
    ensures
        ({
            let hit = hit_of(
                wide,
                match first {
                    Some(b) => Some(b@),
                    None => None,
                },
                match before {
                    Some(b) => Some(b@),
                    None => None,
                },
            );
            match hit {
                Some(m) => {
                    &&& m.0 <= u32::MAX && m.1 <= u32::MAX
                    &&& final(known)@ == (if is_known(old(known)@, m.0 as u32) {
                        old(known)@
                    } else {
                        old(known)@.push((m.0 as u32, m.1 as u32))
                    })
                },
                None => final(known)@ == old(known)@,
            }
        }),
{
    let found = if wide {
        match first {
            Some(b) => parse_wide(b),
            None => None,
        }
    } else {
        hit_mapping(first, before)
    };
    match found {
        Some(m) => add_mapping(known, m.0, m.1),
        None => {},
    }
}

/// The pattern of a text of ASCII, in bytes or in UTF-16.
pub open spec fn text_pattern(s: Seq<char>, wide: bool) -> Seq<Option<u8>>
    decreases s.len(),
{
    if s.len() == 0 {
        seq![]
    } else if wide {
        text_pattern(s.drop_last(), wide).push(Some(s.last() as u8)).push(Some(0u8))
    } else {
        text_pattern(s.drop_last(), wide).push(Some(s.last() as u8))
    }
}

/// The pattern of `highlight="#`, in bytes or in UTF-16.
pub fn highlight_pattern(wide: bool) -> (r: Vec<Option<u8>>)
    ensures
        r@ == text_pattern("highlight=\"#"@, wide),
{
    let cs = chars_of("highlight=\"#");
    let mut out: Vec<Option<u8>> = Vec::new();
    let mut i: usize = 0;
    while i < cs.len()
        invariant
            i <= cs@.len(),
            out@ == text_pattern(cs@.take(i as int), wide),
        decreases cs@.len() - i,
    {
        let c: char = cs[i];
        out.push(Some(c as u8));
        if wide {
            out.push(Some(0));
        }
        proof {
            let done = cs@.take(i + 1);
            assert(done.drop_last() == cs@.take(i as int));
            assert(done.last() == c);
        }
        i += 1;
    }
    assert(cs@.take(i as int) == cs@);
    out
}

} // verus!

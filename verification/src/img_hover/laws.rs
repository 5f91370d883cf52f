//! How pictures are found in a page, and where they lie on the screen.

use crate::code::{from_le32, le32};
use crate::img_hover::poll::{
    covers, distance_to, entry_writes, fitting, half, map_writes, nearest, place_of, signed,
};
use crate::img_hover::tags::{
    attribute, hit_of, image_tag, last_source, latin, lowered, number_before_quote, pass_after,
    pass_at, quoted_number, tag_start, text_pattern,
};
use crate::code::offset;
use crate::memory::write_at;
use crate::text::{
    contains_text, decimal, first_at, is_digit, last_at, lemma_decimal, lemma_find_text, occurs_at,
};
use crate::text_laws::law_number;
use vstd::prelude::*;

verus! {

proof fn lemma_quote(n: nat, rest: Seq<char>)
    ensures
        (decimal(n) + seq!['"'] + rest).index_of_first('"') == Some(decimal(n).len() as int),
        (decimal(n) + seq!['"'] + rest).take(decimal(n).len() as int) == decimal(n),
        decimal(n).index_of_first('"') is None,
{
    let d = decimal(n);
    let t = d + seq!['"'] + rest;
    lemma_decimal(n);
    assert(t[d.len() as int] == '"');
    assert(t.contains('"'));
    t.index_of_first_ensures('"');
    d.index_of_first_ensures('"');
    let k = t.index_of_first('"')->0;
    if k < d.len() {
        assert(is_digit(d[k]));
    }
    if d.contains('"') {
        let i = choose|i: int| 0 <= i < d.len() && d[i] == '"';
        assert(is_digit(d[i]));
    }
    assert(t.take(d.len() as int) =~= d);
}

/// A number goes up to its quote; the one that is highlighted may also end where the
/// bytes do.
pub proof fn law_quoted_numbers(n: u32, rest: Seq<char>)
    ensures
        quoted_number(decimal(n as nat) + seq!['"'] + rest) == Some(n as nat),
        number_before_quote(decimal(n as nat) + seq!['"'] + rest) == Some(n as nat),
        number_before_quote(decimal(n as nat)) == Some(n as nat),
        quoted_number(decimal(n as nat)) is None,
{
    lemma_quote(n as nat, rest);
    law_number(n as nat, Seq::empty(), u32::MAX as nat);
}

/// The source of a picture is the last one in front of it.
pub proof fn law_last_source(s: Seq<char>, i: int, n: u32, rest: Seq<char>)
    requires
        last_at(s, "src=\"#"@, i),
        s.skip(i + 6) == decimal(n as nat) + seq!['"'] + rest,
    ensures
        last_source(s) == Some(n as nat),
{
    reveal_strlit("src=\"#");
    assert("src=\"#"@.len() == 6);
    law_quoted_numbers(n, rest);
    let j = choose|j: int| last_at(s, "src=\"#"@, j);
    assert(last_at(s, "src=\"#"@, i));
    if i < j {
        assert(!occurs_at(s, "src=\"#"@, j));
    } else if j < i {
        assert(!occurs_at(s, "src=\"#"@, i));
    }
}

/// Without a source in front of it a picture has none.
pub proof fn law_no_source(s: Seq<char>)
    requires
        !contains_text(s, "src=\"#"@),
    ensures
        last_source(s) is None,
{
    if exists|i: int| last_at(s, "src=\"#"@, i) {
        let i = choose|i: int| last_at(s, "src=\"#"@, i);
        assert(occurs_at(s, "src=\"#"@, i));
    }
}

/// An attribute has the number behind its first occurrence.
pub proof fn law_attribute(s: Seq<char>, prefix: Seq<char>, i: int, n: u32, rest: Seq<char>)
    requires
        first_at(s, prefix, i),
        s.skip(i + prefix.len()) == decimal(n as nat) + seq!['"'] + rest,
    ensures
        attribute(s, prefix) == Some(n as nat),
{
    lemma_find_text(s, prefix, i);
    law_quoted_numbers(n, rest);
}

/// A picture with a highlight: its tag is the last one that opens in front of the first
/// highlight, and it has a source and a highlight, each with its number.
pub proof fn law_image_tag(
    s: Seq<char>,
    h: int,
    i: int,
    j: int,
    src: u32,
    a: Seq<char>,
    hl: u32,
    b: Seq<char>,
)
    requires
        first_at(s, "highlight=\"#"@, h),
        last_at(s.take(h), "<img"@, i),
        0 <= i <= h,
        first_at(s.skip(i), "src=\"#"@, j),
        s.skip(i).skip(j + 6) == decimal(src as nat) + seq!['"'] + a,
        first_at(s.skip(i), "highlight=\"#"@, h - i),
        s.skip(i).skip(h - i + 12) == decimal(hl as nat) + seq!['"'] + b,
    ensures
        image_tag(s) == Some((src as nat, hl as nat)),
{
    reveal_strlit("src=\"#");
    reveal_strlit("highlight=\"#");
    assert("src=\"#"@.len() == 6 && "highlight=\"#"@.len() == 12);
    lemma_find_text(s, "highlight=\"#"@, h);
    let t = s.take(h);
    let k = choose|k: int| last_at(t, "<img"@, k);
    assert(last_at(t, "<img"@, i));
    if i < k {
        assert(!occurs_at(t, "<img"@, k));
    } else if k < i {
        assert(!occurs_at(t, "<img"@, i));
    }
    assert(tag_start(s) == Some(i));
    law_attribute(s.skip(i), "src=\"#"@, j, src, a);
    law_attribute(s.skip(i), "highlight=\"#"@, h - i, hl, b);
}

/// What is found in narrow text: the number behind the place and the source in front of
/// it, unless the number is zero or one of the two is missing.
pub proof fn law_narrow_hits(behind: Seq<u8>, before: Seq<u8>)
    ensures
        hit_of(false, None, Some(before)) is None,
        hit_of(false, Some(behind), None) is None,
        number_before_quote(latin(behind)) == Some(0nat) ==> hit_of(
            false,
            Some(behind),
            Some(before),
        ) is None,
        number_before_quote(latin(behind)) matches Some(h) && h > 0 && last_source(
            latin(before),
        ) is Some ==> hit_of(false, Some(behind), Some(before)) == Some(
            (last_source(latin(before))->0, number_before_quote(latin(behind))->0),
        ),
        hit_of(true, None, Some(before)) is None,
{
}

/// The memory is searched in ranges that grow, narrow text first and wide text last; the
/// next range is searched only where the one before it gave nothing.
pub proof fn law_search_passes(hits: nat)
    ensures
        pass_at(0) == Some((0x21000000u32, 0x22000000u32, false)),
        pass_at(1) == Some((0x1F000000u32, 0x25000000u32, false)),
        pass_at(2) == Some((0x00100000u32, 0x30000000u32, false)),
        pass_at(3) == Some((0x00100000u32, 0x30000000u32, true)),
        pass_at(4) is None,
        hits > 0 ==> pass_after(0, hits) is None && pass_after(1, hits) is None && pass_after(
            2,
            hits,
        ) is None,
        pass_after(0, 0) == Some(1int) && pass_after(1, 0) == Some(2int) && pass_after(2, 0) == Some(
            3int,
        ),
        pass_after(3, hits) is None,
{
}

/// An address is lowered by so many bytes, down to zero at most.
pub proof fn law_lowered(addr: u32, n: int)
    requires
        0 <= n,
    ensures
        addr >= n ==> lowered(addr, n) == addr - n,
        addr < n ==> lowered(addr, n) == 0,
{
}

/// The bytes of a text to be searched for: one for each character, and a zero behind each
/// in wide text.
pub proof fn law_text_pattern(s: Seq<char>, c: char)
    ensures
        text_pattern(Seq::empty(), true).len() == 0 && text_pattern(Seq::empty(), false).len() == 0,
        text_pattern(s.push(c), false) == text_pattern(s, false).push(Some(c as u8)),
        text_pattern(s.push(c), true) == text_pattern(s, true).push(Some(c as u8)).push(Some(0u8)),
{
    assert(s.push(c).drop_last() =~= s);
    assert(s.push(c).last() == c);
}

/// Half a number, towards zero.
pub proof fn law_half(x: int)
    ensures
        half(2 * x) == x,
        x >= 0 ==> half(2 * x + 1) == x,
        x <= 0 ==> half(2 * x - 1) == x,
        half(-x) == -half(x),
{
}

/// A picture of 60 by 80 lies under the cursor where the cursor is within its place on
/// the screen, three halves as large; one without a place never does.
pub proof fn law_covers(x: int, y: int, cx: int, cy: int, sx: int, sy: int)
    ensures
        !covers((0, 0), (cx, cy), (sx, sy)),
        x != 0 || y != 0 ==> (covers((x, y), (cx, cy), (sx, sy)) <==> {
            &&& half(3 * x) + sx <= cx < half(3 * (x + 60)) + sx
            &&& half(3 * y) + sy <= cy < half(3 * (y + 80)) + sy
        }),
        x >= 0 && y >= 0 && x % 2 == 0 && y % 2 == 0 && (x != 0 || y != 0) ==> {
            &&& covers((x, y), (x / 2 * 3 + sx, y / 2 * 3 + sy), (sx, sy))
            &&& covers((x, y), (x / 2 * 3 + 89 + sx, y / 2 * 3 + 119 + sy), (sx, sy))
            &&& !covers((x, y), (x / 2 * 3 + 90 + sx, y / 2 * 3 + sy), (sx, sy))
            &&& !covers((x, y), (x / 2 * 3 + sx, y / 2 * 3 + 120 + sy), (sx, sy))
        },
{
}

/// The distance of the cursor from the middle of a picture, along the two sides.
pub proof fn law_distance(x: int, y: int, dx: int, dy: int, sx: int, sy: int)
    ensures
        ({
            let mx = half(3 * (x + 30)) + sx;
            let my = half(3 * (y + 40)) + sy;
            &&& distance_to((x, y), (mx, my), (sx, sy)) == 0
            &&& dx >= 0 && dy >= 0 ==> distance_to((x, y), (mx + dx, my + dy), (sx, sy)) == dx + dy
                && distance_to((x, y), (mx - dx, my - dy), (sx, sy)) == dx + dy
        }),
{
}

/// The nearest picture is the first of those with the smallest distance; the ones without
/// a place do not count.
pub proof fn law_nearest(pos: Seq<u8>, k: nat, cursor: (int, int), shift: (int, int), i: int)
    requires
        0 <= i < k,
        place_of(pos, i) != (0int, 0int),
    ensures
        nearest(pos, k, cursor, shift).1 <= distance_to(place_of(pos, i), cursor, shift),
        nearest(pos, k, cursor, shift).1 < 0x7fff_ffff ==> ({
            let n = nearest(pos, k, cursor, shift);
            &&& 0 <= n.0 < k
            &&& place_of(pos, n.0) != (0int, 0int)
            &&& n.1 == distance_to(place_of(pos, n.0), cursor, shift)
            &&& i < n.0 ==> n.1 < distance_to(place_of(pos, i), cursor, shift)
        }),
    decreases k,
{
    lemma_nearest(pos, k, cursor, shift);
    if i < k - 1 {
        law_nearest(pos, (k - 1) as nat, cursor, shift, i);
    }
}

proof fn lemma_nearest(pos: Seq<u8>, k: nat, cursor: (int, int), shift: (int, int))
    ensures
        ({
            let n = nearest(pos, k, cursor, shift);
            n.1 < 0x7fff_ffff ==> {
                &&& 0 <= n.0 < k
                &&& place_of(pos, n.0) != (0int, 0int)
                &&& n.1 == distance_to(place_of(pos, n.0), cursor, shift)
            }
        }),
        nearest(pos, k, cursor, shift).1 <= 0x7fff_ffff,
    decreases k,
{
    if k > 0 {
        lemma_nearest(pos, (k - 1) as nat, cursor, shift);
    }
}

/// The place of a picture is two numbers with a sign, eight bytes for each picture.
pub proof fn law_places(pos: Seq<u8>, i: int)
    ensures
        place_of(pos, i) == (
            signed(from_le32(pos.subrange(8 * i, 8 * i + 4))),
            signed(from_le32(pos.subrange(8 * i + 4, 8 * i + 8))),
        ),
        signed(0) == 0,
        signed(0x7fff_ffff) == 0x7fff_ffff,
        signed(0xffff_ffff) == -1,
        signed(0x8000_0000) == -0x8000_0000,
{
}

/// The pictures stand in the table one behind the other, the source of each in front of
/// its highlight.
pub proof fn law_entries(cave: u32, mappings: Seq<(u32, u32)>, k: nat, i: int)
    requires
        0 <= i < k <= mappings.len(),
    ensures
        entry_writes(cave, mappings, k).len() == 2 * k,
        entry_writes(cave, mappings, k)[2 * i] == write_at(
            offset(cave, 0x120 + 8 * i),
            le32(mappings[i].0),
        ),
        entry_writes(cave, mappings, k)[2 * i + 1] == write_at(
            offset(cave, 0x124 + 8 * i),
            le32(mappings[i].1),
        ),
    decreases k,
{
    if k > 1 && i < k - 1 {
        law_entries(cave, mappings, (k - 1) as nat, i);
    } else {
        lemma_entries_len(cave, mappings, (k - 1) as nat);
    }
}

proof fn lemma_entries_len(cave: u32, mappings: Seq<(u32, u32)>, k: nat)
    ensures
        entry_writes(cave, mappings, k).len() == 2 * k,
    decreases k,
{
    if k > 0 {
        lemma_entries_len(cave, mappings, (k - 1) as nat);
    }
}

/// Eight pictures fit at most; their count is written first, what was learned of others
/// is cleared, and the other hook learns the count where there is one.
pub proof fn law_map_writes(cave: u32, blit: u32, mappings: Seq<(u32, u32)>)
    ensures
        ({
            let n = if mappings.len() <= 8 {
                mappings.len() as int
            } else {
                8
            };
            let w = map_writes(cave, blit, mappings);
            &&& fitting(mappings.len()) == n
            &&& w.len() == 2 * n + (if blit == 0 {
                4int
            } else {
                6
            })
            &&& w[0] == write_at(offset(cave, 0x10C), le32(n as u32))
            &&& forall|k: int| 0 <= k < 2 * n ==> #[trigger] w[1 + k] == entry_writes(
                cave,
                mappings,
                n as nat,
            )[k]
            &&& w[2 * n + 3] == write_at(offset(cave, 0x1A0), le32(0))
            &&& blit != 0 ==> w[2 * n + 4] == write_at(offset(blit, 0x60), le32(n as u32))
        }),
{
    let n = fitting(mappings.len());
    lemma_entries_len(cave, mappings, n);
}

} // verus!

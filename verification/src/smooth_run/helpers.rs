//! The lexical pieces of the sprite table format.

use crate::text::{
    count_digits, decimal, decimal_chars, digit_run, eq_chars, find_char, is_ascii_digit, is_digit,
    is_space, lemma_digit_run, lemma_digit_run_is, lemma_digits_are_decimal, lemma_trim_start,
    lemma_trim_start_is, lemma_zeros_in_front, parse_dec, parse_u16, parse_u32,
    push_all, rfind_char, rows, split_once, split_once_of, to_chars, trim,
    trim_of, trim_start, trim_start_of, words, words_of,
};
use std::collections::HashSet;
use vstd::prelude::*;
use vstd::slice::slice_subrange;

verus! {

/// Counts that describe a conversion.
pub struct VariantInfo {
    pub walk_sprites: Vec<u16>,
    pub run_sprites: Vec<u16>,
    pub run_actions: HashSet<u8>,
    pub walk_count: usize,
    pub run_count: usize,
    pub converted_count: usize,
}

/// What stands between the first `(` and the last `)` of a line; empty where
/// there is no such pair.
pub open spec fn frame_content(line: Seq<char>) -> Seq<char> {
    let t = trim_start_of(line);
    match (t.index_of_first('('), t.index_of_last(')')) {
        (Some(a), Some(b)) => if b <= a + 1 {
            seq![]
        } else {
            t.subrange(a + 1, b)
        },
        _ => seq![],
    }
}

pub fn extract_frame_content(line: &[char]) -> (r: Vec<char>)
    ensures
        r@ == frame_content(line@),
{
    let t = trim_start(line);
    match (find_char(t, '('), rfind_char(t, ')')) {
        (Some(a), Some(b)) => {
            if b <= a || b - a <= 1 {
                Vec::new()
            } else {
                to_chars(slice_subrange(t, a + 1, b))
            }
        },
        _ => Vec::new(),
    }
}

/// The sprite number behind the `#` of a header.
pub open spec fn sprite_id(t: Seq<char>) -> Option<u16> {
    if t.len() > 0 && t[0] == '#' && digit_run(t.skip(1)) > 0 {
        match parse_dec(t.skip(1).take(digit_run(t.skip(1)) as int), u16::MAX as nat) {
            Some(v) => Some(v as u16),
            None => None,
        }
    } else {
        None
    }
}

pub fn parse_sprite_id(t: &[char]) -> (r: Option<u16>)
    ensures
        r == sprite_id(t@),
{
    if t.len() == 0 || t[0] != '#' {
        return None;
    }
    let rest = slice_subrange(t, 1, t.len());
    assert(rest@ == t@.skip(1));
    let n = count_digits(rest);
    if n == 0 {
        return None;
    }
    let d = slice_subrange(rest, 0, n);
    assert(d@ == rest@.take(n as int));
    parse_u16(d)
}

/// `<base>-<variant>.` at the beginning of a line.
pub open spec fn variant_line(t: Seq<char>) -> Option<(u32, u32)> {
    let n = digit_run(t) as int;
    let d = t.skip(n + 1);
    let m = digit_run(d) as int;
    if n > 0 && n < t.len() && t[n] == '-' && m > 0 && m < d.len() && d[m] == '.' {
        match (parse_dec(t.take(n), u32::MAX as nat), parse_dec(d.take(m), u32::MAX as nat)) {
            (Some(base), Some(variant)) => Some((base as u32, variant as u32)),
            _ => None,
        }
    } else {
        None
    }
}

pub fn parse_variant_line(t: &[char]) -> (r: Option<(u32, u32)>)
    ensures
        r == variant_line(t@),
{
    let n = count_digits(t);
    if n == 0 || n >= t.len() || t[n] != '-' {
        return None;
    }
    let head = slice_subrange(t, 0, n);
    assert(head@ == t@.take(n as int));
    let d = slice_subrange(t, n + 1, t.len());
    assert(d@ == t@.skip(n + 1));
    let m = count_digits(d);
    if m == 0 || m >= d.len() || d[m] != '.' {
        return None;
    }
    let tail = slice_subrange(d, 0, m);
    assert(tail@ == d@.take(m as int));
    match (parse_u32(head), parse_u32(tail)) {
        (Some(base), Some(variant)) => Some((base, variant)),
        _ => None,
    }
}

/// `<number>.` at the beginning of a line.
pub open spec fn action_number(t: Seq<char>) -> Option<u32> {
    let n = digit_run(t) as int;
    if n > 0 && n < t.len() && t[n] == '.' {
        match parse_dec(t.take(n), u32::MAX as nat) {
            Some(v) => Some(v as u32),
            None => None,
        }
    } else {
        None
    }
}

pub fn parse_action_number(t: &[char]) -> (r: Option<u32>)
    ensures
        r == action_number(t@),
{
    let n = count_digits(t);
    if n == 0 || n >= t.len() || t[n] != '.' {
        return None;
    }
    let head = slice_subrange(t, 0, n);
    assert(head@ == t@.take(n as int));
    parse_u32(head)
}

/// The last number before the comma of frame data.
pub open spec fn frame_count_of(content: Seq<char>) -> Option<u32> {
    match content.index_of_first(',') {
        Some(i) => {
            let w = words_of(content.take(i));
            if w.len() == 0 {
                None
            } else {
                match parse_dec(w.last(), u32::MAX as nat) {
                    Some(v) => Some(v as u32),
                    None => None,
                }
            }
        },
        None => None,
    }
}

pub fn extract_frame_count(content: &[char]) -> (r: Option<u32>)
    ensures
        r == frame_count_of(content@),
{
    match find_char(content, ',') {
        Some(i) => {
            let head = slice_subrange(content, 0, i);
            assert(head@ == content@.take(i as int));
            let w = words(head);
            assert(rows(w@).len() == w@.len());
            if w.len() == 0 {
                return None;
            }
            assert(rows(w@).last() == w@[w@.len() - 1]@);
            parse_u32(w[w.len() - 1].as_slice())
        },
        None => None,
    }
}

/// The name between the first `.` and the `(` behind it, without the white
/// space around it.
pub open spec fn action_name(t: Seq<char>) -> Seq<char> {
    match t.index_of_first('.') {
        Some(d) => {
            let rest = t.skip(d + 1);
            match rest.index_of_first('(') {
                Some(p) => trim_of(rest.take(p)),
                None => trim_of(rest),
            }
        },
        None => seq![],
    }
}

pub fn extract_action_name(t: &[char]) -> (r: Vec<char>)
    ensures
        r@ == action_name(t@),
{
    match find_char(t, '.') {
        Some(d) => {
            let rest = slice_subrange(t, d + 1, t.len());
            assert(rest@ == t@.skip(d + 1));
            match find_char(rest, '(') {
                Some(p) => {
                    let name = slice_subrange(rest, 0, p);
                    assert(name@ == rest@.take(p as int));
                    to_chars(trim(name))
                },
                None => to_chars(trim(rest)),
            }
        },
        None => Vec::new(),
    }
}

/// Image count, image file and name of a header line:
/// `#14798 360=3213 LMS knight` holds 360, 3213 and `LMS knight`.
pub open spec fn header_ext(t: Seq<char>) -> Option<(u32, Option<u32>, Seq<char>)> {
    let after = t.skip(1);
    let rest = trim_start_of(after.skip(digit_run(after) as int));
    let n = digit_run(rest) as int;
    let tail = rest.skip(n);
    if t.len() == 0 || t[0] != '#' || digit_run(after) >= after.len() || n == 0 {
        None
    } else {
        match parse_dec(rest.take(n), u32::MAX as nat) {
            None => None,
            Some(count) => {
                let g = digit_run(tail.skip(1)) as int;
                if tail.len() > 0 && tail[0] == '=' && g > 0 {
                    match parse_dec(tail.skip(1).take(g), u32::MAX as nat) {
                        None => None,
                        Some(gfx) => Some(
                            (count as u32, Some(gfx as u32), trim_of(tail.skip(1).skip(g))),
                        ),
                    }
                } else {
                    Some((count as u32, None, trim_of(tail)))
                }
            },
        }
    }
}

pub fn parse_header_ext(t: &[char]) -> (r: Option<(u32, Option<u32>, Vec<char>)>)
    ensures
        match r {
            Some(h) => header_ext(t@) == Some((h.0, h.1, h.2@)),
            None => header_ext(t@) is None,
        },
{
    if t.len() == 0 || t[0] != '#' {
        return None;
    }
    let after = slice_subrange(t, 1, t.len());
    assert(after@ == t@.skip(1));
    let id = count_digits(after);
    if id >= after.len() {
        return None;
    }
    let behind = slice_subrange(after, id, after.len());
    assert(behind@ == after@.skip(id as int));
    let rest = trim_start(behind);
    let n = count_digits(rest);
    if n == 0 {
        return None;
    }
    let digits = slice_subrange(rest, 0, n);
    assert(digits@ == rest@.take(n as int));
    let count = match parse_u32(digits) {
        Some(v) => v,
        None => return None,
    };
    let tail = slice_subrange(rest, n, rest.len());
    assert(tail@ == rest@.skip(n as int));
    if tail.len() > 0 && tail[0] == '=' {
        let stripped = slice_subrange(tail, 1, tail.len());
        assert(stripped@ == tail@.skip(1));
        let g = count_digits(stripped);
        if g > 0 {
            let gd = slice_subrange(stripped, 0, g);
            assert(gd@ == stripped@.take(g as int));
            let gfx = match parse_u32(gd) {
                Some(v) => v,
                None => return None,
            };
            let name = slice_subrange(stripped, g, stripped.len());
            assert(name@ == stripped@.skip(g as int));
            return Some((count, Some(gfx), to_chars(trim(name))));
        }
    }
    Some((count, None, to_chars(trim(tail))))
}

/// The part before the first comma, and the words behind it if there are any.
pub open spec fn frame_parts(content: Seq<char>) -> Option<(Seq<char>, Seq<Seq<char>>)> {
    match split_once_of(content, ',') {
        Some(p) => if words_of(p.1).len() == 0 {
            None
        } else {
            Some((p.0, words_of(p.1)))
        },
        None => None,
    }
}

pub fn split_frame_content(content: &[char]) -> (r: Option<(Vec<char>, Vec<Vec<char>>)>)
    ensures
        match r {
            Some(p) => frame_parts(content@) == Some((p.0@, rows(p.1@))),
            None => frame_parts(content@) is None,
        },
{
    match split_once(content, ',') {
        Some((header, text)) => {
            let frames = words(text);
            assert(rows(frames@).len() == frames@.len());
            if frames.len() == 0 {
                None
            } else {
                Some((to_chars(header), frames))
            }
        },
        None => None,
    }
}

/// The number before the first `.` of a frame.
pub open spec fn frame_row(frame: Seq<char>) -> Option<u32> {
    match frame.index_of_first('.') {
        Some(d) => match parse_dec(frame.take(d), u32::MAX as nat) {
            Some(v) => Some(v as u32),
            None => None,
        },
        None => None,
    }
}

fn parse_frame_row(frame: &[char]) -> (r: Option<u32>)
    ensures
        r == frame_row(frame@),
{
    match find_char(frame, '.') {
        Some(d) => {
            let head = slice_subrange(frame, 0, d);
            assert(head@ == frame@.take(d as int));
            parse_u32(head)
        },
        None => None,
    }
}

/// Two animations that alternate between each other's rows: the first frames
/// are of two different rows, and behind them each animation stays on the
/// row that the other one began with.
pub open spec fn interleaved(content_0: Seq<char>, content_4: Seq<char>) -> bool {
    match (frame_parts(content_0), frame_parts(content_4)) {
        (Some((h0, f0)), Some((h4, f4))) => {
            &&& trim_of(h0) == trim_of(h4)
            &&& f0.len() == f4.len()
            &&& f0.len() >= 2
            &&& frame_row(f0[0]) is Some
            &&& frame_row(f4[0]) is Some
            &&& frame_row(f0[0]) != frame_row(f4[0])
            &&& forall|i: int|
                1 <= i < f0.len() ==> frame_row(#[trigger] f0[i]) == frame_row(f4[0])
            &&& forall|i: int|
                1 <= i < f4.len() ==> frame_row(#[trigger] f4[i]) == frame_row(f0[0])
        },
        _ => false,
    }
}

pub fn is_tianm_interleaved_lr(content_0: &[char], content_4: &[char]) -> (r: bool)
    ensures
        r == interleaved(content_0@, content_4@),
{
    let (h0, f0) = match split_frame_content(content_0) {
        Some(p) => p,
        None => return false,
    };
    let (h4, f4) = match split_frame_content(content_4) {
        Some(p) => p,
        None => return false,
    };
    let ghost m0 = rows(f0@);
    let ghost m4 = rows(f4@);
    assert(m0.len() == f0@.len() && m4.len() == f4@.len());
    if !eq_chars(trim(h0.as_slice()), trim(h4.as_slice())) || f0.len() != f4.len() || f0.len() < 2 {
        return false;
    }
    assert(m0[0] == f0@[0]@ && m4[0] == f4@[0]@);
    let row0 = match parse_frame_row(f0[0].as_slice()) {
        Some(v) => v,
        None => return false,
    };
    let row4 = match parse_frame_row(f4[0].as_slice()) {
        Some(v) => v,
        None => return false,
    };
    if row0 == row4 {
        return false;
    }
    let mut i: usize = 1;
    while i < f0.len()
        invariant
            m0 == rows(f0@),
            m4 == rows(f4@),
            frame_parts(content_0@) == Some((h0@, m0)),
            frame_parts(content_4@) == Some((h4@, m4)),
            m0.len() == f0@.len(),
            m4.len() == f4@.len(),
            f0@.len() == f4@.len(),
            1 <= i <= f0@.len(),
            frame_row(m0[0]) == Some(row0),
            frame_row(m4[0]) == Some(row4),
            forall|j: int| 1 <= j < i ==> frame_row(#[trigger] m0[j]) == Some(row4),
            forall|j: int| 1 <= j < i ==> frame_row(#[trigger] m4[j]) == Some(row0),
        decreases f0@.len() - i,
    {
        assert(m0[i as int] == f0@[i as int]@ && m4[i as int] == f4@[i as int]@);
        match (parse_frame_row(f0[i].as_slice()), parse_frame_row(f4[i].as_slice())) {
            (Some(a), Some(b)) => {
                if a != row4 || b != row0 {
                    return false;
                }
            },
            _ => return false,
        }
        i += 1;
    }
    true
}

/// Where the sprite number of a header line ends: behind leading white space,
/// the `#` and its digits. A line that is no header has no such number.
pub open spec fn header_id_end(line: Seq<char>) -> int {
    let t = trim_start_of(line);
    if t.len() > 0 && t[0] == '#' {
        line.len() - t.len() + 1 + digit_run(t.skip(1))
    } else {
        0
    }
}

/// Where the image count of a header line begins: behind the sprite number and
/// white space.
pub open spec fn count_start(line: Seq<char>) -> int {
    line.len() - trim_start_of(line.skip(header_id_end(line))).len()
}

/// `line` with the image count behind the sprite number changed from
/// `old_count` to `new_count`; the line itself where no such count stands there.
/// Zeros in front of the count stay.
pub open spec fn header_updated(line: Seq<char>, old_count: u32, new_count: u32) -> Seq<char> {
    let at = count_start(line);
    let end = at + digit_run(line.skip(at));
    if parse_dec(line.subrange(at, end), u32::MAX as nat) == Some(old_count as nat) {
        line.take(end - decimal(old_count as nat).len()) + decimal(new_count as nat) + line.skip(end)
    } else {
        line
    }
}

pub fn update_header_img_count(line: &[char], old_count: u32, new_count: u32) -> (r: Vec<char>)
    ensures
        r@ == header_updated(line@, old_count, new_count),
{
    let t = trim_start(line);
    proof {
        lemma_trim_start(line@);
    }
    let e: usize = if t.len() > 0 && t[0] == '#' {
        let digits = slice_subrange(t, 1, t.len());
        assert(digits@ == t@.skip(1));
        line.len() - t.len() + 1 + count_digits(digits)
    } else {
        0
    };
    let rest = slice_subrange(line, e, line.len());
    assert(rest@ == line@.skip(e as int));
    proof {
        lemma_trim_start(rest@);
    }
    let behind = trim_start(rest);
    let at: usize = line.len() - behind.len();
    assert(behind@ == line@.skip(at as int));
    let n: usize = count_digits(behind);
    let run = slice_subrange(behind, 0, n);
    assert(run@ == line@.subrange(at as int, at + n));
    match parse_u32(run) {
        Some(v) => if v == old_count {
            let old_digits = decimal_chars(old_count as u64);
            let new_digits = decimal_chars(new_count as u64);
            proof {
                lemma_digit_run(behind@);
                lemma_count_digits(run@, old_count as nat);
            }
            let head = slice_subrange(line, 0, at + n - old_digits.len());
            let tail = slice_subrange(line, at + n, line.len());
            let mut out = to_chars(head);
            push_all(&mut out, new_digits.as_slice());
            push_all(&mut out, tail);
            proof {
                assert(head@ == line@.take(at + n - old_digits@.len()));
                assert(tail@ == line@.skip(at + n));
            }
            out
        } else {
            to_chars(line)
        },
        None => to_chars(line),
    }
}

proof fn lemma_count_digits(run: Seq<char>, v: nat)
    requires
        forall|i: int| 0 <= i < run.len() ==> is_digit(#[trigger] run[i]),
        parse_dec(run, u32::MAX as nat) == Some(v),
    ensures
        decimal(v).len() <= run.len(),
        run.skip(run.len() - decimal(v).len()) == decimal(v),
        forall|i: int| 0 <= i < run.len() - decimal(v).len() ==> #[trigger] run[i] == '0',
{
    assert(is_digit(run[0]));
    lemma_digits_are_decimal(run);
}

/// The parts of a header line: white space, `#`, the sprite number, white space,
/// the image count, and what stands behind it.
#[verifier::opaque]
spec fn header_line(
    lead: Seq<char>,
    id: Seq<char>,
    gap: Seq<char>,
    count: Seq<char>,
    tail: Seq<char>,
) -> Seq<char> {
    lead + (seq!['#'] + (id + (gap + (count + tail))))
}

spec fn are_header_parts(
    lead: Seq<char>,
    id: Seq<char>,
    gap: Seq<char>,
    count: Seq<char>,
    tail: Seq<char>,
) -> bool {
    &&& forall|i: int| 0 <= i < lead.len() ==> is_space(#[trigger] lead[i])
    &&& forall|i: int| 0 <= i < id.len() ==> is_digit(#[trigger] id[i])
    &&& gap.len() > 0
    &&& forall|i: int| 0 <= i < gap.len() ==> is_space(#[trigger] gap[i])
    &&& count.len() > 0
    &&& forall|i: int| 0 <= i < count.len() ==> is_digit(#[trigger] count[i])
    &&& tail.len() > 0 ==> !is_digit(tail[0])
}

proof fn lemma_spaces_in_front(a: Seq<char>, b: Seq<char>)
    requires
        forall|i: int| 0 <= i < a.len() ==> is_space(#[trigger] a[i]),
        b.len() > 0,
        !is_space(b[0]),
    ensures
        trim_start_of(a + b) == b,
{
    let s = a + b;
    assert forall|i: int| 0 <= i < a.len() implies is_space(#[trigger] s[i]) by {
        assert(s[i] == a[i]);
    }
    assert(s[a.len() as int] == b[0]);
    lemma_trim_start_is(s, a.len() as int);
    assert(s.skip(a.len() as int) == b);
}

proof fn lemma_digits_in_front(a: Seq<char>, b: Seq<char>)
    requires
        forall|i: int| 0 <= i < a.len() ==> is_digit(#[trigger] a[i]),
        b.len() > 0 ==> !is_digit(b[0]),
    ensures
        digit_run(a + b) == a.len(),
        (a + b).take(a.len() as int) == a,
        (a + b).skip(a.len() as int) == b,
{
    let s = a + b;
    assert forall|i: int| 0 <= i < a.len() implies is_digit(#[trigger] s[i]) by {
        assert(s[i] == a[i]);
    }
    if b.len() > 0 {
        assert(s[a.len() as int] == b[0]);
    }
    lemma_digit_run_is(s, a.len());
    assert(s.take(a.len() as int) == a);
    assert(s.skip(a.len() as int) == b);
}

proof fn lemma_header_parts(
    lead: Seq<char>,
    id: Seq<char>,
    gap: Seq<char>,
    count: Seq<char>,
    tail: Seq<char>,
)
    requires
        are_header_parts(lead, id, gap, count, tail),
    ensures
        ({
            let t = trim_start_of(header_line(lead, id, gap, count, tail));
            let after = t.skip(1);
            let rest = trim_start_of(after.skip(digit_run(after) as int));
            &&& t == seq!['#'] + (id + (gap + (count + tail)))
            &&& t[0] == '#'
            &&& digit_run(after) == id.len()
            &&& digit_run(after) < after.len()
            &&& after.take(id.len() as int) == id
            &&& rest == count + tail
            &&& digit_run(rest) == count.len()
            &&& rest.take(count.len() as int) == count
            &&& rest.skip(count.len() as int) == tail
        }),
{
    reveal(header_line);
    let c = count + tail;
    let g = gap + c;
    let b = id + g;
    let t = seq!['#'] + b;
    lemma_spaces_in_front(lead, t);
    assert(t.skip(1) == b);
    assert(is_space(gap[0]));
    assert(g[0] == gap[0]);
    lemma_digits_in_front(id, g);
    assert(is_digit(count[0]));
    assert(c[0] == count[0]);
    lemma_spaces_in_front(gap, c);
    lemma_digits_in_front(count, tail);
}

/// The part of a header line in front of the image count.
#[verifier::opaque]
spec fn header_front(lead: Seq<char>, id: Seq<char>, gap: Seq<char>) -> Seq<char> {
    lead + (seq!['#'] + (id + gap))
}

proof fn lemma_header_front(
    lead: Seq<char>,
    id: Seq<char>,
    gap: Seq<char>,
    count: Seq<char>,
    tail: Seq<char>,
)
    ensures
        header_line(lead, id, gap, count, tail) == header_front(lead, id, gap) + (count + tail),
        header_front(lead, id, gap).len() == lead.len() + 1 + id.len() + gap.len(),
{
    reveal(header_line);
    reveal(header_front);
    let c = count + tail;
    assert(id + (gap + c) == (id + gap) + c);
    assert(seq!['#'] + ((id + gap) + c) == (seq!['#'] + (id + gap)) + c);
    assert(lead + ((seq!['#'] + (id + gap)) + c) == (lead + (seq!['#'] + (id + gap))) + c);
}

proof fn lemma_header_places(
    lead: Seq<char>,
    id: Seq<char>,
    gap: Seq<char>,
    count: Seq<char>,
    tail: Seq<char>,
)
    requires
        are_header_parts(lead, id, gap, count, tail),
    ensures
        count_start(header_line(lead, id, gap, count, tail)) == header_front(lead, id, gap).len(),
{
    let line = header_line(lead, id, gap, count, tail);
    lemma_header_parts(lead, id, gap, count, tail);
    lemma_header_front(lead, id, gap, count, tail);
    lemma_trim_start(line);
    let t = trim_start_of(line);
    let after = t.skip(1);
    assert(line.skip(header_id_end(line)) == after.skip(id.len() as int));
}

proof fn lemma_new_count(count: Seq<char>, old_count: u32, new_count: u32) -> (now: Seq<char>)
    requires
        forall|i: int| 0 <= i < count.len() ==> is_digit(#[trigger] count[i]),
        parse_dec(count, u32::MAX as nat) == Some(old_count as nat),
    ensures
        decimal(old_count as nat).len() <= count.len(),
        now == count.take(count.len() - decimal(old_count as nat).len()) + decimal(
            new_count as nat,
        ),
        now.len() > 0,
        forall|i: int| 0 <= i < now.len() ==> is_digit(#[trigger] now[i]),
        parse_dec(now, u32::MAX as nat) == Some(new_count as nat),
{
    let o = decimal(old_count as nat);
    let d = decimal(new_count as nat);
    lemma_count_digits(count, old_count as nat);
    let zeros = count.take(count.len() - o.len());
    assert forall|i: int| 0 <= i < zeros.len() implies #[trigger] zeros[i] == '0' by {
        assert(count[i] == '0');
    }
    crate::text::lemma_decimal(new_count as nat);
    lemma_zeros_in_front(zeros, d);
    let now = zeros + d;
    assert(is_digit(now[0]));
    now
}

proof fn lemma_header_update(
    lead: Seq<char>,
    id: Seq<char>,
    gap: Seq<char>,
    count: Seq<char>,
    tail: Seq<char>,
    old_count: u32,
    new_count: u32,
) -> (now: Seq<char>)
    requires
        are_header_parts(lead, id, gap, count, tail),
        parse_dec(count, u32::MAX as nat) == Some(old_count as nat),
    ensures
        are_header_parts(lead, id, gap, now, tail),
        parse_dec(now, u32::MAX as nat) == Some(new_count as nat),
        header_updated(header_line(lead, id, gap, count, tail), old_count, new_count)
            == header_line(lead, id, gap, now, tail),
{
    let line = header_line(lead, id, gap, count, tail);
    let o = decimal(old_count as nat);
    let d = decimal(new_count as nat);
    let now = lemma_new_count(count, old_count, new_count);
    lemma_header_places(lead, id, gap, count, tail);
    lemma_header_front(lead, id, gap, count, tail);
    lemma_header_front(lead, id, gap, now, tail);
    let front = header_front(lead, id, gap);
    let at = front.len() as int;
    assert(line.skip(at) == count + tail);
    lemma_digits_in_front(count, tail);
    let end = at + count.len();
    assert(line.subrange(at, end) == count);
    assert(line.skip(end) == tail);
    assert(line.take(end - o.len()) == front + count.take(count.len() - o.len()));
    assert((front + count.take(count.len() - o.len())) + d + tail == front + (now + tail));
    now
}

/// A header with a new image count is the header of the same sprite, with that
/// count, the same image file and the same name.
pub proof fn law_header_takes_the_count(line: Seq<char>, old_count: u32, new_count: u32)
    requires
        header_ext(trim_start_of(line)) matches Some(h) && h.0 == old_count,
    ensures
        sprite_id(trim_start_of(header_updated(line, old_count, new_count))) == sprite_id(
            trim_start_of(line),
        ),
        header_ext(trim_start_of(line)) matches Some(h) && header_ext(
            trim_start_of(header_updated(line, old_count, new_count)),
        ) == Some((new_count, h.1, h.2)),
{
    let t = trim_start_of(line);
    lemma_trim_start(line);
    let lead = line.take(line.len() - t.len());
    let after = t.skip(1);
    lemma_digit_run(after);
    let id = after.take(digit_run(after) as int);
    let rest0 = after.skip(digit_run(after) as int);
    lemma_trim_start(rest0);
    let rest = trim_start_of(rest0);
    let gap = rest0.take(rest0.len() - rest.len());
    lemma_digit_run(rest);
    let count = rest.take(digit_run(rest) as int);
    let tail = rest.skip(digit_run(rest) as int);
    assert(gap.len() > 0) by {
        if gap.len() == 0 {
            assert(rest == rest0);
            assert(is_digit(rest[0]));
            assert(rest[0] == after[digit_run(after) as int]);
        }
    }
    assert(line == header_line(lead, id, gap, count, tail)) by {
        reveal(header_line);
        assert(rest == count + tail);
        assert(rest0 == gap + rest);
        assert(after == id + rest0);
        assert(t == seq!['#'] + after);
        assert(line == lead + t);
    }
    assert(are_header_parts(lead, id, gap, count, tail)) by {
        assert forall|i: int| 0 <= i < id.len() implies is_digit(#[trigger] id[i]) by {
            assert(is_digit(after[i]));
        }
        assert forall|i: int| 0 <= i < count.len() implies is_digit(#[trigger] count[i]) by {
            assert(is_digit(rest[i]));
        }
        assert forall|i: int| 0 <= i < gap.len() implies is_space(#[trigger] gap[i]) by {
            assert(is_space(rest0[i]));
        }
        assert forall|i: int| 0 <= i < lead.len() implies is_space(#[trigger] lead[i]) by {
            assert(is_space(line[i]));
        }
    }
    let now = lemma_header_update(lead, id, gap, count, tail, old_count, new_count);
    lemma_header_parts(lead, id, gap, count, tail);
    lemma_header_parts(lead, id, gap, now, tail);
}

/// A number of an inline action may begin here: at the start of the line, or
/// behind a blank, a tab or a closing bracket.
pub open spec fn at_boundary(s: Seq<char>, i: int) -> bool {
    i == 0 || s[i - 1] == ' ' || s[i - 1] == '\t' || s[i - 1] == ')'
}

/// The frames and the name of the action whose number stands at `b..e`, if it
/// is the action looked for and is written out as `N.name(frames)`.
pub open spec fn inline_hit(
    s: Seq<char>,
    target: u32,
    b: int,
    e: int,
) -> Option<(Seq<char>, Seq<char>)> {
    if e < s.len() && s[e] == '.' && parse_dec(s.subrange(b, e), u32::MAX as nat) == Some(
        target as nat,
    ) {
        match s.skip(e).index_of_first('(') {
            Some(p) => match s.skip(e + p + 1).index_of_first(')') {
                Some(c) => Some(
                    (
                        s.subrange(e + p + 1, e + p + 1 + c),
                        trim_of(s.subrange(e + 1, e + p)),
                    ),
                ),
                None => None,
            },
            None => None,
        }
    } else {
        None
    }
}

/// The first inline action with the number `target` outside brackets, from
/// index `i` on, where `depth` brackets are open.
pub open spec fn inline_scan(s: Seq<char>, target: u32, i: int, depth: int) -> Option<
    (Seq<char>, Seq<char>),
>
    decreases s.len() - i,
{
    if !(0 <= i < s.len()) {
        None
    } else if s[i] == '(' {
        inline_scan(s, target, i + 1, depth + 1)
    } else if s[i] == ')' {
        inline_scan(s, target, i + 1, depth - 1)
    } else if depth == 0 && is_digit(s[i]) && at_boundary(s, i) && digit_run(s.skip(i)) > 0 {
        proof {
            lemma_digit_run(s.skip(i));
        }
        let e = i + digit_run(s.skip(i));
        match inline_hit(s, target, i, e) {
            Some(h) => Some(h),
            None => inline_scan(s, target, e, depth),
        }
    } else {
        inline_scan(s, target, i + 1, depth)
    }
}

fn parse_inline_hit(s: &[char], target: u32, b: usize, e: usize) -> (r: Option<
    (Vec<char>, Vec<char>),
>)
    requires
        b <= e <= s@.len(),
    ensures
        match r {
            Some(h) => inline_hit(s@, target, b as int, e as int) == Some((h.0@, h.1@)),
            None => inline_hit(s@, target, b as int, e as int) is None,
        },
{
    if e >= s.len() || s[e] != '.' {
        return None;
    }
    match parse_u32(slice_subrange(s, b, e)) {
        Some(n) => {
            if n != target {
                return None;
            }
        },
        None => return None,
    }
    let rest = slice_subrange(s, e, s.len());
    assert(rest@ == s@.skip(e as int));
    match find_char(rest, '(') {
        Some(p) => {
            let inside = slice_subrange(s, e + p + 1, s.len());
            assert(inside@ == s@.skip(e + p + 1));
            match find_char(inside, ')') {
                Some(c) => {
                    assert(rest@[0] == '.');
                    assert(p > 0);
                    let content = to_chars(slice_subrange(s, e + p + 1, e + p + 1 + c));
                    let name = to_chars(trim(slice_subrange(s, e + 1, e + p)));
                    Some((content, name))
                },
                None => None,
            }
        },
        None => None,
    }
}

/// The frames and the name of an action that is written into a header line.
pub fn extract_inline_action_with_name(s: &[char], target: u32) -> (r: Option<
    (Vec<char>, Vec<char>),
>)
    ensures
        match r {
            Some(h) => inline_scan(s@, target, 0, 0) == Some((h.0@, h.1@)),
            None => inline_scan(s@, target, 0, 0) is None,
        },
{
    let mut depth: i128 = 0;
    let mut i: usize = 0;
    while i < s.len()
        invariant
            i <= s@.len(),
            -(i as int) <= depth <= i,
            inline_scan(s@, target, 0, 0) == inline_scan(s@, target, i as int, depth as int),
        decreases s@.len() - i,
    {
        let c = s[i];
        if c == '(' {
            depth += 1;
            i += 1;
        } else if c == ')' {
            depth -= 1;
            i += 1;
        } else if depth == 0 && is_ascii_digit(c) && (i == 0 || s[i - 1] == ' ' || s[i - 1] == '\t'
            || s[i - 1] == ')') {
            let rest = slice_subrange(s, i, s.len());
            assert(rest@ == s@.skip(i as int));
            assert(rest@[0] == s@[i as int]);
            let n = count_digits(rest);
            let e: usize = i + n;
            match parse_inline_hit(s, target, i, e) {
                Some(h) => return Some(h),
                None => {},
            }
            i = e;
        } else {
            i += 1;
        }
    }
    None
}

/// The number of the first image of frame data.
pub open spec fn first_spr_of(content: Seq<char>) -> Option<u32> {
    match content.index_of_first(',') {
        Some(i) => {
            let after = trim_start_of(content.skip(i + 1));
            match after.index_of_first('.') {
                Some(d) => match parse_dec(trim_of(after.take(d)), u32::MAX as nat) {
                    Some(v) => Some(v as u32),
                    None => None,
                },
                None => None,
            }
        },
        None => None,
    }
}

pub fn first_spr_from_content(content: &[char]) -> (r: Option<u32>)
    ensures
        r == first_spr_of(content@),
{
    match find_char(content, ',') {
        Some(i) => {
            let behind = slice_subrange(content, i + 1, content.len());
            assert(behind@ == content@.skip(i + 1));
            let after = trim_start(behind);
            match find_char(after, '.') {
                Some(d) => {
                    let head = slice_subrange(after, 0, d);
                    assert(head@ == after@.take(d as int));
                    parse_u32(trim(head))
                },
                None => None,
            }
        },
        None => None,
    }
}

} // verus!

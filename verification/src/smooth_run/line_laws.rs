//! How the lines of a sprite table read.

use super::helpers::{
    action_name, action_number, first_spr_of, frame_content, frame_count_of, frame_row, header_ext,
    inline_hit, inline_scan, interleaved, sprite_id, variant_line,
};
use super::parse::{
    action_of, header_sprite, inline_actions, inline_codes, parse_line, parse_lines, ParseState,
};
use super::types::{ActionModel, SpriteModel};
use crate::spr_action_laws::no_digit_next;
use crate::text::{
    decimal, digit_run, is_digit, is_space, lemma_decimal, lemma_digit_run_is,
    lemma_trim_start_is, lower_of, parse_dec, trim_of, trim_start_of, words_of,
};
use crate::text_laws::{blank, law_number, law_split_once, law_trim, law_words, tight};
use vstd::prelude::*;

verus! {

/// A text that does not begin with white space.
pub open spec fn starts_tight(s: Seq<char>) -> bool {
    s.len() > 0 && !is_space(s[0])
}

/// White space in front of a text is its indent.
pub proof fn law_indent(lead: Seq<char>, t: Seq<char>)
    requires
        blank(lead),
        starts_tight(t),
    ensures
        trim_start_of(lead + t) == t,
        (lead + t).take((lead + t).len() - t.len()) == lead,
{
    let s = lead + t;
    assert forall|i: int| 0 <= i < lead.len() implies is_space(#[trigger] s[i]) by {
        assert(is_space(lead[i]));
    }
    assert(s[lead.len() as int] == t[0]);
    lemma_trim_start_is(s, lead.len() as int);
    assert(s.skip(lead.len() as int) =~= t);
    assert(s.take(s.len() - t.len()) =~= lead);
}

/// A number with something behind it that does not go on with a digit.
proof fn lemma_number_in_front(n: nat, rest: Seq<char>, max: nat)
    requires
        no_digit_next(rest),
    ensures
        digit_run(decimal(n) + rest) == decimal(n).len(),
        decimal(n).len() > 0,
        is_digit((decimal(n) + rest)[0]),
        (decimal(n) + rest).take(decimal(n).len() as int) == decimal(n),
        (decimal(n) + rest).skip(decimal(n).len() as int) == rest,
        parse_dec(decimal(n), max) == (if n <= max {
            Some(n)
        } else {
            None
        }),
{
    let d = decimal(n);
    let t = d + rest;
    lemma_decimal(n);
    law_number(n, Seq::empty(), max);
    assert forall|i: int| 0 <= i < d.len() implies is_digit(#[trigger] t[i]) by {
        assert(is_digit(d[i]));
    }
    if rest.len() > 0 {
        assert(t[d.len() as int] == rest[0]);
    }
    assert(is_digit(t[0]));
    lemma_digit_run_is(t, d.len());
    assert(t.take(d.len() as int) =~= d);
    assert(t.skip(d.len() as int) =~= rest);
}

/// What stands between the first opening and the last closing bracket of a line is its
/// frames; a line without brackets has none.
pub proof fn law_frames_between_brackets(
    lead: Seq<char>,
    front: Seq<char>,
    content: Seq<char>,
    rest: Seq<char>,
)
    requires
        blank(lead),
        front.len() > 0 ==> !is_space(front[0]),
        !front.contains('('),
        !rest.contains(')'),
    ensures
        frame_content(lead + (front + seq!['('] + content + seq![')'] + rest)) == content,
        starts_tight(front) ==> frame_content(lead + front) == Seq::<char>::empty(),
{
    let t = front + seq!['('] + content + seq![')'] + rest;
    if front.len() == 0 {
        assert(t[0] == '(');
    } else {
        assert(t[0] == front[0]);
    }
    law_indent(lead, t);
    let a = front.len() as int;
    assert(t[a] == '(');
    assert(t.contains('('));
    t.index_of_first_ensures('(');
    let k = t.index_of_first('(')->0;
    if k < a {
        assert(front[k] == '(');
        assert(front.contains('('));
    }
    assert(k == a);
    let b = a + 1 + content.len();
    assert(t[b] == ')');
    assert(t.contains(')'));
    t.index_of_last_ensures(')');
    let m = t.index_of_last(')')->0;
    if m > b {
        assert(rest[m - b - 1] == ')');
        assert(rest.contains(')'));
    }
    assert(m == b);
    assert(t.subrange(a + 1, b) =~= content);
    if starts_tight(front) {
        law_indent(lead, front);
        front.index_of_first_ensures('(');
    }
}

/// A header begins with `#` and the number of its sprite, which has 16 bits.
pub proof fn law_sprite_id(n: nat, rest: Seq<char>, t: Seq<char>)
    requires
        no_digit_next(rest),
    ensures
        sprite_id(seq!['#'] + (decimal(n) + rest)) == (if n <= u16::MAX {
            Some(n as u16)
        } else {
            None
        }),
        sprite_id(seq!['#'] + rest) is None,
        t.len() == 0 || t[0] != '#' ==> sprite_id(t) is None,
{
    lemma_number_in_front(n, rest, u16::MAX as nat);
    assert((seq!['#'] + (decimal(n) + rest)).skip(1) =~= decimal(n) + rest);
    assert((seq!['#'] + rest).skip(1) =~= rest);
    lemma_digit_run_is(rest, 0);
}

/// `<action>-<variant>.` begins a line of a variant, and `<action>.` one of an action.
pub proof fn law_action_lines(base: u32, variant: u32, rest: Seq<char>, other: Seq<char>)
    requires
        no_digit_next(other),
        other.len() > 0 ==> other[0] != '.' && other[0] != '-',
    ensures
        variant_line(
            decimal(base as nat) + (seq!['-'] + (decimal(variant as nat) + (seq!['.'] + rest))),
        ) == Some((base, variant)),
        action_number(
            decimal(base as nat) + (seq!['-'] + (decimal(variant as nat) + (seq!['.'] + rest))),
        ) is None,
        action_number(decimal(base as nat) + (seq!['.'] + rest)) == Some(base),
        variant_line(decimal(base as nat) + (seq!['.'] + rest)) is None,
        variant_line(decimal(base as nat) + other) is None,
        action_number(decimal(base as nat) + other) is None,
        variant_line(other) is None,
        action_number(other) is None,
{
    let dot = seq!['.'] + rest;
    let tail = decimal(variant as nat) + dot;
    let dash = seq!['-'] + tail;
    assert(dot[0] == '.' && dash[0] == '-');
    lemma_number_in_front(variant as nat, dot, u32::MAX as nat);
    lemma_number_in_front(base as nat, dash, u32::MAX as nat);
    lemma_number_in_front(base as nat, dot, u32::MAX as nat);
    lemma_number_in_front(base as nat, other, u32::MAX as nat);
    let n = decimal(base as nat).len() as int;
    let t = decimal(base as nat) + dash;
    assert(t[n] == '-');
    assert(t.skip(n + 1) =~= tail);
    assert(tail[decimal(variant as nat).len() as int] == '.');
    let u = decimal(base as nat) + dot;
    assert(u[n] == '.');
    let v = decimal(base as nat) + other;
    if other.len() > 0 {
        assert(v[n] == other[0]);
    }
    lemma_digit_run_is(other, 0);
}

/// The name of an action stands between the dot and the bracket, without white space
/// around it.
pub proof fn law_action_name(
    front: Seq<char>,
    a: Seq<char>,
    name: Seq<char>,
    b: Seq<char>,
    rest: Seq<char>,
)
    requires
        !front.contains('.'),
        blank(a) && blank(b),
        tight(name),
        !name.contains('('),
    ensures
        action_name(front + seq!['.'] + (a + name + b + seq!['('] + rest)) == name,
        action_name(front + seq!['.'] + (a + name + b)) == name,
        action_name(front) == Seq::<char>::empty(),
{
    let body = a + name + b;
    assert(!body.contains('(')) by {
        if body.contains('(') {
            let i = choose|i: int| 0 <= i < body.len() && body[i] == '(';
            if i < a.len() {
                assert(is_space(a[i]));
            } else if i < a.len() + name.len() {
                assert(name[i - a.len()] == '(');
                assert(name.contains('('));
            } else {
                assert(is_space(b[i - a.len() - name.len()]));
            }
        }
    }
    law_trim(a, name, b);
    let full = body + seq!['('] + rest;
    assert(a + name + b + seq!['('] + rest =~= full);
    law_split_once(front, '.', full);
    law_split_once(front, '.', body);
    law_split_once(body, '(', rest);
    lemma_cut(front, '.', full);
    lemma_cut(front, '.', body);
    lemma_cut(body, '(', rest);
}

proof fn lemma_cut(a: Seq<char>, c: char, b: Seq<char>)
    requires
        !a.contains(c),
    ensures
        (a + seq![c] + b).index_of_first(c) == Some(a.len() as int),
        (a + seq![c] + b).take(a.len() as int) == a,
        (a + seq![c] + b).skip(a.len() as int + 1) == b,
        a.index_of_first(c) is None,
{
    let t = a + seq![c] + b;
    assert(t[a.len() as int] == c);
    assert(t.contains(c));
    t.index_of_first_ensures(c);
    a.index_of_first_ensures(c);
    let k = t.index_of_first(c)->0;
    if k < a.len() {
        assert(a[k] == c);
        assert(a.contains(c));
    }
    assert(t.take(a.len() as int) =~= a);
    assert(t.skip(a.len() as int + 1) =~= b);
}

/// A header gives the count of images, the image file behind an equals sign, and the
/// name.
pub proof fn law_header(
    id: nat,
    gap: Seq<char>,
    count: u32,
    gfx: u32,
    a: Seq<char>,
    name: Seq<char>,
    b: Seq<char>,
)
    requires
        gap.len() > 0,
        blank(gap) && blank(a) && blank(b),
        tight(name),
        no_digit_next(a + name + b),
    ensures
        header_ext(
            seq!['#'] + (decimal(id) + (gap + (decimal(count as nat) + (seq!['='] + (decimal(
                gfx as nat,
            ) + (a + name + b)))))),
        ) == Some((count, Some(gfx), name)),
        name.len() == 0 || a.len() > 0 || name[0] != '=' ==> header_ext(
            seq!['#'] + (decimal(id) + (gap + (decimal(count as nat) + (a + name + b)))),
        ) == Some((count, None::<u32>, name)),
{
    let tail = a + name + b;
    law_trim(a, name, b);
    lemma_header(id, gap, count, tail);
    let g = decimal(gfx as nat) + tail;
    let eq = seq!['='] + g;
    assert(eq[0] == '=');
    lemma_header(id, gap, count, eq);
    assert(eq.skip(1) =~= g);
    lemma_number_in_front(gfx as nat, tail, u32::MAX as nat);
    if tail.len() > 0 && tail[0] == '=' {
        if a.len() > 0 {
            assert(is_space(a[0]));
        } else if name.len() == 0 {
            assert(is_space(b[0]));
        }
    }
}

proof fn lemma_header(id: nat, gap: Seq<char>, count: u32, tail: Seq<char>)
    requires
        gap.len() > 0,
        blank(gap),
        no_digit_next(tail),
    ensures
        ({
            let t = seq!['#'] + (decimal(id) + (gap + (decimal(count as nat) + tail)));
            let after = t.skip(1);
            let rest = trim_start_of(after.skip(digit_run(after) as int));
            &&& t.len() > 0 && t[0] == '#'
            &&& digit_run(after) < after.len()
            &&& rest == decimal(count as nat) + tail
            &&& digit_run(rest) == decimal(count as nat).len()
            &&& digit_run(rest) > 0
            &&& parse_dec(rest.take(digit_run(rest) as int), u32::MAX as nat) == Some(count as nat)
            &&& rest.skip(digit_run(rest) as int) == tail
        }),
{
    let body = decimal(count as nat) + tail;
    let spaced = gap + body;
    let after = decimal(id) + spaced;
    let t = seq!['#'] + after;
    assert(t.skip(1) =~= after);
    assert(spaced[0] == gap[0]);
    assert(is_space(gap[0]));
    lemma_number_in_front(id, spaced, u32::MAX as nat);
    lemma_number_in_front(count as nat, tail, u32::MAX as nat);
    assert(!is_space(body[0]));
    law_indent(gap, body);
}

/// A frame begins with the number of its picture and a dot.
pub proof fn law_frame_row(n: u32, rest: Seq<char>)
    ensures
        frame_row(decimal(n as nat) + seq!['.'] + rest) == Some(n),
{
    lemma_decimal(n as nat);
    law_number(n as nat, Seq::empty(), u32::MAX as nat);
    lemma_no_char(n as nat, '.');
    lemma_cut(decimal(n as nat), '.', rest);
}

proof fn lemma_no_char(n: nat, c: char)
    requires
        !is_digit(c),
    ensures
        !decimal(n).contains(c),
{
    let d = decimal(n);
    lemma_decimal(n);
    if d.contains(c) {
        let i = choose|i: int| 0 <= i < d.len() && d[i] == c;
        assert(is_digit(d[i]));
    }
}

/// The pictures of two walks alternate the same either way round, never with
/// themselves, and only where the first picture of each is what all the others of the
/// other one are.
pub proof fn law_alternating(h: Seq<char>, g: Seq<char>, body: Seq<char>, other: Seq<char>)
    requires
        !h.contains(',') && !g.contains(','),
    ensures
        ({
            let x = h + seq![','] + body;
            let y = g + seq![','] + other;
            &&& interleaved(x, y) == interleaved(y, x)
            &&& !interleaved(x, x)
            &&& interleaved(x, y) ==> {
                &&& trim_of(h) == trim_of(g)
                &&& words_of(body).len() == words_of(other).len()
                &&& words_of(body).len() >= 2
                &&& frame_row(words_of(body)[0]) != frame_row(words_of(other)[0])
                &&& forall|i: int|
                    1 <= i < words_of(body).len() ==> frame_row(#[trigger] words_of(body)[i])
                        == frame_row(words_of(other)[0])
                &&& forall|i: int|
                    1 <= i < words_of(body).len() ==> frame_row(#[trigger] words_of(other)[i])
                        == frame_row(words_of(body)[0])
            }
        }),
{
    law_split_once(h, ',', body);
    law_split_once(g, ',', other);
    let x = h + seq![','] + body;
    if interleaved(x, x) {
        assert(false);
    }
}

/// Two walks with the same numbers in front, as many pictures each and at least two,
/// alternate where the first begins with one picture and goes on with another, and the
/// second the other way round.
pub proof fn law_alternates(
    h: Seq<char>,
    body: Seq<char>,
    other: Seq<char>,
    m: u32,
    n: u32,
)
    requires
        !h.contains(','),
        m != n,
        words_of(body).len() == words_of(other).len(),
        words_of(body).len() >= 2,
        frame_row(words_of(body)[0]) == Some(m),
        frame_row(words_of(other)[0]) == Some(n),
        forall|i: int| 1 <= i < words_of(body).len() ==> frame_row(#[trigger] words_of(body)[i])
            == Some(n),
        forall|i: int| 1 <= i < words_of(other).len() ==> frame_row(#[trigger] words_of(other)[i])
            == Some(m),
    ensures
        interleaved(h + seq![','] + body, h + seq![','] + other),
{
    law_split_once(h, ',', body);
    law_split_once(h, ',', other);
}

/// The number of frames is the last one in front of the comma, and the first picture the
/// one behind it, up to its dot.
pub proof fn law_frame_numbers(
    a: Seq<char>,
    dir: Seq<char>,
    c: char,
    count: u32,
    gap: Seq<char>,
    spr: u32,
    rest: Seq<char>,
)
    requires
        blank(a),
        dir.len() > 0,
        forall|i: int| 0 <= i < dir.len() ==> !is_space(#[trigger] dir[i]) && dir[i] != ',',
        is_space(c),
        c != ',',
        blank(gap),
    ensures
        ({
            let content = (a + dir + seq![c] + decimal(count as nat)) + seq![','] + (gap + (decimal(
                spr as nat,
            ) + seq!['.'] + rest));
            &&& frame_count_of(content) == Some(count)
            &&& first_spr_of(content) == Some(spr)
        }),
{
    let d = decimal(count as nat);
    let head = a + dir + seq![c] + d;
    lemma_decimal(count as nat);
    law_number(count as nat, Seq::empty(), u32::MAX as nat);
    assert forall|i: int| 0 <= i < d.len() implies !is_space(#[trigger] d[i]) && d[i] != ',' by {
        assert(is_digit(d[i]));
    }
    assert(!head.contains(',')) by {
        if head.contains(',') {
            let i = choose|i: int| 0 <= i < head.len() && head[i] == ',';
            if i < a.len() {
                assert(is_space(a[i]));
            } else if i < a.len() + dir.len() {
                assert(dir[i - a.len()] == ',');
            } else if i > a.len() + dir.len() {
                assert(d[i - a.len() - dir.len() - 1] == ',');
            }
        }
    }
    let e = Seq::<char>::empty();
    law_words(a, dir, c, d);
    law_words(e, d, ' ', e);
    assert(e + d =~= d);
    assert(words_of(head) =~= seq![dir, d]);
    let s = decimal(spr as nat);
    let pic = s + seq!['.'] + rest;
    let tail = gap + pic;
    lemma_cut(head, ',', tail);
    lemma_decimal(spr as nat);
    law_number(spr as nat, Seq::empty(), u32::MAX as nat);
    assert(is_digit(s[0]));
    assert(pic[0] == s[0]);
    law_indent(gap, pic);
    lemma_no_char(spr as nat, '.');
    lemma_cut(s, '.', rest);
    assert(is_digit(s[s.len() - 1]));
    law_trim(e, s, e);
    assert(e + s + e =~= s);
}

/// What an action is made of: its two numbers in front of the comma are the direction and
/// the number of frames, the first picture stands behind it, and the name is in small
/// letters, without white space around it. The frames are kept as they are written.
pub proof fn law_action(
    line_idx: int,
    indent: Seq<char>,
    base: u32,
    variant: Option<u32>,
    name: Seq<char>,
    rate: Option<Seq<char>>,
    dir: u32,
    count: u32,
    spr: u32,
    rest: Seq<char>,
)
    ensures
        action_of(
            line_idx,
            indent,
            base,
            variant,
            decimal(dir as nat) + seq![' '] + decimal(count as nat) + seq![','] + (decimal(
                spr as nat,
            ) + seq!['.'] + rest),
            name,
            rate,
        ) == Some(
            ActionModel {
                line_idx,
                indent,
                base_action: base,
                dash_variant: variant,
                name: trim_of(lower_of(name)),
                content: decimal(dir as nat) + seq![' '] + decimal(count as nat) + seq![','] + (
                decimal(spr as nat) + seq!['.'] + rest),
                direction: dir,
                frame_count: count,
                first_spr: spr,
                framerate_at_parse: rate,
            },
        ),
{
    let e = Seq::<char>::empty();
    let d = decimal(dir as nat);
    let n = decimal(count as nat);
    let s = decimal(spr as nat);
    lemma_decimal(dir as nat);
    lemma_decimal(count as nat);
    lemma_decimal(spr as nat);
    law_number(dir as nat, e, u32::MAX as nat);
    law_number(count as nat, e, u32::MAX as nat);
    assert forall|i: int| 0 <= i < d.len() implies !is_space(#[trigger] d[i]) && d[i] != ',' by {
        assert(is_digit(d[i]));
    }
    assert forall|i: int| 0 <= i < n.len() implies !is_space(#[trigger] n[i]) && n[i] != ',' by {
        assert(is_digit(n[i]));
    }
    let pic = s + seq!['.'] + rest;
    law_frame_numbers(e, d, ' ', count, e, spr, rest);
    let head = d + seq![' '] + n;
    let content = d + seq![' '] + n + seq![','] + pic;
    assert(e + d + seq![' '] + n =~= head);
    assert(e + pic =~= pic);
    law_words(e, d, ' ', n);
    law_words(e, n, ' ', e);
    assert(e + n =~= n);
    assert(e + d =~= d);
    assert(e + d + seq![' '] + n =~= d + seq![' '] + n);
    assert(words_of(head) =~= seq![d, n]);
    assert(!head.contains(',')) by {
        if head.contains(',') {
            let i = choose|i: int| 0 <= i < head.len() && head[i] == ',';
            if i < d.len() {
                assert(d[i] == ',');
            } else if i > d.len() {
                assert(n[i - d.len() - 1] == ',');
            }
        }
    }
    law_split_once(head, ',', pic);
    assert(is_digit(s[0]));
    assert(pic[0] == s[0]);
    lemma_has_word(pic);
}

proof fn lemma_has_word(s: Seq<char>)
    requires
        starts_tight(s),
    ensures
        words_of(s).len() > 0,
{
    lemma_trim_start_is(s, 0);
    assert(s.skip(0) =~= s);
    crate::text::lemma_word_run(s);
}

/// Frames without a direction and a number in front of a comma, or with nothing behind
/// it, are no action.
pub proof fn law_no_action(
    line_idx: int,
    indent: Seq<char>,
    base: u32,
    variant: Option<u32>,
    content: Seq<char>,
    gap: Seq<char>,
    name: Seq<char>,
    rate: Option<Seq<char>>,
)
    requires
        blank(gap),
        !content.contains(','),
    ensures
        action_of(line_idx, indent, base, variant, content, name, rate) is None,
        action_of(line_idx, indent, base, variant, content + seq![','] + gap, name, rate) is None,
        forall|rest: Seq<char>|
            words_of(content).len() < 2 ==> action_of(
                line_idx,
                indent,
                base,
                variant,
                #[trigger] (content + seq![','] + rest),
                name,
                rate,
            ) is None,
{
    law_split_once(content, ',', gap);
    law_words(gap, seq!['x'], ' ', gap);
    assert forall|rest: Seq<char>| words_of(content).len() < 2 implies action_of(
        line_idx,
        indent,
        base,
        variant,
        #[trigger] (content + seq![','] + rest),
        name,
        rate,
    ) is None by {
        law_split_once(content, ',', rest);
    }
}

/// A header opens a sprite with its number, its line, its count of images, its image
/// file and its name; no frame rate holds in it yet.
pub proof fn law_header_opens_a_sprite(
    st: ParseState,
    line_idx: int,
    lead: Seq<char>,
    id: u16,
    gap: Seq<char>,
    count: u32,
    gfx: u32,
    a: Seq<char>,
    name: Seq<char>,
    b: Seq<char>,
)
    requires
        blank(lead),
        gap.len() > 0,
        blank(gap) && blank(a) && blank(b),
        tight(name),
        no_digit_next(a + name + b),
    ensures
        ({
            let line = lead + (seq!['#'] + (decimal(id as nat) + (gap + (decimal(count as nat) + (
            seq!['='] + (decimal(gfx as nat) + (a + name + b)))))));
            let after = parse_line(st, line_idx, line);
            let s = after.sprites[st.sprites.len() as int];
            &&& after.framerate is None
            &&& after.sprites.len() == st.sprites.len() + 1
            &&& forall|i: int| 0 <= i < st.sprites.len() ==> after.sprites[i] == st.sprites[i]
            &&& s.sid == id && s.header_line_idx == line_idx && s.header_text == line
            &&& s.img_count == count && s.gfx_id == Some(gfx) && s.name == name
            &&& s.framerate is None
        }),
{
    let rest = a + name + b;
    let eq = seq!['='] + (decimal(gfx as nat) + rest);
    let tail = gap + (decimal(count as nat) + eq);
    let t = seq!['#'] + (decimal(id as nat) + tail);
    assert(t[0] == '#');
    law_indent(lead, t);
    assert(tail[0] == gap[0]);
    assert(is_space(gap[0]));
    law_sprite_id(id as nat, tail, t);
    law_header(id as nat, gap, count, gfx, a, name, b);
}

/// The line of an action adds that action to the sprite that was opened last, with the
/// frame rate that holds there, and changes nothing else.
pub proof fn law_action_joins_the_last_sprite(
    st: ParseState,
    line_idx: int,
    lead: Seq<char>,
    base: u32,
    name: Seq<char>,
    dir: u32,
    count: u32,
    spr: u32,
    rest: Seq<char>,
    end: Seq<char>,
)
    requires
        st.sprites.len() > 0,
        blank(lead),
        base != 110,
        tight(name),
        !name.contains('('),
        !end.contains(')'),
    ensures
        ({
            let content = decimal(dir as nat) + seq![' '] + decimal(count as nat) + seq![','] + (
            decimal(spr as nat) + seq!['.'] + rest);
            let line = lead + (decimal(base as nat) + seq!['.'] + name + seq!['('] + content + seq![
                ')',
            ] + end);
            let after = parse_line(st, line_idx, line);
            let n = st.sprites.len() - 1;
            let old_sprite = st.sprites[n];
            &&& after.framerate == st.framerate
            &&& after.sprites == st.sprites.update(
                n,
                SpriteModel {
                    actions: old_sprite.actions.push(
                        ActionModel {
                            line_idx,
                            indent: lead,
                            base_action: base,
                            dash_variant: None,
                            name: trim_of(lower_of(name)),
                            content,
                            direction: dir,
                            frame_count: count,
                            first_spr: spr,
                            framerate_at_parse: st.framerate,
                        },
                    ),
                    ..old_sprite
                },
            )
        }),
{
    let content = decimal(dir as nat) + seq![' '] + decimal(count as nat) + seq![','] + (decimal(
        spr as nat,
    ) + seq!['.'] + rest);
    let t = decimal(base as nat) + seq!['.'] + name + seq!['('] + content + seq![')'] + end;
    lemma_action_parts(lead, base, name, content, end);
    law_action(line_idx, lead, base, None, name, st.framerate, dir, count, spr, rest);
    let after = parse_line(st, line_idx, lead + t);
    let n = st.sprites.len() - 1;
    assert(st.sprites.last() == st.sprites[n]);
    assert(after.sprites =~= st.sprites.update(n, after.sprites[n]));
}

/// What the line of an action is made of.
proof fn lemma_action_parts(
    lead: Seq<char>,
    base: u32,
    name: Seq<char>,
    content: Seq<char>,
    end: Seq<char>,
)
    requires
        blank(lead),
        !name.contains('('),
        !end.contains(')'),
    ensures
        ({
            let t = decimal(base as nat) + seq!['.'] + name + seq!['('] + content + seq![')'] + end;
            &&& t.len() > 0 && t[0] != '#'
            &&& trim_start_of(lead + t) == t
            &&& (lead + t).take((lead + t).len() - t.len()) == lead
            &&& variant_line(t) is None
            &&& action_number(t) == Some(base)
            &&& frame_content(lead + t) == content
            &&& tight(name) ==> action_name(t) == name
        }),
{
    let d = decimal(base as nat);
    let t = d + seq!['.'] + name + seq!['('] + content + seq![')'] + end;
    let tail = name + seq!['('] + content + seq![')'] + end;
    let e = Seq::<char>::empty();
    assert(t =~= d + (seq!['.'] + tail));
    lemma_decimal(base as nat);
    assert(is_digit(d[0]));
    assert(t[0] == d[0]);
    law_indent(lead, t);
    law_action_lines(base, 0, tail, e);
    let front = d + seq!['.'] + name;
    assert(!front.contains('(')) by {
        if front.contains('(') {
            let i = choose|i: int| 0 <= i < front.len() && front[i] == '(';
            if i < d.len() {
                assert(is_digit(d[i]));
            } else if i > d.len() {
                assert(name[i - d.len() - 1] == '(');
                assert(name.contains('('));
            }
        }
    }
    assert(front[0] == d[0]);
    law_frames_between_brackets(lead, front, content, end);
    lemma_no_char(base as nat, '.');
    if tight(name) {
        law_action_name(d, e, name, e, content + seq![')'] + end);
        assert(d + seq!['.'] + (e + name + e + seq!['('] + (content + seq![')'] + end)) =~= t);
    }
}

/// The variants 1 and 2 of an action are added likewise, as variants; another variant is
/// passed over.
pub proof fn law_variant_joins_the_last_sprite(
    st: ParseState,
    line_idx: int,
    lead: Seq<char>,
    base: u32,
    variant: u32,
    name: Seq<char>,
    dir: u32,
    count: u32,
    spr: u32,
    rest: Seq<char>,
    end: Seq<char>,
)
    requires
        st.sprites.len() > 0,
        blank(lead),
        tight(name),
        !name.contains('('),
        !end.contains(')'),
    ensures
        ({
            let content = decimal(dir as nat) + seq![' '] + decimal(count as nat) + seq![','] + (
            decimal(spr as nat) + seq!['.'] + rest);
            let line = lead + (decimal(base as nat) + seq!['-'] + decimal(variant as nat) + seq![
                '.',
            ] + name + seq!['('] + content + seq![')'] + end);
            let after = parse_line(st, line_idx, line);
            let n = st.sprites.len() - 1;
            let old_sprite = st.sprites[n];
            &&& after.framerate == st.framerate
            &&& variant != 1 && variant != 2 ==> after == st
            &&& variant == 1 || variant == 2 ==> after.sprites == st.sprites.update(
                n,
                SpriteModel {
                    actions: old_sprite.actions.push(
                        ActionModel {
                            line_idx,
                            indent: lead,
                            base_action: base,
                            dash_variant: Some(variant),
                            name: trim_of(lower_of(name)),
                            content,
                            direction: dir,
                            frame_count: count,
                            first_spr: spr,
                            framerate_at_parse: st.framerate,
                        },
                    ),
                    ..old_sprite
                },
            )
        }),
{
    let content = decimal(dir as nat) + seq![' '] + decimal(count as nat) + seq![','] + (decimal(
        spr as nat,
    ) + seq!['.'] + rest);
    let t = decimal(base as nat) + seq!['-'] + decimal(variant as nat) + seq!['.'] + name + seq![
        '(',
    ] + content + seq![')'] + end;
    lemma_variant_parts(lead, base, variant, name, content, end);
    law_action(line_idx, lead, base, Some(variant), name, st.framerate, dir, count, spr, rest);
    let after = parse_line(st, line_idx, lead + t);
    let n = st.sprites.len() - 1;
    assert(st.sprites.last() == st.sprites[n]);
    if variant == 1 || variant == 2 {
        assert(after.sprites =~= st.sprites.update(n, after.sprites[n]));
    }
}

/// What the line of a variant is made of.
proof fn lemma_variant_parts(
    lead: Seq<char>,
    base: u32,
    variant: u32,
    name: Seq<char>,
    content: Seq<char>,
    end: Seq<char>,
)
    requires
        blank(lead),
        tight(name),
        !name.contains('('),
        !end.contains(')'),
    ensures
        ({
            let t = decimal(base as nat) + seq!['-'] + decimal(variant as nat) + seq!['.'] + name
                + seq!['('] + content + seq![')'] + end;
            &&& t.len() > 0 && t[0] != '#'
            &&& trim_start_of(lead + t) == t
            &&& (lead + t).take((lead + t).len() - t.len()) == lead
            &&& variant_line(t) == Some((base, variant))
            &&& frame_content(lead + t) == content
            &&& action_name(t) == name
        }),
{
    let d = decimal(base as nat);
    let v = decimal(variant as nat);
    let f = d + seq!['-'] + v;
    let t = f + seq!['.'] + name + seq!['('] + content + seq![')'] + end;
    let tail = name + seq!['('] + content + seq![')'] + end;
    let e = Seq::<char>::empty();
    assert(t =~= d + (seq!['-'] + (v + (seq!['.'] + tail))));
    lemma_decimal(base as nat);
    lemma_decimal(variant as nat);
    assert(is_digit(d[0]));
    assert(t[0] == d[0]);
    law_indent(lead, t);
    law_action_lines(base, variant, tail, e);
    assert forall|i: int| 0 <= i < f.len() implies (#[trigger] f[i]) != '.' && f[i] != '(' by {
        if i < d.len() {
            assert(is_digit(d[i]));
        } else if i > d.len() {
            assert(is_digit(v[i - d.len() - 1]));
        }
    }
    let front = f + seq!['.'] + name;
    assert(!front.contains('(')) by {
        if front.contains('(') {
            let i = choose|i: int| 0 <= i < front.len() && front[i] == '(';
            if i < f.len() {
                assert(f[i] == '(');
            } else if i > f.len() {
                assert(name[i - f.len() - 1] == '(');
                assert(name.contains('('));
            }
        }
    }
    assert(front[0] == d[0]);
    law_frames_between_brackets(lead, front, content, end);
    assert(!f.contains('.'));
    law_action_name(f, e, name, e, content + seq![')'] + end);
    assert(f + seq!['.'] + (e + name + e + seq!['('] + (content + seq![')'] + end)) =~= t);
}

/// The action 110 gives the frame rate of the actions behind it; the sprite keeps the
/// first one.
pub proof fn law_rate_line(
    st: ParseState,
    line_idx: int,
    lead: Seq<char>,
    name: Seq<char>,
    rate: Seq<char>,
    end: Seq<char>,
)
    requires
        st.sprites.len() > 0,
        blank(lead),
        !name.contains('('),
        !end.contains(')'),
        rate.len() > 0,
        !rate.contains(','),
    ensures
        ({
            let line = lead + (decimal(110) + seq!['.'] + name + seq!['('] + rate + seq![')'] + end);
            let after = parse_line(st, line_idx, line);
            let n = st.sprites.len() - 1;
            &&& after.framerate == Some(rate)
            &&& st.sprites[n].framerate is None ==> after.sprites == st.sprites.update(
                n,
                SpriteModel { framerate: Some(rate), ..st.sprites[n] },
            )
            &&& st.sprites[n].framerate is Some ==> after.sprites == st.sprites
        }),
{
    let t = decimal(110) + seq!['.'] + name + seq!['('] + rate + seq![')'] + end;
    let e = Seq::<char>::empty();
    lemma_action_parts(lead, 110, name, rate, end);
    let n = st.sprites.len() - 1;
    let after = parse_line(st, line_idx, lead + t);
    law_no_action(
        line_idx,
        lead,
        110,
        None,
        rate,
        e,
        action_name(t),
        Some(rate),
    );
    assert(st.sprites.last() == st.sprites[n]);
    if st.sprites[n].framerate is None {
        assert(after.sprites =~= st.sprites.update(
            n,
            SpriteModel { framerate: Some(rate), ..st.sprites[n] },
        ));
    } else {
        assert(after.sprites =~= st.sprites);
    }
}

/// A line in front of the first header, and one that begins with neither a header nor an
/// action, change nothing.
pub proof fn law_other_lines(st: ParseState, line_idx: int, lead: Seq<char>, t: Seq<char>)
    requires
        blank(lead),
        starts_tight(t),
    ensures
        t[0] != '#' && st.sprites.len() == 0 ==> parse_line(st, line_idx, lead + t) == st,
        t[0] != '#' && !is_digit(t[0]) ==> parse_line(st, line_idx, lead + t) == st,
        t.len() > 1 && t[0] == '#' && !is_digit(t[1]) ==> parse_line(st, line_idx, lead + t) == st,
{
    law_indent(lead, t);
    if !is_digit(t[0]) {
        lemma_digit_run_is(t, 0);
    }
    if t.len() > 1 && t[0] == '#' && !is_digit(t[1]) {
        let u = t.skip(1);
        assert(u[0] == t[1]);
        lemma_digit_run_is(u, 0);
    }
}

/// The lines of a table are read from the first to the last.
pub proof fn law_lines_are_read_in_order(lines: Seq<Seq<char>>, k: nat)
    requires
        k < lines.len(),
    ensures
        parse_lines(lines, 0) == (ParseState { sprites: Seq::empty(), framerate: None }),
        parse_lines(lines, k + 1) == parse_line(parse_lines(lines, k), k as int, lines[k as int]),
{
}

/// The actions that a header may hold in its own line.
pub proof fn law_inline_codes(code: u32)
    ensures
        inline_codes().contains(code) <==> super::classify::is_walk_action(code) || code == 32 || code
            == 33,
{
    let s = inline_codes();
    assert(s.len() == 16);
    assert(s[0] == 0 && s[1] == 4 && s[2] == 11 && s[3] == 20 && s[4] == 24 && s[5] == 40 && s[6]
        == 46 && s[7] == 50 && s[8] == 54 && s[9] == 58 && s[10] == 62 && s[11] == 83 && s[12] == 88
        && s[13] == 119 && s[14] == 32 && s[15] == 33);
}

/// An action in the line of a header is found behind a blank, with what its brackets
/// hold and its name.
pub proof fn law_inline_action(
    front: Seq<char>,
    code: u32,
    name: Seq<char>,
    content: Seq<char>,
    rest: Seq<char>,
)
    requires
        front.len() > 0,
        front[front.len() - 1] == ' ' || front[front.len() - 1] == '\t',
        forall|i: int|
            0 <= i < front.len() ==> (#[trigger] front[i]) != '(' && front[i] != ')' && !is_digit(
                front[i],
            ),
        !name.contains('('),
        !content.contains(')'),
    ensures
        inline_scan(
            front + (decimal(code as nat) + (seq!['.'] + (name + seq!['('] + (content + seq![')']
                + rest)))),
            code,
            0,
            0,
        ) == Some((content, trim_of(name))),
{
    let inner = content + seq![')'] + rest;
    let body = name + seq!['('] + inner;
    let dot = seq!['.'] + body;
    let num = decimal(code as nat) + dot;
    let s = front + num;
    let n = front.len() as int;
    lemma_number_in_front(code as nat, dot, u32::MAX as nat);
    lemma_scan(s, code, 0, n);
    assert(s.skip(n) =~= num);
    assert(s[n] == num[0]);
    assert(s[n - 1] == front[n - 1]);
    let e = n + decimal(code as nat).len();
    assert(s[e] == '.') by {
        assert(num[decimal(code as nat).len() as int] == dot[0]);
    }
    assert(s.subrange(n, e) =~= decimal(code as nat));
    assert(s.skip(e) =~= dot);
    let named = seq!['.'] + name;
    assert(!named.contains('(')) by {
        if named.contains('(') {
            let i = choose|i: int| 0 <= i < named.len() && named[i] == '(';
            assert(i > 0);
            assert(name[i - 1] == '(');
            assert(name.contains('('));
        }
    }
    assert(dot =~= named + seq!['('] + inner);
    lemma_cut(named, '(', inner);
    let p = named.len() as int;
    assert(s.skip(e + p + 1) =~= inner);
    lemma_cut(content, ')', rest);
    assert(s.subrange(e + p + 1, e + p + 1 + content.len()) =~= content);
    assert(s.subrange(e + 1, e + p) =~= name);
    assert(inline_hit(s, code, n, e) == Some((content, trim_of(name))));
}

proof fn lemma_scan(s: Seq<char>, code: u32, i: int, n: int)
    requires
        0 <= i <= n < s.len(),
        forall|k: int|
            0 <= k < n ==> (#[trigger] s[k]) != '(' && s[k] != ')' && !is_digit(s[k]),
    ensures
        inline_scan(s, code, i, 0) == inline_scan(s, code, n, 0),
    decreases n - i,
{
    if i < n {
        assert(s[i] != '(' && s[i] != ')' && !is_digit(s[i]));
        lemma_scan(s, code, i + 1, n);
    }
}

/// What stands in brackets is passed over when an action is looked for in a line.
pub proof fn law_brackets_are_passed_over(s: Seq<char>, code: u32, i: int, j: int)
    requires
        0 <= i < j < s.len(),
        s[i] == '(' && s[j] == ')',
        forall|k: int| i < k < j ==> (#[trigger] s[k]) != '(' && s[k] != ')',
    ensures
        inline_scan(s, code, i, 0) == inline_scan(s, code, j + 1, 0),
{
    lemma_within_brackets(s, code, i + 1, j);
}

proof fn lemma_within_brackets(s: Seq<char>, code: u32, i: int, j: int)
    requires
        0 <= i <= j < s.len(),
        s[j] == ')',
        forall|k: int| i <= k < j ==> (#[trigger] s[k]) != '(' && s[k] != ')',
    ensures
        inline_scan(s, code, i, 1) == inline_scan(s, code, j + 1, 0),
    decreases j - i,
{
    if i < j {
        assert(s[i] != '(' && s[i] != ')');
        lemma_within_brackets(s, code, i + 1, j);
    }
}

/// A number without a dot behind it is no action, and neither is one of another action;
/// both are passed over.
pub proof fn law_other_numbers_are_passed_over(
    front: Seq<char>,
    n: u32,
    rest: Seq<char>,
    code: u32,
)
    requires
        front.len() == 0 || front[front.len() - 1] == ' ' || front[front.len() - 1] == '\t'
            || front[front.len() - 1] == ')',
        no_digit_next(rest),
        rest.len() == 0 || rest[0] != '.' || n != code,
    ensures
        inline_scan(front + (decimal(n as nat) + rest), code, front.len() as int, 0) == inline_scan(
            front + (decimal(n as nat) + rest),
            code,
            front.len() as int + decimal(n as nat).len(),
            0,
        ),
{
    let d = decimal(n as nat);
    let t = d + rest;
    let s = front + t;
    let i = front.len() as int;
    lemma_number_in_front(n as nat, rest, u32::MAX as nat);
    assert(s.skip(i) =~= t);
    assert(s[i] == t[0]);
    if i > 0 {
        assert(s[i - 1] == front[i - 1]);
    }
    let e = i + d.len();
    assert(s.subrange(i, e) =~= d);
    if rest.len() > 0 {
        assert(s[e] == rest[0]);
    }
    assert(inline_hit(s, code, i, e) is None);
}

/// A digit that belongs to a word is no number of an action.
pub proof fn law_digits_of_words(s: Seq<char>, code: u32, i: int)
    requires
        0 < i < s.len(),
        s[i] != '(' && s[i] != ')',
        s[i - 1] != ' ' && s[i - 1] != '\t' && s[i - 1] != ')',
    ensures
        inline_scan(s, code, i, 0) == inline_scan(s, code, i + 1, 0),
{
}

proof fn lemma_inline_kept(line_idx: int, t: Seq<char>, k: nat, n: nat, a: ActionModel)
    requires
        k <= n,
        inline_actions(line_idx, t, k).contains(a),
    ensures
        inline_actions(line_idx, t, n).contains(a),
    decreases n,
{
    if k < n {
        lemma_inline_kept(line_idx, t, k, (n - 1) as nat, a);
        let before = inline_actions(line_idx, t, (n - 1) as nat);
        let i = choose|i: int| 0 <= i < before.len() && before[i] == a;
        assert(inline_actions(line_idx, t, n)[i] == a);
    }
}

/// Every action that stands in the line of a header is one of the sprite's, without a
/// variant and without a frame rate.
pub proof fn law_inline_actions_count(
    line_idx: int,
    line: Seq<char>,
    sid: u16,
    k: int,
    content: Seq<char>,
    name: Seq<char>,
)
    requires
        0 <= k < 16,
        inline_scan(trim_start_of(line), inline_codes()[k], 0, 0) == Some((content, name)),
        action_of(line_idx, Seq::empty(), inline_codes()[k], None, content, name, None) is Some,
    ensures
        header_sprite(line_idx, line, sid).actions.contains(
            action_of(
                line_idx,
                Seq::empty(),
                inline_codes()[k],
                None,
                content,
                name,
                None,
            )->0,
        ),
{
    let t = trim_start_of(line);
    let a = action_of(line_idx, Seq::empty(), inline_codes()[k], None, content, name, None)->0;
    let n = (k + 1) as nat;
    let all = inline_actions(line_idx, t, n);
    assert(all[all.len() - 1] == a);
    lemma_inline_kept(line_idx, t, n, 16, a);
}

} // verus!

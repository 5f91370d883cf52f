//! What holds of every conversion.

use super::classify::{has_run, own_role, own_roles, roles_of};
use super::emit::{
    dash_on, dash_sprite, emitted, kept_line, last_kept, last_with, left_out, line_out, lines_out,
    opens_at, owner, rewrites_header, slot_line, slot_lines,
};
use super::helpers::{action_number, sprite_id, variant_line};
use super::parse::{
    action_of, header_sprite, inline_actions, parse_lines, parsed, with_action, with_framerate,
    ParseState,
};
use super::pipeline::pairs_of;
use super::types::{ActionModel, RunPairModel, SpriteFileModel, SpriteModel, SpriteRole};
use crate::text::{contains_text, digit_run, occurs_at, split_of, trim_start_of};
use vstd::prelude::*;

verus! {

/// Lines joined by line feeds.
pub open spec fn joined(lines: Seq<Seq<char>>) -> Seq<char>
    decreases lines.len(),
{
    if lines.len() == 0 {
        seq![]
    } else if lines.len() == 1 {
        lines[0]
    } else {
        lines[0].push('\n') + joined(lines.skip(1))
    }
}

/// Splitting a text at its line feeds loses nothing.
pub proof fn law_lines_join_to_text(s: Seq<char>)
    ensures
        joined(split_of(s, '\n')) == s,
        split_of(s, '\n').len() > 0,
    decreases s.len(),
{
    s.index_of_first_ensures('\n');
    match s.index_of_first('\n') {
        Some(i) => {
            let rest = split_of(s.skip(i + 1), '\n');
            law_lines_join_to_text(s.skip(i + 1));
            let all = split_of(s, '\n');
            assert(all == seq![s.take(i)] + rest);
            assert(all.skip(1) == rest);
            assert(all[0].push('\n') + s.skip(i + 1) == s);
        },
        None => {},
    }
}

spec fn plain_lines(lines: Seq<Seq<char>>, k: nat) -> Seq<char>
    decreases k,
{
    if k == 0 {
        seq![]
    } else {
        plain_lines(lines, (k - 1) as nat) + lines[k - 1].push('\n')
    }
}

proof fn lemma_plain_lines(lines: Seq<Seq<char>>, k: nat)
    requires
        k < lines.len(),
    ensures
        plain_lines(lines, k) + joined(lines.skip(k as int)) == joined(lines),
    decreases k,
{
    if k == 0 {
        assert(lines.skip(0) == lines);
    } else {
        lemma_plain_lines(lines, (k - 1) as nat);
        let t = lines.skip(k - 1);
        assert(t.skip(1) == lines.skip(k as int));
        assert(joined(t) == lines[k - 1].push('\n') + joined(lines.skip(k as int)));
        assert(plain_lines(lines, k) + joined(lines.skip(k as int)) == plain_lines(
            lines,
            (k - 1) as nat,
        ) + joined(t));
    }
}

/// A table in which nothing is left out comes out as it went in where no sprite
/// gets a run pair.
pub proof fn law_nothing_to_do(text: Seq<char>)
    requires
        forall|idx: int| 0 <= idx < parsed(text).raw_lines.len() ==> !left_out(parsed(text), idx),
    ensures
        emitted(parsed(text), Map::<u16, RunPairModel>::empty()) == text,
{
    let sf = parsed(text);
    let pairs = Map::<u16, RunPairModel>::empty();
    let n = sf.raw_lines.len();
    law_lines_join_to_text(text);
    assert("\n"@ == seq!['\n']) by {
        reveal_strlit("\n");
    }
    assert forall|k: nat| k < n implies lines_out(sf, pairs, k) == #[trigger] plain_lines(
        sf.raw_lines,
        k,
    ) by {
        lemma_same_lines(sf, pairs, k);
    }
    assert(plain_lines(sf.raw_lines, (n - 1) as nat) == lines_out(sf, pairs, (n - 1) as nat));
    lemma_plain_lines(sf.raw_lines, (n - 1) as nat);
    assert(sf.raw_lines.skip(n - 1) == seq![sf.raw_lines[n - 1]]);
    assert(line_out(sf, pairs, n - 1) == sf.raw_lines[n - 1]);
    assert(lines_out(sf, pairs, n) == text);
}

proof fn lemma_same_lines(sf: SpriteFileModel, pairs: Map<u16, RunPairModel>, k: nat)
    requires
        pairs == Map::<u16, RunPairModel>::empty(),
        k < sf.raw_lines.len(),
        forall|idx: int| 0 <= idx < sf.raw_lines.len() ==> !left_out(sf, idx),
    ensures
        lines_out(sf, pairs, k) == plain_lines(sf.raw_lines, k),
    decreases k,
{
    reveal_strlit("\n");
    if k > 0 {
        lemma_same_lines(sf, pairs, (k - 1) as nat);
        assert(!left_out(sf, k - 1));
        assert(line_out(sf, pairs, k - 1) == sf.raw_lines[k - 1].push('\n'));
    }
}

/// A line that is not left out and is no header with a new image count stands
/// in the output as it was.
pub proof fn law_kept_lines_stay(sf: SpriteFileModel, pairs: Map<u16, RunPairModel>, idx: int)
    requires
        0 <= idx < sf.raw_lines.len(),
        !left_out(sf, idx),
        rewrites_header(sf, pairs, idx) is None,
    ensures
        sf.raw_lines[idx].is_prefix_of(line_out(sf, pairs, idx)),
        contains_text(emitted(sf, pairs), sf.raw_lines[idx]),
{
    let r = line_out(sf, pairs, idx);
    assert(r.subrange(0, sf.raw_lines[idx].len() as int) == sf.raw_lines[idx]);
    lemma_part_occurs(sf, pairs, idx, sf.raw_lines.len(), sf.raw_lines[idx], 0);
}

proof fn lemma_part_occurs(
    sf: SpriteFileModel,
    pairs: Map<u16, RunPairModel>,
    idx: int,
    k: nat,
    p: Seq<char>,
    at: int,
)
    requires
        0 <= idx < k,
        k <= sf.raw_lines.len(),
        occurs_at(line_out(sf, pairs, idx), p, at),
    ensures
        contains_text(lines_out(sf, pairs, k), p),
        contains_text(emitted(sf, pairs), p) || k < sf.raw_lines.len(),
    decreases k,
{
    let all = lines_out(sf, pairs, k);
    if idx == k - 1 {
        let before = lines_out(sf, pairs, (k - 1) as nat);
        let part = line_out(sf, pairs, idx);
        assert(all.subrange(before.len() + at, before.len() + at + p.len()) == part.subrange(
            at,
            at + p.len(),
        ));
        assert(occurs_at(all, p, before.len() + at));
    } else {
        lemma_part_occurs(sf, pairs, idx, (k - 1) as nat, p, at);
        let before = lines_out(sf, pairs, (k - 1) as nat);
        let i = choose|i: int| occurs_at(before, p, i);
        assert(all.subrange(i, i + p.len()) == before.subrange(i, i + p.len()));
        assert(occurs_at(all, p, i));
    }
    if k == sf.raw_lines.len() {
        let i = choose|i: int| occurs_at(all, p, i);
        let e = emitted(sf, pairs);
        assert(e.subrange(i, i + p.len()) == all.subrange(i, i + p.len()));
        assert(occurs_at(e, p, i));
    }
}

/// How the sprites of a table lie: their headers follow one another, and each
/// action stands between its sprite's header and the next one.
pub open spec fn well_laid(sprites: Seq<SpriteModel>, k: int) -> bool {
    &&& forall|i: int|
        0 <= i < sprites.len() ==> 0 <= (#[trigger] sprites[i]).header_line_idx < k
    &&& forall|i: int, j: int|
        0 <= i < j < sprites.len() ==> (#[trigger] sprites[i]).header_line_idx < (
        #[trigger] sprites[j]).header_line_idx
    &&& forall|i: int, a: int|
        #![trigger sprites[i].actions[a]]
        0 <= i < sprites.len() && 0 <= a < sprites[i].actions.len() ==> {
            &&& sprites[i].header_line_idx <= sprites[i].actions[a].line_idx < k
            &&& sprites[i].actions[a].dash_variant is Some ==> sprites[i].header_line_idx
                < sprites[i].actions[a].line_idx
            &&& i + 1 < sprites.len() ==> sprites[i].actions[a].line_idx < sprites[i
                + 1].header_line_idx
        }
}

proof fn lemma_inline_lines(line_idx: int, t: Seq<char>, k: nat)
    ensures
        forall|a: int|
            0 <= a < inline_actions(line_idx, t, k).len() ==> (#[trigger] inline_actions(
                line_idx,
                t,
                k,
            )[a]).line_idx == line_idx && inline_actions(line_idx, t, k)[a].dash_variant is None,
    decreases k,
{
    if k > 0 {
        lemma_inline_lines(line_idx, t, (k - 1) as nat);
    }
}

proof fn lemma_with_action_laid(sprites: Seq<SpriteModel>, a: Option<ActionModel>, k: int)
    requires
        well_laid(sprites, k),
        sprites.len() > 0,
        a is Some ==> a->0.line_idx == k,
    ensures
        well_laid(with_action(sprites, a), k + 1),
        with_action(sprites, a).len() == sprites.len(),
{
    let r = with_action(sprites, a);
    assert forall|i: int, b: int|
        #![trigger r[i].actions[b]]
        0 <= i < r.len() && 0 <= b < r[i].actions.len() implies {
        &&& r[i].header_line_idx <= r[i].actions[b].line_idx < k + 1
        &&& r[i].actions[b].dash_variant is Some ==> r[i].header_line_idx < r[i].actions[b].line_idx
        &&& i + 1 < r.len() ==> r[i].actions[b].line_idx < r[i + 1].header_line_idx
    } by {
        if i < sprites.len() - 1 || a is None {
            assert(r[i] == sprites[i]);
            assert(sprites[i].actions[b] == r[i].actions[b]);
        } else {
            if b < sprites[i].actions.len() {
                assert(sprites[i].actions[b] == r[i].actions[b]);
            }
            assert(sprites[i].header_line_idx < k);
        }
    }
    assert forall|i: int| 0 <= i < r.len() implies 0 <= (#[trigger] r[i]).header_line_idx < k
        + 1 by {
        assert(r[i].header_line_idx == sprites[i].header_line_idx);
    }
    assert forall|i: int, j: int| 0 <= i < j < r.len() implies (
    #[trigger] r[i]).header_line_idx < (#[trigger] r[j]).header_line_idx by {
        assert(r[i].header_line_idx == sprites[i].header_line_idx);
        assert(r[j].header_line_idx == sprites[j].header_line_idx);
    }
}

proof fn lemma_parse_laid(lines: Seq<Seq<char>>, k: nat)
    requires
        k <= lines.len(),
    ensures
        well_laid(parse_lines(lines, k).sprites, k as int),
    decreases k,
{
    if k > 0 {
        lemma_parse_laid(lines, (k - 1) as nat);
        let st = parse_lines(lines, (k - 1) as nat);
        let line = lines[k - 1];
        let t = trim_start_of(line);
        if t.len() > 0 && t[0] == '#' {
            match sprite_id(t) {
                Some(sid) => {
                    let s = header_sprite(k - 1, line, sid);
                    lemma_inline_lines(k - 1, t, 16);
                    let r = st.sprites.push(s);
                    assert forall|i: int, a: int|
                        #![trigger r[i].actions[a]]
                        0 <= i < r.len() && 0 <= a < r[i].actions.len() implies {
                        &&& r[i].header_line_idx <= r[i].actions[a].line_idx < k
                        &&& r[i].actions[a].dash_variant is Some ==> r[i].header_line_idx
                            < r[i].actions[a].line_idx
                        &&& i + 1 < r.len() ==> r[i].actions[a].line_idx < r[i
                            + 1].header_line_idx
                    } by {
                        if i < st.sprites.len() {
                            assert(st.sprites[i].actions[a] == r[i].actions[a]);
                        }
                    }
                },
                None => {
                    lemma_laid_grows(st.sprites, k - 1);
                },
            }
        } else if st.sprites.len() == 0 {
        } else {
            lemma_laid_grows(st.sprites, k - 1);
            let content = super::helpers::frame_content(line);
            let indent = line.take(line.len() - t.len());
            let name = super::helpers::action_name(t);
            match variant_line(t) {
                Some((base, variant)) => {
                    lemma_with_action_laid(
                        st.sprites,
                        action_of(
                            k - 1,
                            indent,
                            base,
                            Some(variant),
                            content,
                            name,
                            st.framerate,
                        ),
                        k - 1,
                    );
                },
                None => match action_number(t) {
                    Some(base) => {
                        let st1 = if base == 110 {
                            with_framerate(st, content)
                        } else {
                            st
                        };
                        lemma_with_framerate_laid(st, content, k - 1);
                        lemma_with_action_laid(
                            st1.sprites,
                            action_of(k - 1, indent, base, None, content, name, st1.framerate),
                            k - 1,
                        );
                    },
                    None => {},
                },
            }
        }
    }
}

proof fn lemma_laid_grows(sprites: Seq<SpriteModel>, k: int)
    requires
        well_laid(sprites, k),
    ensures
        well_laid(sprites, k + 1),
{
    assert forall|i: int, a: int|
        #![trigger sprites[i].actions[a]]
        0 <= i < sprites.len() && 0 <= a < sprites[i].actions.len() implies {
        &&& sprites[i].header_line_idx <= sprites[i].actions[a].line_idx < k + 1
        &&& sprites[i].actions[a].dash_variant is Some ==> sprites[i].header_line_idx
            < sprites[i].actions[a].line_idx
        &&& i + 1 < sprites.len() ==> sprites[i].actions[a].line_idx < sprites[i
            + 1].header_line_idx
    } by {}
}

proof fn lemma_with_framerate_laid(st: ParseState, content: Seq<char>, k: int)
    requires
        well_laid(st.sprites, k),
        st.sprites.len() > 0,
    ensures
        well_laid(with_framerate(st, content).sprites, k),
        with_framerate(st, content).sprites.len() == st.sprites.len(),
{
    let s = st.sprites;
    let r = with_framerate(st, content).sprites;
    assert forall|i: int| 0 <= i < r.len() implies (#[trigger] r[i]).header_line_idx
        == s[i].header_line_idx && r[i].actions == s[i].actions by {}
    assert forall|i: int, a: int|
        #![trigger r[i].actions[a]]
        0 <= i < r.len() && 0 <= a < r[i].actions.len() implies {
        &&& r[i].header_line_idx <= r[i].actions[a].line_idx < k
        &&& r[i].actions[a].dash_variant is Some ==> r[i].header_line_idx < r[i].actions[a].line_idx
        &&& i + 1 < r.len() ==> r[i].actions[a].line_idx < r[i + 1].header_line_idx
    } by {
        assert(s[i].actions[a] == r[i].actions[a]);
    }
    assert forall|i: int, j: int| 0 <= i < j < r.len() implies (
    #[trigger] r[i]).header_line_idx < (#[trigger] r[j]).header_line_idx by {
        assert(s[i].header_line_idx < s[j].header_line_idx);
    }
    assert forall|i: int| 0 <= i < r.len() implies 0 <= (#[trigger] r[i]).header_line_idx < k by {
        assert(0 <= s[i].header_line_idx < k);
    }
}

/// In a parsed table the headers follow one another, and each action stands
/// between its sprite's header and the next one.
pub proof fn law_parsed_is_well_laid(text: Seq<char>)
    ensures
        well_laid(parsed(text).sprites, parsed(text).raw_lines.len() as int),
{
    lemma_parse_laid(parsed(text).raw_lines, parsed(text).raw_lines.len());
}

proof fn lemma_opens_at(sprites: Seq<SpriteModel>, idx: int, k: nat, n: int)
    requires
        well_laid(sprites, n),
        k <= sprites.len(),
    ensures
        forall|i: int|
            0 <= i < k && (#[trigger] sprites[i]).header_line_idx == idx ==> opens_at(
                sprites,
                idx,
                k,
            ) == Some(sprites[i].sid),
        (forall|i: int| 0 <= i < k ==> (#[trigger] sprites[i]).header_line_idx != idx) ==> opens_at(
            sprites,
            idx,
            k,
        ) is None,
    decreases k,
{
    if k > 0 {
        lemma_opens_at(sprites, idx, (k - 1) as nat, n);
        if sprites[k - 1].header_line_idx == idx {
            assert forall|i: int| 0 <= i < k - 1 implies (#[trigger] sprites[i]).header_line_idx
                != idx by {
                assert(sprites[i].header_line_idx < sprites[k - 1].header_line_idx);
            }
        }
    }
}

/// The lines from a sprite's header to the next one are its own.
pub proof fn law_owner_between_headers(sprites: Seq<SpriteModel>, n: int, i: int, idx: int)
    requires
        well_laid(sprites, n),
        0 <= i < sprites.len(),
        sprites[i].header_line_idx <= idx < n,
        i + 1 < sprites.len() ==> idx < sprites[i + 1].header_line_idx,
    ensures
        owner(sprites, idx) == Some(sprites[i].sid),
    decreases idx - sprites[i].header_line_idx,
{
    lemma_opens_at(sprites, idx, sprites.len(), n);
    if idx > sprites[i].header_line_idx {
        assert forall|j: int| 0 <= j < sprites.len() implies (
        #[trigger] sprites[j]).header_line_idx != idx by {
            if j < i {
                assert(sprites[j].header_line_idx < sprites[i].header_line_idx);
            } else if j > i + 1 {
                assert(sprites[i + 1].header_line_idx < sprites[j].header_line_idx);
            }
        }
        law_owner_between_headers(sprites, n, i, idx - 1);
    }
}

/// Every line of a first or second variant is left out, whether its frames can be
/// read or not.
pub proof fn law_dash_variants_are_left_out(text: Seq<char>, idx: int)
    requires
        0 <= idx < parsed(text).raw_lines.len(),
        variant_line(trim_start_of(parsed(text).raw_lines[idx])) matches Some(v) && (v.1 == 1
            || v.1 == 2),
    ensures
        left_out(parsed(text), idx),
        line_out(parsed(text), pairs_of(parsed(text)), idx) == Seq::<char>::empty(),
{
}

/// Every line that begins with an action number from 121 on and stands behind
/// the first header is left out.
pub proof fn law_high_actions_are_left_out(text: Seq<char>, i: int, idx: int)
    requires
        0 <= i < parsed(text).sprites.len(),
        parsed(text).sprites[i].header_line_idx <= idx < parsed(text).raw_lines.len(),
        i + 1 < parsed(text).sprites.len() ==> idx < parsed(text).sprites[i + 1].header_line_idx,
        action_number(trim_start_of(parsed(text).raw_lines[idx])) matches Some(n) && n >= 121,
    ensures
        left_out(parsed(text), idx),
        line_out(parsed(text), pairs_of(parsed(text)), idx) == Seq::<char>::empty(),
{
    law_parsed_is_well_laid(text);
    law_owner_between_headers(
        parsed(text).sprites,
        parsed(text).raw_lines.len() as int,
        i,
        idx,
    );
}

proof fn lemma_headers_begin(lines: Seq<Seq<char>>, k: nat)
    requires
        k <= lines.len(),
    ensures
        forall|i: int|
            0 <= i < parse_lines(lines, k).sprites.len() ==> is_header(
                lines[(#[trigger] parse_lines(lines, k).sprites[i]).header_line_idx],
            ),
    decreases k,
{
    if k > 0 {
        lemma_headers_begin(lines, (k - 1) as nat);
        let before = parse_lines(lines, (k - 1) as nat).sprites;
        let after = parse_lines(lines, k).sprites;
        assert forall|i: int| 0 <= i < after.len() implies is_header(
            lines[(#[trigger] after[i]).header_line_idx],
        ) by {
            if i < before.len() {
                assert(after[i].header_line_idx == before[i].header_line_idx);
            }
        }
    }
}

/// A line that opens a sprite begins with a number sign.
spec fn is_header(line: Seq<char>) -> bool {
    trim_start_of(line).len() > 0 && trim_start_of(line)[0] == '#'
}

proof fn lemma_header_is_kept(text: Seq<char>, i: int)
    requires
        0 <= i < parsed(text).sprites.len(),
        last_with(parsed(text).sprites, parsed(text).sprites[i].sid, parsed(text).sprites.len())
            == Some(i),
    ensures
        !left_out(parsed(text), parsed(text).sprites[i].header_line_idx),
{
    let sf = parsed(text);
    let sid = sf.sprites[i].sid;
    let h = sf.sprites[i].header_line_idx;
    law_parsed_is_well_laid(text);
    lemma_headers_begin(sf.raw_lines, sf.raw_lines.len());
    let t = trim_start_of(sf.raw_lines[h]);
    assert(is_header(sf.raw_lines[h]));
    assert(digit_run(t) == 0);
    law_owner_between_headers(sf.sprites, sf.raw_lines.len() as int, i, h);
    match dash_sprite(sf.sprites, sid, sf.sprites.len()) {
        Some(j) => {
            lemma_dash_before_last(sf.sprites, sid, sf.sprites.len());
            if dash_on(sf.sprites[j], h, sf.sprites[j].actions.len()) {
                let a = choose|a: int|
                    0 <= a < sf.sprites[j].actions.len() && (
                    #[trigger] sf.sprites[j].actions[a]).dash_variant is Some
                        && sf.sprites[j].actions[a].line_idx == h;
                assert(sf.sprites[j].header_line_idx < sf.sprites[j].actions[a].line_idx);
                if j < i {
                    assert(sf.sprites[j].actions[a].line_idx < sf.sprites[j + 1].header_line_idx);
                    if j + 1 < i {
                        assert(sf.sprites[j + 1].header_line_idx < sf.sprites[i].header_line_idx);
                    }
                }
            }
        },
        None => {},
    }
}

proof fn lemma_dash_before_last(sprites: Seq<SpriteModel>, sid: u16, k: nat)
    requires
        k <= sprites.len(),
    ensures
        dash_sprite(sprites, sid, k) matches Some(j) ==> 0 <= j < k && (last_with(
            sprites,
            sid,
            k,
        ) matches Some(i) && j <= i),
    decreases k,
{
    if k > 0 {
        lemma_dash_before_last(sprites, sid, (k - 1) as nat);
        lemma_last_with(sprites, sid, (k - 1) as nat);
    }
}

proof fn lemma_last_with(sprites: Seq<SpriteModel>, sid: u16, k: nat)
    requires
        k <= sprites.len(),
    ensures
        last_with(sprites, sid, k) matches Some(i) ==> 0 <= i < k && sprites[i].sid == sid,
    decreases k,
{
    if k > 0 {
        lemma_last_with(sprites, sid, (k - 1) as nat);
    }
}

proof fn lemma_last_kept(sf: SpriteFileModel, sid: u16, from: int, last: int)
    requires
        0 <= last < from,
        last < sf.raw_lines.len(),
        owner(sf.sprites, last) == Some(sid),
        !left_out(sf, last),
    ensures
        ({
            let r = last_kept(sf, sid, from, last);
            0 <= r < sf.raw_lines.len() && owner(sf.sprites, r) == Some(sid) && !left_out(sf, r)
        }),
    decreases sf.raw_lines.len() - from,
{
    if from < sf.raw_lines.len() && owner(sf.sprites, from) == Some(sid) {
        lemma_last_kept(
            sf,
            sid,
            from + 1,
            if left_out(sf, from) {
                last
            } else {
                from
            },
        );
    }
}

/// Every sprite of a table that has a run pair gets its slots: they stand in the
/// output, behind the last of its lines that is kept, be that an action or the
/// header, with a new image count or without.
pub proof fn law_slots_are_written(text: Seq<char>, pairs: Map<u16, RunPairModel>, i: int)
    requires
        0 <= i < parsed(text).sprites.len(),
        pairs.contains_key(parsed(text).sprites[i].sid),
    ensures
        ({
            let sf = parsed(text);
            let sid = sf.sprites[i].sid;
            &&& slot_line(sf, sid) matches Some(idx)
            &&& 0 <= idx < sf.raw_lines.len()
            &&& owner(sf.sprites, idx) == Some(sid)
            &&& !left_out(sf, idx)
            &&& contains_text(emitted(sf, pairs), kept_line(sf, pairs, idx) + slot_lines(pairs[sid]))
        }),
{
    let sf = parsed(text);
    let n = sf.raw_lines.len();
    let sid = sf.sprites[i].sid;
    law_parsed_is_well_laid(text);
    lemma_has_last(sf.sprites, i, sf.sprites.len());
    lemma_last_with(sf.sprites, sid, sf.sprites.len());
    let l = last_with(sf.sprites, sid, sf.sprites.len())->0;
    let h = sf.sprites[l].header_line_idx;
    lemma_header_is_kept(text, l);
    if l + 1 < sf.sprites.len() {
        assert(h < sf.sprites[l + 1].header_line_idx);
    }
    law_owner_between_headers(sf.sprites, n as int, l, h);
    lemma_last_kept(sf, sid, h + 1, h);
    let idx = slot_line(sf, sid)->0;
    let p = kept_line(sf, pairs, idx) + slot_lines(pairs[sid]);
    let r = line_out(sf, pairs, idx);
    assert(r.subrange(0, p.len() as int) == p);
    lemma_part_occurs(sf, pairs, idx, n, p, 0);
}

proof fn lemma_has_last(sprites: Seq<SpriteModel>, i: int, k: nat)
    requires
        0 <= i < k <= sprites.len(),
    ensures
        last_with(sprites, sprites[i].sid, k) is Some,
    decreases k,
{
    if i < k - 1 {
        lemma_has_last(sprites, i, (k - 1) as nat);
    }
}

/// A sprite with a dash variant below action 121, an action named for running,
/// or two actions that are a run pair by their frames runs, alone or besides
/// walking; of several with one number the last one counts.
pub proof fn law_run_signals_count(sprites: Seq<SpriteModel>, i: int)
    requires
        0 <= i < sprites.len(),
        has_run(sprites[i]),
        forall|j: int| i < j < sprites.len() ==> (#[trigger] sprites[j]).sid != sprites[i].sid,
    ensures
        roles_of(sprites).contains_key(sprites[i].sid),
        roles_of(sprites)[sprites[i].sid] == SpriteRole::Run || roles_of(sprites)[sprites[i].sid]
            == SpriteRole::Both,
{
    lemma_own_role_stays(sprites, i, sprites.len());
}

proof fn lemma_own_role_stays(sprites: Seq<SpriteModel>, i: int, k: nat)
    requires
        0 <= i < k <= sprites.len(),
        forall|j: int| i < j < sprites.len() ==> (#[trigger] sprites[j]).sid != sprites[i].sid,
    ensures
        own_roles(sprites, k).contains_key(sprites[i].sid),
        own_roles(sprites, k)[sprites[i].sid] == own_role(sprites[i]),
    decreases k,
{
    if i < k - 1 {
        lemma_own_role_stays(sprites, i, (k - 1) as nat);
        assert(sprites[k - 1].sid != sprites[i].sid);
    }
}

} // verus!

//! Which lines of a table are written, and what is added to them.

use super::emit::{
    dash_on, dash_sprite, emitted, kept_line, last_kept, last_with, left_out, line_out, lines_out,
    opens_at, owner, slot_line, slot_lines, slots_behind,
};
use super::helpers::{action_number, header_updated, variant_line};
use super::laws::{law_owner_between_headers, law_parsed_is_well_laid, well_laid};
use super::pair_laws::distinct_numbers;
use super::parse::{inline_actions, parse_lines, parsed};
use super::types::{RunPairModel, SpriteFileModel, SpriteModel};
use crate::text::trim_start_of;
use vstd::prelude::*;

verus! {

/// The slots of a run animation: the frame rate as the action 110 where there is a foot
/// for it, then the left foot as the action 98 and the right foot as the action 99, each
/// on a line of its own.
pub proof fn law_slots(l: Seq<char>, r: Seq<char>, rate: Seq<char>, count: u32)
    ensures
        slot_lines(
            RunPairModel {
                runl: Some(l),
                runr: Some(r),
                framerate: Some(rate),
                source_img_count: count,
            },
        ) == "\n\t110.framerate("@ + rate + ")"@ + ("\n\t98.walk("@ + l + ")"@) + ("\n\t99.walk("@
            + r + ")"@),
        slot_lines(
            RunPairModel {
                runl: Some(l),
                runr: Some(r),
                framerate: None,
                source_img_count: count,
            },
        ) == ("\n\t98.walk("@ + l + ")"@) + ("\n\t99.walk("@ + r + ")"@),
        slot_lines(
            RunPairModel {
                runl: Some(l),
                runr: None,
                framerate: Some(rate),
                source_img_count: count,
            },
        ) == "\n\t110.framerate("@ + rate + ")"@ + ("\n\t98.walk("@ + l + ")"@),
        slot_lines(
            RunPairModel {
                runl: None,
                runr: Some(r),
                framerate: Some(rate),
                source_img_count: count,
            },
        ) == "\n\t110.framerate("@ + rate + ")"@ + ("\n\t99.walk("@ + r + ")"@),
        slot_lines(
            RunPairModel { runl: Some(l), runr: None, framerate: None, source_img_count: count },
        ) == "\n\t98.walk("@ + l + ")"@,
        slot_lines(
            RunPairModel { runl: None, runr: Some(r), framerate: None, source_img_count: count },
        ) == "\n\t99.walk("@ + r + ")"@,
        slot_lines(
            RunPairModel {
                runl: None,
                runr: None,
                framerate: Some(rate),
                source_img_count: count,
            },
        ) == Seq::<char>::empty(),
{
    let e = Seq::<char>::empty();
    let a = "\n\t110.framerate("@ + rate + ")"@;
    let b = "\n\t98.walk("@ + l + ")"@;
    let c = "\n\t99.walk("@ + r + ")"@;
    assert(e + b + c =~= b + c);
    assert(a + b + e =~= a + b);
    assert(a + e + c =~= a + c);
    assert(e + b + e =~= b);
    assert(e + e + c =~= c);
    assert(e + e + e =~= e);
}

/// Each action of a variant stands on a line that begins with that variant.
spec fn dashes_are_lines(sprites: Seq<SpriteModel>, lines: Seq<Seq<char>>) -> bool {
    forall|i: int, a: int|
        #![trigger sprites[i].actions[a]]
        0 <= i < sprites.len() && 0 <= a < sprites[i].actions.len()
            && sprites[i].actions[a].dash_variant is Some ==> {
            variant_line(trim_start_of(lines[sprites[i].actions[a].line_idx])) matches Some(v) && (
            v.1 == 1 || v.1 == 2)
        }
}

proof fn lemma_inline_plain(line_idx: int, t: Seq<char>, k: nat)
    ensures
        forall|a: int|
            0 <= a < inline_actions(line_idx, t, k).len() ==> (#[trigger] inline_actions(
                line_idx,
                t,
                k,
            )[a]).dash_variant is None,
    decreases k,
{
    if k > 0 {
        lemma_inline_plain(line_idx, t, (k - 1) as nat);
        let before = inline_actions(line_idx, t, (k - 1) as nat);
        let after = inline_actions(line_idx, t, k);
        assert forall|a: int| 0 <= a < after.len() implies (#[trigger] after[a]).dash_variant is None by {
            if a < before.len() {
                assert(before[a].dash_variant is None);
                assert(after[a] == before[a]);
            }
        }
    }
}

proof fn lemma_dashes(lines: Seq<Seq<char>>, k: nat)
    requires
        k <= lines.len(),
    ensures
        dashes_are_lines(parse_lines(lines, k).sprites, lines),
    decreases k,
{
    if k > 0 {
        lemma_dashes(lines, (k - 1) as nat);
        let st = parse_lines(lines, (k - 1) as nat);
        let before = st.sprites;
        let after = parse_lines(lines, k).sprites;
        let line = lines[k - 1];
        let t = trim_start_of(line);
        lemma_inline_plain(k - 1, t, 16);
        assert forall|i: int, a: int|
            #![trigger after[i].actions[a]]
            0 <= i < after.len() && 0 <= a < after[i].actions.len()
                && after[i].actions[a].dash_variant is Some implies (variant_line(
            trim_start_of(lines[after[i].actions[a].line_idx]),
        ) matches Some(v) && (v.1 == 1 || v.1 == 2)) by {
            if i < before.len() && a < before[i].actions.len() {
                assert(before[i].actions[a] == after[i].actions[a]);
            } else if i < before.len() {
                assert(after[i].actions[a].line_idx == k - 1);
            } else {
                assert(after[i].actions == inline_actions(k - 1, t, 16));
            }
        }
    }
}

/// A line of a table is left out exactly where it begins with the variant 1 or 2 of an
/// action, or where it stands behind a header and begins with an action from 121 on.
/// Every other line is kept.
pub proof fn law_lines_left_out(text: Seq<char>, idx: int)
    requires
        0 <= idx < parsed(text).raw_lines.len(),
    ensures
        left_out(parsed(text), idx) <==> {
            ||| (variant_line(trim_start_of(parsed(text).raw_lines[idx])) matches Some(v) && (v.1
                == 1 || v.1 == 2))
            ||| ((exists|i: int|
                0 <= i < parsed(text).sprites.len() && (
                #[trigger] parsed(text).sprites[i]).header_line_idx <= idx) && (action_number(
                trim_start_of(parsed(text).raw_lines[idx]),
            ) matches Some(n) && n >= 121))
        },
{
    let sf = parsed(text);
    let n = sf.raw_lines.len();
    lemma_dashes(sf.raw_lines, n);
    law_parsed_is_well_laid(text);
    lemma_owned(sf.sprites, idx, n as int);
    if let Some(sid) = owner(sf.sprites, idx) {
        if let Some(i) = dash_sprite(sf.sprites, sid, sf.sprites.len()) {
            lemma_dash_sprite(sf.sprites, sid, sf.sprites.len());
            let s = sf.sprites[i];
            if dash_on(s, idx, s.actions.len()) {
                let a = choose|a: int|
                    0 <= a < s.actions.len() && (#[trigger] s.actions[a]).dash_variant is Some
                        && s.actions[a].line_idx == idx;
                assert(sf.sprites[i].actions[a].dash_variant is Some);
            }
        }
    }
}

proof fn lemma_dash_sprite(sprites: Seq<SpriteModel>, sid: u16, k: nat)
    requires
        k <= sprites.len(),
    ensures
        dash_sprite(sprites, sid, k) matches Some(i) ==> 0 <= i < k,
    decreases k,
{
    if k > 0 {
        lemma_dash_sprite(sprites, sid, (k - 1) as nat);
    }
}

proof fn lemma_opens(sprites: Seq<SpriteModel>, idx: int, k: nat)
    requires
        k <= sprites.len(),
    ensures
        opens_at(sprites, idx, k) is Some <==> exists|i: int|
            0 <= i < k && (#[trigger] sprites[i]).header_line_idx == idx,
    decreases k,
{
    if k > 0 {
        lemma_opens(sprites, idx, (k - 1) as nat);
        if exists|i: int| 0 <= i < k - 1 && (#[trigger] sprites[i]).header_line_idx == idx {
            let i = choose|i: int| 0 <= i < k - 1 && (#[trigger] sprites[i]).header_line_idx == idx;
            assert(sprites[i].header_line_idx == idx);
        }
        if sprites[k - 1].header_line_idx == idx {
            assert(opens_at(sprites, idx, k) is Some);
        }
    }
}

proof fn lemma_owned(sprites: Seq<SpriteModel>, idx: int, n: int)
    requires
        well_laid(sprites, n),
        -1 <= idx < n,
    ensures
        owner(sprites, idx) is Some <==> exists|i: int|
            0 <= i < sprites.len() && (#[trigger] sprites[i]).header_line_idx <= idx,
    decreases idx + 1,
{
    if idx >= 0 {
        lemma_owned(sprites, idx - 1, n);
        lemma_opens(sprites, idx, sprites.len());
        if exists|i: int| 0 <= i < sprites.len() && (#[trigger] sprites[i]).header_line_idx <= idx {
            let i = choose|i: int|
                0 <= i < sprites.len() && (#[trigger] sprites[i]).header_line_idx <= idx;
            if sprites[i].header_line_idx == idx {
                assert(opens_at(sprites, idx, sprites.len()) is Some);
            } else {
                assert(sprites[i].header_line_idx <= idx - 1);
            }
        }
    } else {
        assert forall|i: int| 0 <= i < sprites.len() implies (
        #[trigger] sprites[i]).header_line_idx > idx by {
            assert(0 <= sprites[i].header_line_idx);
        }
    }
}

proof fn lemma_last(sprites: Seq<SpriteModel>, i: int, k: nat)
    requires
        distinct_numbers(sprites),
        0 <= i < k <= sprites.len(),
    ensures
        last_with(sprites, sprites[i].sid, k) == Some(i),
    decreases k,
{
    if i < k - 1 {
        assert(sprites[i].sid != sprites[k - 1].sid);
        lemma_last(sprites, i, (k - 1) as nat);
    }
}

/// The count of a header is raised to that of the run animation where that is larger,
/// and stays otherwise; no other line of a sprite changes.
pub proof fn law_headers_are_raised(
    text: Seq<char>,
    pairs: Map<u16, RunPairModel>,
    i: int,
    idx: int,
)
    requires
        distinct_numbers(parsed(text).sprites),
        0 <= i < parsed(text).sprites.len(),
        parsed(text).sprites[i].header_line_idx <= idx < parsed(text).raw_lines.len(),
        i + 1 < parsed(text).sprites.len() ==> idx < parsed(text).sprites[i + 1].header_line_idx,
    ensures
        ({
            let sf = parsed(text);
            let s = sf.sprites[i];
            if idx == s.header_line_idx && pairs.contains_key(s.sid)
                && pairs[s.sid].source_img_count > s.img_count {
                kept_line(sf, pairs, idx) == header_updated(
                    sf.raw_lines[idx],
                    s.img_count,
                    pairs[s.sid].source_img_count,
                )
            } else {
                kept_line(sf, pairs, idx) == sf.raw_lines[idx]
            }
        }),
{
    let sf = parsed(text);
    law_parsed_is_well_laid(text);
    law_owner_between_headers(sf.sprites, sf.raw_lines.len() as int, i, idx);
    lemma_last(sf.sprites, i, sf.sprites.len());
}

/// A sprite without a run animation gets no slots, and one with one gets them behind one
/// of its lines alone.
pub proof fn law_slots_once(
    text: Seq<char>,
    pairs: Map<u16, RunPairModel>,
    i: int,
    idx: int,
    other: int,
)
    requires
        0 <= i < parsed(text).sprites.len(),
        parsed(text).sprites[i].header_line_idx <= idx < parsed(text).raw_lines.len(),
        i + 1 < parsed(text).sprites.len() ==> idx < parsed(text).sprites[i + 1].header_line_idx,
        parsed(text).sprites[i].header_line_idx <= other < parsed(text).raw_lines.len(),
        i + 1 < parsed(text).sprites.len() ==> other < parsed(text).sprites[i + 1].header_line_idx,
        idx != other,
    ensures
        !pairs.contains_key(parsed(text).sprites[i].sid) ==> slots_behind(
            parsed(text),
            pairs,
            idx,
        ).len() == 0,
        slots_behind(parsed(text), pairs, idx).len() == 0 || slots_behind(
            parsed(text),
            pairs,
            other,
        ).len() == 0,
{
    let sf = parsed(text);
    law_parsed_is_well_laid(text);
    law_owner_between_headers(sf.sprites, sf.raw_lines.len() as int, i, idx);
    law_owner_between_headers(sf.sprites, sf.raw_lines.len() as int, i, other);
}

/// A line that is kept is written as it is kept, then come the slots behind it, and then
/// its line end, unless it is the last line.
pub proof fn law_line_is_written(sf: SpriteFileModel, pairs: Map<u16, RunPairModel>, idx: int)
    requires
        0 <= idx < sf.raw_lines.len() - 1,
    ensures
        left_out(sf, idx) ==> line_out(sf, pairs, idx).len() == 0,
        !left_out(sf, idx) ==> line_out(sf, pairs, idx) == kept_line(sf, pairs, idx)
            + slots_behind(sf, pairs, idx) + seq!['\n'],
{
    reveal_strlit("\n");
    assert("\n"@ =~= seq!['\n']);
}

proof fn lemma_nothing_kept_behind(sf: SpriteFileModel, sid: u16, from: int, last: int, idx: int)
    requires
        0 <= last < from,
        from <= sf.raw_lines.len(),
        last_kept(sf, sid, from, last) < idx < sf.raw_lines.len(),
        forall|k: int| last < k < from ==> left_out(sf, k),
        forall|k: int| from <= k <= idx ==> #[trigger] owner(sf.sprites, k) == Some(sid),
    ensures
        left_out(sf, idx),
    decreases sf.raw_lines.len() - from,
{
    if from <= idx {
        assert(owner(sf.sprites, from) == Some(sid));
        if left_out(sf, from) {
            lemma_nothing_kept_behind(sf, sid, from + 1, last, idx);
        } else {
            lemma_nothing_kept_behind(sf, sid, from + 1, from, idx);
        }
    } else {
        lemma_not_before(sf, sid, from, last);
    }
}

proof fn lemma_not_before(sf: SpriteFileModel, sid: u16, from: int, last: int)
    requires
        0 <= last < from,
    ensures
        last <= last_kept(sf, sid, from, last),
    decreases sf.raw_lines.len() - from,
{
    if from < sf.raw_lines.len() && owner(sf.sprites, from) == Some(sid) {
        lemma_not_before(
            sf,
            sid,
            from + 1,
            if left_out(sf, from) {
                last
            } else {
                from
            },
        );
    }
}

/// The slots of a sprite stand behind the last of its lines that is kept: not in front of
/// its header, and every line of the sprite behind them is left out.
pub proof fn law_slots_stand_last(text: Seq<char>, i: int, idx: int)
    requires
        distinct_numbers(parsed(text).sprites),
        0 <= i < parsed(text).sprites.len(),
        parsed(text).sprites[i].header_line_idx <= idx < parsed(text).raw_lines.len(),
        i + 1 < parsed(text).sprites.len() ==> idx < parsed(text).sprites[i + 1].header_line_idx,
    ensures
        slot_line(parsed(text), parsed(text).sprites[i].sid) matches Some(at) && {
            &&& parsed(text).sprites[i].header_line_idx <= at
            &&& at < idx ==> left_out(parsed(text), idx)
        },
{
    let sf = parsed(text);
    let sid = sf.sprites[i].sid;
    let h = sf.sprites[i].header_line_idx;
    law_parsed_is_well_laid(text);
    lemma_last(sf.sprites, i, sf.sprites.len());
    assert(0 <= h);
    assert forall|k: int| h + 1 <= k <= idx implies #[trigger] owner(sf.sprites, k) == Some(
        sid,
    ) by {
        law_owner_between_headers(sf.sprites, sf.raw_lines.len() as int, i, k);
    }
    lemma_not_before(sf, sid, h + 1, h);
    if slot_line(sf, sid)->0 < idx {
        lemma_nothing_kept_behind(sf, sid, h + 1, h, idx);
    }
}

/// The output ends with a line feed where the table does, and the lines of the output
/// stand in the order of the table's.
pub proof fn law_output_in_order(sf: SpriteFileModel, pairs: Map<u16, RunPairModel>, k: nat)
    requires
        k < sf.raw_lines.len(),
    ensures
        lines_out(sf, pairs, 0).len() == 0,
        lines_out(sf, pairs, k + 1) == lines_out(sf, pairs, k) + line_out(sf, pairs, k as int),
        ({
            let all = lines_out(sf, pairs, sf.raw_lines.len());
            let out = emitted(sf, pairs);
            &&& out == all || out == all + seq!['\n']
            &&& sf.ends_with_newline ==> out.len() > 0 && out[out.len() - 1] == '\n'
            &&& !sf.ends_with_newline ==> out == all
        }),
{
    let all = lines_out(sf, pairs, sf.raw_lines.len());
    assert(all.push('\n') =~= all + seq!['\n']);
}

} // verus!

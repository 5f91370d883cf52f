//! Writing a sprite table out again, with the run frames in the slots 98 and 99.

use super::helpers::{
    action_number, header_updated, parse_action_number, parse_variant_line,
    update_header_img_count, variant_line, VariantInfo,
};
use super::types::{
    pair_models, RunPair, RunPairMap, RunPairModel, Sprite, SpriteFile,
    SpriteFileModel, SpriteModel,
};
use crate::text::{chars_of, push_all, push_str, string_of, trim_start, trim_start_of};
use std::collections::{HashMap, HashSet};
use vstd::prelude::*;

verus! {

/// The largest number among the first `k` sprites whose header is line `idx`.
pub open spec fn opens_at(sprites: Seq<SpriteModel>, idx: int, k: nat) -> Option<u16>
    decreases k,
{
    if k == 0 {
        None
    } else {
        let before = opens_at(sprites, idx, (k - 1) as nat);
        let s = sprites[k - 1];
        if s.header_line_idx == idx {
            match before {
                Some(b) => if s.sid > b {
                    Some(s.sid)
                } else {
                    Some(b)
                },
                None => Some(s.sid),
            }
        } else {
            before
        }
    }
}

/// The sprite that a line belongs to: the one whose header stands nearest
/// above it.
pub open spec fn owner(sprites: Seq<SpriteModel>, idx: int) -> Option<u16>
    decreases idx + 1,
{
    if idx < 0 {
        None
    } else {
        match opens_at(sprites, idx, sprites.len()) {
            Some(s) => Some(s),
            None => owner(sprites, idx - 1),
        }
    }
}

/// One of the first `k` actions is a dash variant on line `idx`.
pub open spec fn dash_on(s: SpriteModel, idx: int, k: nat) -> bool {
    exists|a: int|
        0 <= a < k && (#[trigger] s.actions[a]).dash_variant is Some && s.actions[a].line_idx == idx
}

/// The sprite has a dash variant.
pub open spec fn has_dash(s: SpriteModel) -> bool {
    exists|a: int| 0 <= a < s.actions.len() && (#[trigger] s.actions[a]).dash_variant is Some
}

/// The last of the first `k` sprites with this number and a dash variant.
pub open spec fn dash_sprite(sprites: Seq<SpriteModel>, sid: u16, k: nat) -> Option<int>
    decreases k,
{
    if k == 0 {
        None
    } else if sprites[k - 1].sid == sid && has_dash(sprites[k - 1]) {
        Some(k - 1)
    } else {
        dash_sprite(sprites, sid, (k - 1) as nat)
    }
}

/// The last of the first `k` sprites with this number.
pub open spec fn last_with(sprites: Seq<SpriteModel>, sid: u16, k: nat) -> Option<int>
    decreases k,
{
    if k == 0 {
        None
    } else if sprites[k - 1].sid == sid {
        Some(k - 1)
    } else {
        last_with(sprites, sid, (k - 1) as nat)
    }
}

/// A line of a first or second variant, whether its frames can be read or not.
pub open spec fn is_step_variant(line: Seq<char>) -> bool {
    match variant_line(trim_start_of(line)) {
        Some((_, v)) => v == 1 || v == 2,
        None => false,
    }
}

/// A line that is left out: a first or second variant, another dash variant of
/// its sprite, or an action from 121 on.
pub open spec fn left_out(sf: SpriteFileModel, idx: int) -> bool {
    ||| is_step_variant(sf.raw_lines[idx])
    ||| match owner(sf.sprites, idx) {
        Some(sid) => {
            ||| match dash_sprite(sf.sprites, sid, sf.sprites.len()) {
                Some(i) => dash_on(sf.sprites[i], idx, sf.sprites[i].actions.len()),
                None => false,
            }
            ||| match action_number(trim_start_of(sf.raw_lines[idx])) {
                Some(n) => n >= 121,
                None => false,
            }
        },
        None => false,
    }
}

/// The last line in `from..` that belongs to sprite `sid` without a gap and is
/// not left out; `last` where there is none.
pub open spec fn last_kept(sf: SpriteFileModel, sid: u16, from: int, last: int) -> int
    decreases sf.raw_lines.len() - from,
{
    if !(0 <= from < sf.raw_lines.len()) || owner(sf.sprites, from) != Some(sid) {
        last
    } else {
        last_kept(
            sf,
            sid,
            from + 1,
            if left_out(sf, from) {
                last
            } else {
                from
            },
        )
    }
}

/// The line behind which the slots of a sprite are written.
pub open spec fn slot_line(sf: SpriteFileModel, sid: u16) -> Option<int> {
    match last_with(sf.sprites, sid, sf.sprites.len()) {
        Some(i) => {
            let h = sf.sprites[i].header_line_idx;
            Some(last_kept(sf, sid, h + 1, h))
        },
        None => None,
    }
}

/// The lines that carry a run pair.
pub open spec fn slot_lines(p: RunPairModel) -> Seq<char> {
    let rate = if (p.runl is Some || p.runr is Some) && p.framerate is Some {
        "\n\t110.framerate("@ + p.framerate->0 + ")"@
    } else {
        seq![]
    };
    let left = match p.runl {
        Some(t) => "\n\t98.walk("@ + t + ")"@,
        None => seq![],
    };
    let right = match p.runr {
        Some(t) => "\n\t99.walk("@ + t + ")"@,
        None => seq![],
    };
    rate + left + right
}

/// The header of sprite `sid` stands on line `idx` and takes the image count
/// of the run pair.
pub open spec fn rewrites_header(
    sf: SpriteFileModel,
    pairs: Map<u16, RunPairModel>,
    idx: int,
) -> Option<(u32, u32)> {
    match owner(sf.sprites, idx) {
        Some(sid) => match last_with(sf.sprites, sid, sf.sprites.len()) {
            Some(i) => if sf.sprites[i].header_line_idx == idx && pairs.contains_key(sid)
                && pairs[sid].source_img_count > sf.sprites[i].img_count {
                Some((sf.sprites[i].img_count, pairs[sid].source_img_count))
            } else {
                None
            },
            None => None,
        },
        None => None,
    }
}

/// The run pair that is written behind line `idx`.
pub open spec fn slots_behind(
    sf: SpriteFileModel,
    pairs: Map<u16, RunPairModel>,
    idx: int,
) -> Seq<char> {
    match owner(sf.sprites, idx) {
        Some(sid) => if slot_line(sf, sid) == Some(idx) && pairs.contains_key(sid) {
            slot_lines(pairs[sid])
        } else {
            seq![]
        },
        None => seq![],
    }
}

/// A line that is kept: as it is, or the header with a new image count.
pub open spec fn kept_line(
    sf: SpriteFileModel,
    pairs: Map<u16, RunPairModel>,
    idx: int,
) -> Seq<char> {
    match rewrites_header(sf, pairs, idx) {
        Some((old_count, new_count)) => header_updated(sf.raw_lines[idx], old_count, new_count),
        None => sf.raw_lines[idx],
    }
}

/// What line `idx` becomes: nothing where it is left out; else the line, or the
/// header with a new image count, with the slots of its sprite if it is the
/// place for them.
pub open spec fn line_out(
    sf: SpriteFileModel,
    pairs: Map<u16, RunPairModel>,
    idx: int,
) -> Seq<char> {
    if left_out(sf, idx) {
        seq![]
    } else {
        kept_line(sf, pairs, idx) + slots_behind(sf, pairs, idx) + (if rewrites_header(
            sf,
            pairs,
            idx,
        ) is Some || idx < sf.raw_lines.len() - 1 {
            "\n"@
        } else {
            seq![]
        })
    }
}

/// The first `k` lines written out.
pub open spec fn lines_out(
    sf: SpriteFileModel,
    pairs: Map<u16, RunPairModel>,
    k: nat,
) -> Seq<char>
    decreases k,
{
    if k == 0 {
        seq![]
    } else {
        lines_out(sf, pairs, (k - 1) as nat) + line_out(sf, pairs, k - 1)
    }
}

/// The text with a line feed at its end where the table had one.
pub open spec fn with_final_newline(text: Seq<char>, wanted: bool) -> Seq<char> {
    if wanted && !(text.len() > 0 && text.last() == '\n') {
        text.push('\n')
    } else {
        text
    }
}

/// The table written out.
pub open spec fn emitted(sf: SpriteFileModel, pairs: Map<u16, RunPairModel>) -> Seq<char> {
    with_final_newline(lines_out(sf, pairs, sf.raw_lines.len()), sf.ends_with_newline)
}

/// The sprite that opens at each line.
fn collect_openers(sf: &SpriteFile) -> (r: Vec<Option<u16>>)
    ensures
        r@.len() == sf@.raw_lines.len(),
        forall|idx: int|
            0 <= idx < r@.len() ==> #[trigger] r@[idx] == opens_at(
                sf@.sprites,
                idx,
                sf@.sprites.len(),
            ),
{
    let ghost m = sf@.sprites;
    let n: usize = sf.raw_lines.len();
    let mut out: Vec<Option<u16>> = Vec::new();
    let mut j: usize = 0;
    while j < n
        invariant
            j <= n,
            out@.len() == j,
            forall|idx: int| 0 <= idx < j ==> #[trigger] out@[idx] == None::<u16>,
        decreases n - j,
    {
        out.push(None);
        j += 1;
    }
    let mut k: usize = 0;
    while k < sf.sprites.len()
        invariant
            k <= sf.sprites@.len(),
            m == sf@.sprites,
            out@.len() == n,
            forall|idx: int|
                0 <= idx < n ==> #[trigger] out@[idx] == opens_at(m, idx, k as nat),
        decreases sf.sprites@.len() - k,
    {
        let h: usize = sf.sprites[k].header_line_idx;
        let sid: u16 = sf.sprites[k].sid;
        assert(m[k as int] == sf.sprites@[k as int]@);
        let ghost before = out@;
        if h < n {
            let best = match out[h] {
                Some(b) => if sid > b {
                    sid
                } else {
                    b
                },
                None => sid,
            };
            out.set(h, Some(best));
        }
        proof {
            assert forall|idx: int| 0 <= idx < n implies #[trigger] out@[idx] == opens_at(
                m,
                idx,
                (k + 1) as nat,
            ) by {
                assert(before[idx] == opens_at(m, idx, k as nat));
            }
        }
        k += 1;
    }
    out
}

/// The sprite that each line belongs to.
fn collect_owners(sf: &SpriteFile) -> (r: Vec<Option<u16>>)
    ensures
        r@.len() == sf@.raw_lines.len(),
        forall|idx: int| 0 <= idx < r@.len() ==> #[trigger] r@[idx] == owner(sf@.sprites, idx),
{
    let ghost m = sf@.sprites;
    let openers = collect_openers(sf);
    let n: usize = openers.len();
    let mut out: Vec<Option<u16>> = Vec::new();
    let mut current: Option<u16> = None;
    let mut j: usize = 0;
    while j < n
        invariant
            j <= n,
            n == openers@.len(),
            out@.len() == j,
            forall|idx: int|
                0 <= idx < n ==> #[trigger] openers@[idx] == opens_at(m, idx, m.len()),
            current == owner(m, j - 1),
            forall|idx: int| 0 <= idx < j ==> #[trigger] out@[idx] == owner(m, idx),
        decreases n - j,
    {
        match openers[j] {
            Some(s) => {
                current = Some(s);
            },
            None => {},
        }
        out.push(current);
        j += 1;
    }
    out
}

/// The lines of a sprite's dash variants.
fn collect_dash_lines(s: &Sprite) -> (r: HashSet<usize>)
    ensures
        forall|idx: usize| #[trigger]
            r@.contains(idx) <==> dash_on(s@, idx as int, s@.actions.len()),
        (exists|idx: usize| #[trigger] r@.contains(idx)) <==> has_dash(s@),
{
    broadcast use vstd::std_specs::hash::group_hash_axioms;

    let ghost m = s@;
    let mut out: HashSet<usize> = HashSet::new();
    let mut a: usize = 0;
    while a < s.actions.len()
        invariant
            a <= s.actions@.len(),
            m == s@,
            m.actions.len() == s.actions@.len(),
            forall|idx: usize| #[trigger] out@.contains(idx) <==> dash_on(m, idx as int, a as nat),
        decreases s.actions@.len() - a,
    {
        let line: usize = s.actions[a].line_idx;
        let dash = s.actions[a].dash_variant.is_some();
        assert(m.actions[a as int] == s.actions@[a as int]@);
        let ghost before = out@;
        if dash {
            out.insert(line);
        }
        proof {
            assert forall|idx: usize| #[trigger] out@.contains(idx) <==> dash_on(
                m,
                idx as int,
                (a + 1) as nat,
            ) by {
                assert(before.contains(idx) <==> dash_on(m, idx as int, a as nat));
                if dash_on(m, idx as int, a as nat) {
                    let w = choose|w: int|
                        0 <= w < a && (#[trigger] m.actions[w]).dash_variant is Some
                            && m.actions[w].line_idx == idx;
                    assert(0 <= w < a + 1 && m.actions[w].dash_variant is Some);
                }
                if dash && idx == line {
                    assert(0 <= a < a + 1 && m.actions[a as int].dash_variant is Some);
                }
            }
        }
        a += 1;
    }
    proof {
        if has_dash(m) {
            let w = choose|w: int|
                0 <= w < m.actions.len() && (#[trigger] m.actions[w]).dash_variant is Some;
            let line = s.actions@[w].line_idx;
            assert(m.actions[w] == s.actions@[w]@);
            assert(dash_on(m, line as int, m.actions.len()));
            assert(out@.contains(line));
        }
    }
    out
}

spec fn dash_table_ok(
    t: Map<u16, HashSet<usize>>,
    sprites: Seq<SpriteModel>,
    k: nat,
) -> bool {
    &&& forall|sid: u16| #[trigger]
        t.contains_key(sid) <==> dash_sprite(sprites, sid, k) is Some
    &&& forall|sid: u16, idx: usize|
        t.contains_key(sid) ==> (#[trigger] t[sid]@.contains(idx) <==> dash_on(
            sprites[dash_sprite(sprites, sid, k)->0],
            idx as int,
            sprites[dash_sprite(sprites, sid, k)->0].actions.len(),
        ))
}

fn collect_dashes(sf: &SpriteFile) -> (r: HashMap<u16, HashSet<usize>>)
    ensures
        dash_table_ok(r@, sf@.sprites, sf@.sprites.len()),
{
    broadcast use vstd::std_specs::hash::group_hash_axioms;

    let ghost m = sf@.sprites;
    let mut out: HashMap<u16, HashSet<usize>> = HashMap::new();
    let mut k: usize = 0;
    while k < sf.sprites.len()
        invariant
            k <= sf.sprites@.len(),
            m == sf@.sprites,
            dash_table_ok(out@, m, k as nat),
        decreases sf.sprites@.len() - k,
    {
        let s = &sf.sprites[k];
        assert(m[k as int] == s@);
        let set = collect_dash_lines(s);
        let ghost before = out@;
        let ghost sm = set@;
        if !set.is_empty() {
            assert(has_dash(m[k as int])) by {
                if forall|idx: usize| !set@.contains(idx) {
                    assert(set@ =~= Set::<usize>::empty());
                }
            }
            out.insert(s.sid, set);
            assert(out@ == before.insert(s.sid, set));
        } else {
            assert(set@ == Set::<usize>::empty());
            assert(!has_dash(m[k as int]));
        }
        proof {
            assert forall|sid: u16| #[trigger] out@.contains_key(sid) <==> dash_sprite(
                m,
                sid,
                (k + 1) as nat,
            ) is Some by {
                assert(before.contains_key(sid) <==> dash_sprite(m, sid, k as nat) is Some);
            }
            assert forall|sid: u16, idx: usize| out@.contains_key(sid) implies (
            #[trigger] out@[sid]@.contains(idx) <==> dash_on(
                m[dash_sprite(m, sid, (k + 1) as nat)->0],
                idx as int,
                m[dash_sprite(m, sid, (k + 1) as nat)->0].actions.len(),
            )) by {
                if sid == s.sid && has_dash(m[k as int]) {
                    assert(out@[sid]@ == sm);
                } else {
                    assert(before.contains_key(sid));
                    assert(out@[sid] == before[sid]);
                    assert(before[sid]@.contains(idx) <==> dash_on(
                        m[dash_sprite(m, sid, k as nat)->0],
                        idx as int,
                        m[dash_sprite(m, sid, k as nat)->0].actions.len(),
                    ));
                }
            }
        }
        k += 1;
    }
    out
}

/// Which lines are left out.
fn collect_left_out(sf: &SpriteFile, owners: &Vec<Option<u16>>) -> (r: Vec<bool>)
    requires
        owners@.len() == sf@.raw_lines.len(),
        forall|idx: int|
            0 <= idx < owners@.len() ==> #[trigger] owners@[idx] == owner(sf@.sprites, idx),
    ensures
        r@.len() == sf@.raw_lines.len(),
        forall|idx: int| 0 <= idx < r@.len() ==> #[trigger] r@[idx] == left_out(sf@, idx),
{
    broadcast use vstd::std_specs::hash::group_hash_axioms;

    let ghost m = sf@;
    let dashes = collect_dashes(sf);
    let n: usize = owners.len();
    let mut out: Vec<bool> = Vec::new();
    let mut j: usize = 0;
    while j < n
        invariant
            j <= n,
            n == owners@.len(),
            n == sf.raw_lines@.len(),
            m == sf@,
            out@.len() == j,
            dash_table_ok(dashes@, m.sprites, m.sprites.len()),
            forall|idx: int|
                0 <= idx < owners@.len() ==> #[trigger] owners@[idx] == owner(m.sprites, idx),
            forall|idx: int| 0 <= idx < j ==> #[trigger] out@[idx] == left_out(m, idx),
        decreases n - j,
    {
        let line = chars_of(sf.raw_lines[j].as_str());
        assert(line@ == m.raw_lines[j as int]);
        let t = trim_start(line.as_slice());
        let step = match parse_variant_line(t) {
            Some((_, v)) => v == 1 || v == 2,
            None => false,
        };
        let skip = step || match owners[j] {
            Some(sid) => {
                let dash = match dashes.get(&sid) {
                    Some(set) => set.contains(&j),
                    None => false,
                };
                assert(dash == (match dash_sprite(m.sprites, sid, m.sprites.len()) {
                    Some(i) => dash_on(m.sprites[i], j as int, m.sprites[i].actions.len()),
                    None => false,
                }));
                if dash {
                    true
                } else {
                    match parse_action_number(t) {
                        Some(v) => v >= 121,
                        None => false,
                    }
                }
            },
            None => false,
        };
        out.push(skip);
        j += 1;
    }
    out
}

/// The line behind which the slots of a sprite with header `h` are written.
fn find_slot_line(
    sf: &SpriteFile,
    owners: &Vec<Option<u16>>,
    skips: &Vec<bool>,
    sid: u16,
    h: usize,
) -> (r: usize)
    requires
        owners@.len() == sf@.raw_lines.len(),
        forall|idx: int|
            0 <= idx < owners@.len() ==> #[trigger] owners@[idx] == owner(sf@.sprites, idx),
        skips@.len() == sf@.raw_lines.len(),
        forall|idx: int| 0 <= idx < skips@.len() ==> #[trigger] skips@[idx] == left_out(sf@, idx),
    ensures
        r == last_kept(sf@, sid, h + 1, h as int),
{
    let n: usize = owners.len();
    if h >= n {
        return h;
    }
    let mut last: usize = h;
    let mut j: usize = h + 1;
    while j < n
        invariant
            h < j <= n,
            n == owners@.len(),
            n == sf@.raw_lines.len(),
            n == skips@.len(),
            forall|idx: int|
                0 <= idx < owners@.len() ==> #[trigger] owners@[idx] == owner(sf@.sprites, idx),
            forall|idx: int|
                0 <= idx < skips@.len() ==> #[trigger] skips@[idx] == left_out(sf@, idx),
            last_kept(sf@, sid, h + 1, h as int) == last_kept(sf@, sid, j as int, last as int),
        decreases n - j,
    {
        let mine = match owners[j] {
            Some(s) => s == sid,
            None => false,
        };
        if !mine {
            return last;
        }
        if !skips[j] {
            last = j;
        }
        j += 1;
    }
    last
}

/// What is known of the sprites by number: index of the last one with that
/// number, and the line for its slots.
fn collect_slots(sf: &SpriteFile, owners: &Vec<Option<u16>>, skips: &Vec<bool>) -> (r: HashMap<
    u16,
    (usize, usize),
>)
    requires
        owners@.len() == sf@.raw_lines.len(),
        forall|idx: int|
            0 <= idx < owners@.len() ==> #[trigger] owners@[idx] == owner(sf@.sprites, idx),
        skips@.len() == sf@.raw_lines.len(),
        forall|idx: int| 0 <= idx < skips@.len() ==> #[trigger] skips@[idx] == left_out(sf@, idx),
    ensures
        forall|sid: u16| #[trigger]
            r@.contains_key(sid) <==> last_with(sf@.sprites, sid, sf@.sprites.len()) is Some,
        forall|sid: u16| #[trigger]
            r@.contains_key(sid) ==> {
                &&& r@[sid].0 < sf@.sprites.len()
                &&& last_with(sf@.sprites, sid, sf@.sprites.len()) == Some(r@[sid].0 as int)
                &&& slot_line(sf@, sid) == Some(r@[sid].1 as int)
            },
{
    broadcast use vstd::std_specs::hash::group_hash_axioms;

    let ghost m = sf@.sprites;
    let mut out: HashMap<u16, (usize, usize)> = HashMap::new();
    let mut k: usize = 0;
    while k < sf.sprites.len()
        invariant
            k <= sf.sprites@.len(),
            m == sf@.sprites,
            m.len() == sf.sprites@.len(),
            owners@.len() == sf@.raw_lines.len(),
            forall|idx: int|
                0 <= idx < owners@.len() ==> #[trigger] owners@[idx] == owner(sf@.sprites, idx),
            skips@.len() == sf@.raw_lines.len(),
            forall|idx: int|
                0 <= idx < skips@.len() ==> #[trigger] skips@[idx] == left_out(sf@, idx),
            forall|sid: u16| #[trigger]
                out@.contains_key(sid) <==> last_with(m, sid, k as nat) is Some,
            forall|sid: u16| #[trigger]
                out@.contains_key(sid) ==> {
                    &&& out@[sid].0 < k
                    &&& last_with(m, sid, k as nat) == Some(out@[sid].0 as int)
                    &&& out@[sid].1 == last_kept(
                        sf@,
                        sid,
                        m[out@[sid].0 as int].header_line_idx + 1,
                        m[out@[sid].0 as int].header_line_idx,
                    )
                },
        decreases sf.sprites@.len() - k,
    {
        let sid: u16 = sf.sprites[k].sid;
        let h: usize = sf.sprites[k].header_line_idx;
        assert(m[k as int] == sf.sprites@[k as int]@);
        let ghost before = out@;
        let line = find_slot_line(sf, owners, skips, sid, h);
        out.insert(sid, (k, line));
        proof {
            assert forall|x: u16| #[trigger] out@.contains_key(x) <==> last_with(
                m,
                x,
                (k + 1) as nat,
            ) is Some by {
                assert(before.contains_key(x) <==> last_with(m, x, k as nat) is Some);
            }
            assert forall|x: u16| #[trigger] out@.contains_key(x) implies {
                &&& out@[x].0 < k + 1
                &&& last_with(m, x, (k + 1) as nat) == Some(out@[x].0 as int)
                &&& out@[x].1 == last_kept(
                    sf@,
                    x,
                    m[out@[x].0 as int].header_line_idx + 1,
                    m[out@[x].0 as int].header_line_idx,
                )
            } by {
                if x != sid {
                    assert(before.contains_key(x));
                }
            }
        }
        k += 1;
    }
    out
}

/// Appends the lines that carry a run pair.
fn push_slot_lines(out: &mut Vec<char>, p: &RunPair)
    ensures
        final(out)@ == old(out)@ + slot_lines(p@),
{
    let ghost start = out@;
    if p.runl.is_some() || p.runr.is_some() {
        match &p.framerate {
            Some(fr) => {
                push_str(out, "\n\t110.framerate(");
                push_str(out, fr.as_str());
                push_str(out, ")");
            },
            None => {},
        }
    }
    match &p.runl {
        Some(t) => {
            push_str(out, "\n\t98.walk(");
            push_str(out, t.as_str());
            push_str(out, ")");
        },
        None => {},
    }
    match &p.runr {
        Some(t) => {
            push_str(out, "\n\t99.walk(");
            push_str(out, t.as_str());
            push_str(out, ")");
        },
        None => {},
    }
    assert(out@ == start + slot_lines(p@));
}

/// What one line becomes.
fn emit_line(
    sf: &SpriteFile,
    pairs: &RunPairMap,
    owners: &Vec<Option<u16>>,
    skips: &Vec<bool>,
    slots: &HashMap<u16, (usize, usize)>,
    idx: usize,
) -> (r: Vec<char>)
    requires
        idx < sf@.raw_lines.len(),
        owners@.len() == sf@.raw_lines.len(),
        owners@[idx as int] == owner(sf@.sprites, idx as int),
        skips@.len() == sf@.raw_lines.len(),
        skips@[idx as int] == left_out(sf@, idx as int),
        forall|sid: u16| #[trigger]
            slots@.contains_key(sid) <==> last_with(sf@.sprites, sid, sf@.sprites.len()) is Some,
        forall|sid: u16| #[trigger]
            slots@.contains_key(sid) ==> {
                &&& slots@[sid].0 < sf@.sprites.len()
                &&& last_with(sf@.sprites, sid, sf@.sprites.len()) == Some(slots@[sid].0 as int)
                &&& slot_line(sf@, sid) == Some(slots@[sid].1 as int)
            },
    ensures
        r@ == line_out(sf@, pair_models(pairs@), idx as int),
{
    broadcast use vstd::std_specs::hash::group_hash_axioms;

    let ghost m = sf@;
    let ghost pm = pair_models(pairs@);
    if skips[idx] {
        return Vec::new();
    }
    let line = chars_of(sf.raw_lines[idx].as_str());
    assert(line@ == m.raw_lines[idx as int]);
    let mut out: Vec<char> = Vec::new();
    let mut rewritten = false;
    match owners[idx] {
        Some(sid) => {
            match (slots.get(&sid), pairs.get(&sid)) {
                (Some(place), Some(p)) => {
                    assert(p@ == pm[sid]);
                    let s = &sf.sprites[place.0];
                    assert(m.sprites[place.0 as int] == s@);
                    rewritten = s.header_line_idx == idx && p.source_img_count > s.img_count;
                    if rewritten {
                        out =
                        update_header_img_count(line.as_slice(), s.img_count, p.source_img_count);
                    } else {
                        push_all(&mut out, line.as_slice());
                    }
                    assert(out@ == kept_line(m, pm, idx as int));
                    if place.1 == idx {
                        push_slot_lines(&mut out, p);
                    }
                },
                _ => {
                    push_all(&mut out, line.as_slice());
                },
            }
        },
        None => {
            push_all(&mut out, line.as_slice());
        },
    }
    assert(rewritten == rewrites_header(m, pm, idx as int) is Some);
    assert(out@ == kept_line(m, pm, idx as int) + slots_behind(m, pm, idx as int));
    if rewritten || idx < sf.raw_lines.len() - 1 {
        push_str(&mut out, "\n");
    }
    assert(out@ == line_out(m, pm, idx as int));
    out
}

/// Writes a table out, with the slots 98 and 99 for the sprites that have a run
/// pair.
pub fn emit(sf: &SpriteFile, walk_to_run: &RunPairMap) -> (r: (String, VariantInfo))
    ensures
        r.0@ == emitted(sf@, pair_models(walk_to_run@)),
        r.1.converted_count == walk_to_run@.len(),
        r.1.walk_sprites@.len() == 0,
        r.1.run_sprites@.len() == 0,
        r.1.run_actions@ == Set::<u8>::empty(),
        r.1.walk_count == 0,
        r.1.run_count == 0,
{
    broadcast use vstd::std_specs::hash::group_hash_axioms;

    let ghost m = sf@;
    let ghost pm = pair_models(walk_to_run@);
    let info = VariantInfo {
        walk_sprites: Vec::new(),
        run_sprites: Vec::new(),
        run_actions: HashSet::new(),
        walk_count: 0,
        run_count: 0,
        converted_count: walk_to_run.len(),
    };
    let owners = collect_owners(sf);
    let skips = collect_left_out(sf, &owners);
    let slots = collect_slots(sf, &owners, &skips);
    let mut out: Vec<char> = Vec::new();
    let n: usize = sf.raw_lines.len();
    let mut j: usize = 0;
    while j < n
        invariant
            j <= n,
            n == sf.raw_lines@.len(),
            m == sf@,
            m.raw_lines.len() == n,
            pm == pair_models(walk_to_run@),
            owners@.len() == m.raw_lines.len(),
            forall|idx: int|
                0 <= idx < owners@.len() ==> #[trigger] owners@[idx] == owner(m.sprites, idx),
            skips@.len() == m.raw_lines.len(),
            forall|idx: int|
                0 <= idx < skips@.len() ==> #[trigger] skips@[idx] == left_out(m, idx),
            forall|sid: u16| #[trigger]
                slots@.contains_key(sid) <==> last_with(m.sprites, sid, m.sprites.len()) is Some,
            forall|sid: u16| #[trigger]
                slots@.contains_key(sid) ==> {
                    &&& slots@[sid].0 < m.sprites.len()
                    &&& last_with(m.sprites, sid, m.sprites.len()) == Some(slots@[sid].0 as int)
                    &&& slot_line(m, sid) == Some(slots@[sid].1 as int)
                },
            out@ == lines_out(m, pm, j as nat),
        decreases n - j,
    {
        let part = emit_line(sf, walk_to_run, &owners, &skips, &slots, j);
        push_all(&mut out, part.as_slice());
        j += 1;
    }
    if sf.ends_with_newline && (out.len() == 0 || out[out.len() - 1] != '\n') {
        out.push('\n');
    }
    (string_of(out.as_slice()), info)
}

} // verus!

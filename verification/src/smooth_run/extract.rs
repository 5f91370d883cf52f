//! Taking the run animation out of a sprite.
//!
//! The ways to find it, in order of precedence: dash variants, actions named
//! for running, the pair 32 and 33, and the pair 0 and 4.

use super::classify::{
    eight_frame_pair, find_plain, first_plain, is_clean_run_name, is_clean_run_source_name,
    is_eight_frame_pair,
};
use super::helpers::{interleaved, is_tianm_interleaved_lr};
use super::types::{
    action_models, clone_text, opt_text, pair_models, Action, ActionModel, RoleMap, RunPair,
    RunPairMap, RunPairModel, Sprite, SpriteFile, SpriteModel, SpriteRole,
};
use crate::text::{chars_of, lower_of, starts_with, to_lowercase};
use std::collections::HashMap;
use vstd::prelude::*;

verus! {

/// The first text that is there.
pub open spec fn or_text(a: Option<Seq<char>>, b: Option<Seq<char>>) -> Option<Seq<char>> {
    if a is Some {
        a
    } else {
        b
    }
}

fn either_text(a: &Option<String>, b: &Option<String>) -> (r: Option<String>)
    ensures
        opt_text(r) == or_text(opt_text(*a), opt_text(*b)),
{
    if a.is_some() {
        clone_text(a)
    } else {
        clone_text(b)
    }
}

/// The first action with the given number, dash variants included.
pub open spec fn first_base(actions: Seq<ActionModel>, base: u32) -> Option<ActionModel>
    decreases actions.len(),
{
    if actions.len() == 0 {
        None
    } else if actions[0].base_action == base {
        Some(actions[0])
    } else {
        first_base(actions.drop_first(), base)
    }
}

fn find_base<'a>(actions: &'a Vec<Action>, base: u32) -> (r: Option<&'a Action>)
    ensures
        match r {
            Some(a) => first_base(action_models(actions@), base) == Some(a@),
            None => first_base(action_models(actions@), base) is None,
        },
{
    let ghost m = action_models(actions@);
    let mut i: usize = 0;
    assert(m.skip(0) == m);
    while i < actions.len()
        invariant
            i <= actions@.len(),
            m == action_models(actions@),
            first_base(m, base) == first_base(m.skip(i as int), base),
        decreases actions@.len() - i,
    {
        assert(m.skip(i as int)[0] == actions@[i as int]@);
        assert(m.skip(i as int).drop_first() == m.skip(i + 1));
        if actions[i].base_action == base {
            return Some(&actions[i]);
        }
        i += 1;
    }
    None
}

/// The first dash variant `variant` of an action below 121.
pub open spec fn first_dash(actions: Seq<ActionModel>, variant: u32) -> Option<ActionModel>
    decreases actions.len(),
{
    if actions.len() == 0 {
        None
    } else if actions[0].dash_variant == Some(variant) && actions[0].base_action < 121 {
        Some(actions[0])
    } else {
        first_dash(actions.drop_first(), variant)
    }
}

fn find_dash<'a>(actions: &'a Vec<Action>, variant: u32) -> (r: Option<&'a Action>)
    ensures
        match r {
            Some(a) => first_dash(action_models(actions@), variant) == Some(a@),
            None => first_dash(action_models(actions@), variant) is None,
        },
{
    let ghost m = action_models(actions@);
    let mut i: usize = 0;
    assert(m.skip(0) == m);
    while i < actions.len()
        invariant
            i <= actions@.len(),
            m == action_models(actions@),
            first_dash(m, variant) == first_dash(m.skip(i as int), variant),
        decreases actions@.len() - i,
    {
        assert(m.skip(i as int)[0] == actions@[i as int]@);
        assert(m.skip(i as int).drop_first() == m.skip(i + 1));
        let hit = match actions[i].dash_variant {
            Some(v) => v == variant && actions[i].base_action < 121,
            None => false,
        };
        if hit {
            return Some(&actions[i]);
        }
        i += 1;
    }
    None
}

/// The first action that is no dash variant and whose name begins with `p`.
pub open spec fn first_named(actions: Seq<ActionModel>, p: Seq<char>) -> Option<ActionModel>
    decreases actions.len(),
{
    if actions.len() == 0 {
        None
    } else if actions[0].dash_variant is None && p.is_prefix_of(actions[0].name) {
        Some(actions[0])
    } else {
        first_named(actions.drop_first(), p)
    }
}

fn find_named<'a>(actions: &'a Vec<Action>, p: &str) -> (r: Option<&'a Action>)
    ensures
        match r {
            Some(a) => first_named(action_models(actions@), p@) == Some(a@),
            None => first_named(action_models(actions@), p@) is None,
        },
{
    let ghost m = action_models(actions@);
    let mut i: usize = 0;
    assert(m.skip(0) == m);
    while i < actions.len()
        invariant
            i <= actions@.len(),
            m == action_models(actions@),
            first_named(m, p@) == first_named(m.skip(i as int), p@),
        decreases actions@.len() - i,
    {
        assert(m.skip(i as int)[0] == actions@[i as int]@);
        assert(m.skip(i as int).drop_first() == m.skip(i + 1));
        if actions[i].dash_variant.is_none() && starts_with(
            chars_of(actions[i].name.as_str()).as_slice(),
            p,
        ) {
            return Some(&actions[i]);
        }
        i += 1;
    }
    None
}

/// The frames of an action, if it is there.
pub open spec fn content_of(a: Option<ActionModel>) -> Option<Seq<char>> {
    match a {
        Some(a) => Some(a.content),
        None => None,
    }
}

/// The frame rate of an action, if it is there and has one.
pub open spec fn rate_of(a: Option<ActionModel>) -> Option<Seq<char>> {
    match a {
        Some(a) => a.framerate_at_parse,
        None => None,
    }
}

spec fn model_of(a: Option<&Action>) -> Option<ActionModel> {
    match a {
        Some(a) => Some(a@),
        None => None,
    }
}

fn copy_content(a: Option<&Action>) -> (r: Option<String>)
    ensures
        opt_text(r) == content_of(model_of(a)),
{
    match a {
        Some(a) => Some(a.content.clone()),
        None => None,
    }
}

fn copy_rate(a: Option<&Action>) -> (r: Option<String>)
    ensures
        opt_text(r) == rate_of(model_of(a)),
{
    match a {
        Some(a) => clone_text(&a.framerate_at_parse),
        None => None,
    }
}

/// The dash variants: 1 is the left foot, 2 the right one. They carry no frame
/// rate.
pub open spec fn dash_pair(s: SpriteModel) -> Option<RunPairModel> {
    let l = first_dash(s.actions, 1);
    let r = first_dash(s.actions, 2);
    if l is None && r is None {
        None
    } else {
        Some(
            RunPairModel {
                runl: content_of(l),
                runr: content_of(r),
                framerate: None,
                source_img_count: s.img_count,
            },
        )
    }
}

fn extract_dash(sprite: &Sprite) -> (r: Option<RunPair>)
    ensures
        match r {
            Some(p) => dash_pair(sprite@) == Some(p@),
            None => dash_pair(sprite@) is None,
        },
{
    let l = find_dash(&sprite.actions, 1);
    let r = find_dash(&sprite.actions, 2);
    if l.is_none() && r.is_none() {
        return None;
    }
    Some(
        RunPair {
            runl: copy_content(l),
            runr: copy_content(r),
            framerate: None,
            source_img_count: sprite.img_count,
        },
    )
}

/// Actions whose names begin with `runl` and `runr`.
pub open spec fn named_pair(s: SpriteModel) -> Option<RunPairModel> {
    let l = first_named(s.actions, "runl"@);
    let r = first_named(s.actions, "runr"@);
    if l is None && r is None {
        None
    } else {
        Some(
            RunPairModel {
                runl: content_of(l),
                runr: content_of(r),
                framerate: or_text(rate_of(l), rate_of(r)),
                source_img_count: s.img_count,
            },
        )
    }
}

fn extract_named(sprite: &Sprite) -> (r: Option<RunPair>)
    ensures
        match r {
            Some(p) => named_pair(sprite@) == Some(p@),
            None => named_pair(sprite@) is None,
        },
{
    let l = find_named(&sprite.actions, "runl");
    let r = find_named(&sprite.actions, "runr");
    if l.is_none() && r.is_none() {
        return None;
    }
    let lr = copy_rate(l);
    let rr = copy_rate(r);
    Some(
        RunPair {
            runl: copy_content(l),
            runr: copy_content(r),
            framerate: either_text(&lr, &rr),
            source_img_count: sprite.img_count,
        },
    )
}

/// The actions 0 and 4, dash variants included, are a pair of running frames
/// with a fitting name.
pub open spec fn template_a_base(s: SpriteModel) -> bool {
    match (first_base(s.actions, 0), first_base(s.actions, 4)) {
        (Some(a0), Some(a4)) => is_eight_frame_pair(a0, a4) && (is_clean_run_name(a0.name)
            || is_clean_run_name(a4.name)),
        _ => false,
    }
}

/// The frame rate that goes with such a pair.
pub open spec fn template_a_base_rate(s: SpriteModel) -> Option<Seq<char>> {
    if template_a_base(s) {
        or_text(rate_of(first_base(s.actions, 0)), rate_of(first_base(s.actions, 4)))
    } else {
        None
    }
}

fn template_a_walk_framerate(sprite: &Sprite) -> (r: Option<String>)
    ensures
        opt_text(r) == template_a_base_rate(sprite@),
{
    match (find_base(&sprite.actions, 0), find_base(&sprite.actions, 4)) {
        (Some(a0), Some(a4)) => {
            if eight_frame_pair(a0, a4) && (is_clean_run_source_name(a0.name.as_str())
                || is_clean_run_source_name(a4.name.as_str())) {
                either_text(&a0.framerate_at_parse, &a4.framerate_at_parse)
            } else {
                None
            }
        },
        _ => None,
    }
}

/// The actions 32 and 33 where their images lie eight apart; the lower ones are
/// the left foot.
pub open spec fn structural_pair(s: SpriteModel) -> Option<RunPairModel> {
    match (first_plain(s.actions, 32), first_plain(s.actions, 33)) {
        (Some(a), Some(b)) => if is_eight_frame_pair(a, b) {
            let (l, r) = if b.first_spr == a.first_spr + 8 {
                (a, b)
            } else {
                (b, a)
            };
            Some(
                RunPairModel {
                    runl: Some(l.content),
                    runr: Some(r.content),
                    framerate: template_a_base_rate(s),
                    source_img_count: s.img_count,
                },
            )
        } else {
            None
        },
        _ => None,
    }
}

fn extract_3233_strict(sprite: &Sprite) -> (r: Option<RunPair>)
    ensures
        match r {
            Some(p) => structural_pair(sprite@) == Some(p@),
            None => structural_pair(sprite@) is None,
        },
{
    let (a, b) = match (find_plain(&sprite.actions, 32), find_plain(&sprite.actions, 33)) {
        (Some(a), Some(b)) => (a, b),
        _ => return None,
    };
    if !eight_frame_pair(a, b) {
        return None;
    }
    let (l, r) = if b.first_spr as u64 == a.first_spr as u64 + 8 {
        (a, b)
    } else {
        (b, a)
    };
    Some(
        RunPair {
            runl: Some(l.content.clone()),
            runr: Some(r.content.clone()),
            framerate: template_a_walk_framerate(sprite),
            source_img_count: sprite.img_count,
        },
    )
}

/// The actions 0 and 4 as a run pair. A single one counts in a running sprite
/// if it has eight frames and a clean name. Both count where they alternate in
/// a running sprite; otherwise a side of an eight-frame pair counts if its own
/// name is clean.
pub open spec fn plain_pair(s: SpriteModel, role: SpriteRole) -> Option<RunPairModel> {
    let l = first_plain(s.actions, 0);
    let r = first_plain(s.actions, 4);
    match (l, r) {
        (None, None) => None,
        (Some(a), None) => single_pair(s, role, a, content_of(l), content_of(r)),
        (None, Some(a)) => single_pair(s, role, a, content_of(l), content_of(r)),
        (Some(a), Some(b)) => if role == SpriteRole::Run && interleaved(a.content, b.content) {
            Some(
                RunPairModel {
                    runl: Some(a.content),
                    runr: Some(b.content),
                    framerate: or_text(a.framerate_at_parse, b.framerate_at_parse),
                    source_img_count: s.img_count,
                },
            )
        } else if is_eight_frame_pair(a, b) && (is_clean_run_name(a.name) || is_clean_run_name(
            b.name,
        )) {
            Some(
                RunPairModel {
                    runl: if is_clean_run_name(a.name) {
                        Some(a.content)
                    } else {
                        None
                    },
                    runr: if is_clean_run_name(b.name) {
                        Some(b.content)
                    } else {
                        None
                    },
                    framerate: or_text(a.framerate_at_parse, b.framerate_at_parse),
                    source_img_count: s.img_count,
                },
            )
        } else {
            None
        },
    }
}

/// A pair of which only the action `a` is there.
pub open spec fn single_pair(
    s: SpriteModel,
    role: SpriteRole,
    a: ActionModel,
    runl: Option<Seq<char>>,
    runr: Option<Seq<char>>,
) -> Option<RunPairModel> {
    if role == SpriteRole::Run && a.direction == 1 && a.frame_count == 8 && is_clean_run_name(
        a.name,
    ) {
        Some(
            RunPairModel {
                runl,
                runr,
                framerate: a.framerate_at_parse,
                source_img_count: s.img_count,
            },
        )
    } else {
        None
    }
}

fn single_counts(role: SpriteRole, a: &Action) -> (r: bool)
    ensures
        r == (role == SpriteRole::Run && a.direction == 1 && a.frame_count == 8
            && is_clean_run_name(a.name@)),
{
    role == SpriteRole::Run && a.direction == 1 && a.frame_count == 8 && is_clean_run_source_name(
        a.name.as_str(),
    )
}

fn extract_04_abs(sprite: &Sprite, role: SpriteRole) -> (r: Option<RunPair>)
    ensures
        match r {
            Some(p) => plain_pair(sprite@, role) == Some(p@),
            None => plain_pair(sprite@, role) is None,
        },
{
    let l = find_plain(&sprite.actions, 0);
    let r = find_plain(&sprite.actions, 4);
    match (l, r) {
        (None, None) => None,
        (Some(a), None) => {
            if !single_counts(role, a) {
                return None;
            }
            Some(
                RunPair {
                    runl: Some(a.content.clone()),
                    runr: None,
                    framerate: clone_text(&a.framerate_at_parse),
                    source_img_count: sprite.img_count,
                },
            )
        },
        (None, Some(a)) => {
            if !single_counts(role, a) {
                return None;
            }
            Some(
                RunPair {
                    runl: None,
                    runr: Some(a.content.clone()),
                    framerate: clone_text(&a.framerate_at_parse),
                    source_img_count: sprite.img_count,
                },
            )
        },
        (Some(a), Some(b)) => {
            let framerate = either_text(&a.framerate_at_parse, &b.framerate_at_parse);
            if role == SpriteRole::Run && is_tianm_interleaved_lr(
                chars_of(a.content.as_str()).as_slice(),
                chars_of(b.content.as_str()).as_slice(),
            ) {
                return Some(
                    RunPair {
                        runl: Some(a.content.clone()),
                        runr: Some(b.content.clone()),
                        framerate,
                        source_img_count: sprite.img_count,
                    },
                );
            }
            let clean_l = is_clean_run_source_name(a.name.as_str());
            let clean_r = is_clean_run_source_name(b.name.as_str());
            if !eight_frame_pair(a, b) || !(clean_l || clean_r) {
                return None;
            }
            Some(
                RunPair {
                    runl: if clean_l {
                        Some(a.content.clone())
                    } else {
                        None
                    },
                    runr: if clean_r {
                        Some(b.content.clone())
                    } else {
                        None
                    },
                    framerate,
                    source_img_count: sprite.img_count,
                },
            )
        },
    }
}

/// The run animation of one sprite, by the first way that finds one.
pub open spec fn run_pair(s: SpriteModel, role: SpriteRole) -> Option<RunPairModel> {
    if dash_pair(s) is Some {
        dash_pair(s)
    } else if named_pair(s) is Some {
        named_pair(s)
    } else if structural_pair(s) is Some {
        structural_pair(s)
    } else {
        plain_pair(s, role)
    }
}

fn extract_one(sprite: &Sprite, role: SpriteRole) -> (r: Option<RunPair>)
    ensures
        match r {
            Some(p) => run_pair(sprite@, role) == Some(p@),
            None => run_pair(sprite@, role) is None,
        },
{
    match extract_dash(sprite) {
        Some(p) => return Some(p),
        None => {},
    }
    match extract_named(sprite) {
        Some(p) => return Some(p),
        None => {},
    }
    match extract_3233_strict(sprite) {
        Some(p) => return Some(p),
        None => {},
    }
    extract_04_abs(sprite, role)
}

/// The frame rate of the actions 0 and 4 where they are a running pair with a
/// fitting name.
pub open spec fn template_a_rate(s: SpriteModel) -> Option<Seq<char>> {
    match (first_plain(s.actions, 0), first_plain(s.actions, 4)) {
        (Some(a), Some(b)) => if is_eight_frame_pair(a, b) && (is_clean_run_name(a.name)
            || is_clean_run_name(b.name)) {
            or_text(a.framerate_at_parse, b.framerate_at_parse)
        } else {
            None
        },
        _ => None,
    }
}

fn template_a_framerate_fallback(sprite: &Sprite) -> (r: Option<String>)
    ensures
        opt_text(r) == template_a_rate(sprite@),
{
    match (find_plain(&sprite.actions, 0), find_plain(&sprite.actions, 4)) {
        (Some(a), Some(b)) => {
            if eight_frame_pair(a, b) && (is_clean_run_source_name(a.name.as_str())
                || is_clean_run_source_name(b.name.as_str())) {
                either_text(&a.framerate_at_parse, &b.framerate_at_parse)
            } else {
                None
            }
        },
        _ => None,
    }
}

/// The role that a sprite number has; numbers without a role have none.
pub open spec fn role_in(roles: Map<u16, SpriteRole>, sid: u16) -> SpriteRole {
    if roles.contains_key(sid) {
        roles[sid]
    } else {
        SpriteRole::Neither
    }
}

pub fn role_of(roles: &RoleMap, sid: u16) -> (r: SpriteRole)
    ensures
        r == role_in(roles@, sid),
{
    broadcast use vstd::std_specs::hash::group_hash_axioms;

    match roles.get(&sid) {
        Some(role) => *role,
        None => SpriteRole::Neither,
    }
}

/// The run animation of a sprite, with a frame rate from its walking actions
/// where it has none of its own.
pub open spec fn run_pair_rated(s: SpriteModel, role: SpriteRole) -> Option<RunPairModel> {
    match run_pair(s, role) {
        Some(p) => Some(
            RunPairModel { framerate: or_text(p.framerate, template_a_rate(s)), ..p },
        ),
        None => None,
    }
}

/// The run animations of the first `k` sprites by number; a later sprite with
/// the same number replaces an earlier one.
pub open spec fn run_pairs(
    sprites: Seq<SpriteModel>,
    roles: Map<u16, SpriteRole>,
    k: nat,
) -> Map<u16, RunPairModel>
    decreases k,
{
    if k == 0 {
        Map::empty()
    } else {
        let before = run_pairs(sprites, roles, (k - 1) as nat);
        let s = sprites[k - 1];
        match run_pair_rated(s, role_in(roles, s.sid)) {
            Some(p) => before.insert(s.sid, p),
            None => before,
        }
    }
}

/// The run animations of a table.
pub fn extract(sf: &SpriteFile, roles: &RoleMap) -> (r: RunPairMap)
    ensures
        pair_models(r@) == run_pairs(sf@.sprites, roles@, sf@.sprites.len()),
{
    broadcast use vstd::std_specs::hash::group_hash_axioms;

    let ghost m = sf@.sprites;
    let mut runs: RunPairMap = HashMap::new();
    let mut i: usize = 0;
    assert(pair_models(runs@) == run_pairs(m, roles@, 0));
    while i < sf.sprites.len()
        invariant
            i <= sf.sprites@.len(),
            m == sf@.sprites,
            pair_models(runs@) == run_pairs(m, roles@, i as nat),
        decreases sf.sprites@.len() - i,
    {
        let s = &sf.sprites[i];
        assert(m[i as int] == s@);
        let role = role_of(roles, s.sid);
        let ghost before = pair_models(runs@);
        match extract_one(s, role) {
            Some(mut pair) => {
                if pair.framerate.is_none() {
                    pair.framerate = template_a_framerate_fallback(s);
                }
                let ghost pm = pair@;
                assert(run_pair_rated(s@, role) == Some(pm));
                runs.insert(s.sid, pair);
                assert(pair_models(runs@) == before.insert(s.sid, pm));
            },
            None => {},
        }
        i += 1;
    }
    runs
}

/// The name of an action 0 that is itself a running step.
pub open spec fn is_lr_name(name: Seq<char>) -> bool {
    "walkfast"@.is_prefix_of(lower_of(name)) || "run"@.is_prefix_of(lower_of(name))
}

fn is_lr_walk_name(name: &str) -> (r: bool)
    ensures
        r == is_lr_name(name@),
{
    let lower = to_lowercase(chars_of(name).as_slice());
    starts_with(lower.as_slice(), "walkfast") || starts_with(lower.as_slice(), "run")
}

/// The actions 0 and 4 as left and right foot: a name of running, different
/// images, and equally many frames.
pub open spec fn builtin_pair(s: SpriteModel) -> Option<RunPairModel> {
    match (first_plain(s.actions, 0), first_plain(s.actions, 4)) {
        (Some(a), Some(b)) => if is_lr_name(a.name) && a.first_spr != b.first_spr && a.frame_count
            == b.frame_count {
            Some(
                RunPairModel {
                    runl: Some(a.content),
                    runr: Some(b.content),
                    framerate: or_text(a.framerate_at_parse, b.framerate_at_parse),
                    source_img_count: s.img_count,
                },
            )
        } else {
            None
        },
        _ => None,
    }
}

pub fn extract_builtin_lr(sprite: &Sprite) -> (r: Option<RunPair>)
    ensures
        match r {
            Some(p) => builtin_pair(sprite@) == Some(p@),
            None => builtin_pair(sprite@) is None,
        },
{
    match (find_plain(&sprite.actions, 0), find_plain(&sprite.actions, 4)) {
        (Some(a), Some(b)) => {
            if is_lr_walk_name(a.name.as_str()) && a.first_spr != b.first_spr && a.frame_count
                == b.frame_count {
                Some(
                    RunPair {
                        runl: Some(a.content.clone()),
                        runr: Some(b.content.clone()),
                        framerate: either_text(&a.framerate_at_parse, &b.framerate_at_parse),
                        source_img_count: sprite.img_count,
                    },
                )
            } else {
                None
            }
        },
        _ => None,
    }
}

} // verus!

//! Deciding for each sprite whether it walks, runs, does both or neither.

use super::helpers::{interleaved, is_tianm_interleaved_lr};
use super::types::{
    action_models, Action, ActionModel, RoleMap, Sprite, SpriteFile, SpriteModel, SpriteRole,
};
use crate::text::{
    chars_of, eq_str, lower_of, starts_with, to_lowercase, trim, trim_of,
};
use std::collections::HashMap;
use vstd::prelude::*;

verus! {

/// The walking actions.
pub open spec fn is_walk_action(code: u32) -> bool {
    code == 0 || code == 4 || code == 11 || code == 20 || code == 24 || code == 40 || code == 46
        || code == 50 || code == 54 || code == 58 || code == 62 || code == 83 || code == 88 || code
        == 119
}

/// The first action with the given number that is no dash variant.
pub open spec fn first_plain(actions: Seq<ActionModel>, base: u32) -> Option<ActionModel>
    decreases actions.len(),
{
    if actions.len() == 0 {
        None
    } else if actions[0].dash_variant is None && actions[0].base_action == base {
        Some(actions[0])
    } else {
        first_plain(actions.drop_first(), base)
    }
}

pub fn find_plain<'a>(actions: &'a Vec<Action>, base: u32) -> (r: Option<&'a Action>)
    ensures
        match r {
            Some(a) => first_plain(action_models(actions@), base) == Some(a@),
            None => first_plain(action_models(actions@), base) is None,
        },
{
    let ghost m = action_models(actions@);
    let mut i: usize = 0;
    assert(m.skip(0) == m);
    while i < actions.len()
        invariant
            i <= actions@.len(),
            m == action_models(actions@),
            first_plain(m, base) == first_plain(m.skip(i as int), base),
        decreases actions@.len() - i,
    {
        assert(m.skip(i as int)[0] == actions@[i as int]@);
        assert(m.skip(i as int).drop_first() == m.skip(i + 1));
        if actions[i].dash_variant.is_none() && actions[i].base_action == base {
            return Some(&actions[i]);
        }
        i += 1;
    }
    None
}

/// The name of an action that holds nothing but running frames, or no name.
pub open spec fn is_clean_run_name(name: Seq<char>) -> bool {
    let t = trim_of(name);
    t.len() == 0 || t == "walk"@ || t == "runl"@ || t == "runr"@ || "walkfast"@.is_prefix_of(t)
}

pub fn is_clean_run_source_name(name: &str) -> (r: bool)
    ensures
        r == is_clean_run_name(name@),
{
    let chars = chars_of(name);
    let t = trim(chars.as_slice());
    t.len() == 0 || eq_str(t, "walk") || eq_str(t, "runl") || eq_str(t, "runr") || starts_with(
        t,
        "walkfast",
    )
}

/// A name that calls an action a run animation.
pub open spec fn is_explicit_run_name(name: Seq<char>) -> bool {
    let t = trim_of(lower_of(name));
    "runl"@.is_prefix_of(t) || "runr"@.is_prefix_of(t) || "walkfast"@.is_prefix_of(t) || t
        == "runone"@ || t == "runtwo"@ || t == "run_one"@ || t == "run_two"@ || t == "run one"@ || t
        == "run two"@
}

pub fn is_explicit_run_source_name(name: &str) -> (r: bool)
    ensures
        r == is_explicit_run_name(name@),
{
    let lower = to_lowercase(chars_of(name).as_slice());
    let t = trim(lower.as_slice());
    starts_with(t, "runl") || starts_with(t, "runr") || starts_with(t, "walkfast") || eq_str(
        t,
        "runone",
    ) || eq_str(t, "runtwo") || eq_str(t, "run_one") || eq_str(t, "run_two") || eq_str(t, "run one")
        || eq_str(t, "run two")
}

/// The name begins with `runl` or `runr`.
pub open spec fn is_run_name(name: Seq<char>) -> bool {
    "runl"@.is_prefix_of(name) || "runr"@.is_prefix_of(name)
}

pub fn has_run_name(name: &str) -> (r: bool)
    ensures
        r == is_run_name(name@),
{
    let chars = chars_of(name);
    starts_with(chars.as_slice(), "runl") || starts_with(chars.as_slice(), "runr")
}

/// Two eight-frame animations in one direction that lie eight images apart.
pub open spec fn is_eight_frame_pair(a: ActionModel, b: ActionModel) -> bool {
    &&& a.direction == 1
    &&& b.direction == 1
    &&& a.frame_count == 8
    &&& b.frame_count == 8
    &&& (a.first_spr - b.first_spr == 8 || b.first_spr - a.first_spr == 8)
}

pub fn eight_frame_pair(a: &Action, b: &Action) -> (r: bool)
    ensures
        r == is_eight_frame_pair(a@, b@),
{
    a.direction == 1 && b.direction == 1 && a.frame_count == 8 && b.frame_count == 8 && (
    a.first_spr as u64 == b.first_spr as u64 + 8 || b.first_spr as u64 == a.first_spr as u64 + 8)
}

/// The actions 0 and 4 are a run pair that takes the place of walking.
pub open spec fn template_a(s: SpriteModel) -> bool {
    match (first_plain(s.actions, 0), first_plain(s.actions, 4)) {
        (Some(a0), Some(a4)) => is_eight_frame_pair(a0, a4) && (is_clean_run_name(a0.name)
            || is_clean_run_name(a4.name) || interleaved(a0.content, a4.content)),
        _ => false,
    }
}

pub fn template_a_promotes_to_run(sprite: &Sprite) -> (r: bool)
    ensures
        r == template_a(sprite@),
{
    let a0 = match find_plain(&sprite.actions, 0) {
        Some(a) => a,
        None => return false,
    };
    let a4 = match find_plain(&sprite.actions, 4) {
        Some(a) => a,
        None => return false,
    };
    eight_frame_pair(a0, a4) && (is_clean_run_source_name(a0.name.as_str())
        || is_clean_run_source_name(a4.name.as_str()) || is_tianm_interleaved_lr(
        chars_of(a0.content.as_str()).as_slice(),
        chars_of(a4.content.as_str()).as_slice(),
    ))
}

/// Two actions are a run pair by their frames: of two numbers, each with eight
/// frames in one direction, eight images apart.
pub open spec fn paired_at(actions: Seq<ActionModel>, i: int, j: int) -> bool {
    &&& 0 <= i < actions.len()
    &&& 0 <= j < actions.len()
    &&& actions[i].base_action < actions[j].base_action
    &&& is_eight_frame_pair(actions[i], actions[j])
}

/// Some two actions are a run pair by their frames.
pub open spec fn has_structural_pair(actions: Seq<ActionModel>) -> bool {
    exists|i: int, j: int| paired_at(actions, i, j)
}

pub fn structural_pair(sprite: &Sprite) -> (r: bool)
    ensures
        r == has_structural_pair(sprite@.actions),
{
    let ghost m = sprite@.actions;
    let n: usize = sprite.actions.len();
    let mut i: usize = 0;
    while i < n
        invariant
            i <= n,
            n == sprite.actions@.len(),
            m == sprite@.actions,
            m.len() == n,
            forall|x: int, y: int| x < i ==> !paired_at(m, x, y),
        decreases n - i,
    {
        let mut j: usize = 0;
        while j < n
            invariant
                i < n,
                j <= n,
                n == sprite.actions@.len(),
                m == sprite@.actions,
                m.len() == n,
                forall|y: int| y < j ==> !paired_at(m, i as int, y),
            decreases n - j,
        {
            let a = &sprite.actions[i];
            let b = &sprite.actions[j];
            assert(m[i as int] == a@ && m[j as int] == b@);
            if a.base_action < b.base_action && eight_frame_pair(a, b) {
                assert(paired_at(m, i as int, j as int));
                return true;
            }
            j += 1;
        }
        i += 1;
    }
    false
}

/// The sprite has running frames: a dash variant below action 121, an action
/// named for running, or two actions that are a run pair by their frames.
pub open spec fn has_run(s: SpriteModel) -> bool {
    ||| exists|i: int|
        0 <= i < s.actions.len() && (#[trigger] s.actions[i]).dash_variant is Some
            && s.actions[i].base_action < 121
    ||| exists|i: int|
        0 <= i < s.actions.len() && (#[trigger] s.actions[i]).dash_variant is None && is_run_name(
            s.actions[i].name,
        )
    ||| has_structural_pair(s.actions)
}

pub fn has_run_signal(sprite: &Sprite) -> (r: bool)
    ensures
        r == has_run(sprite@),
{
    let ghost m = sprite@.actions;
    let mut i: usize = 0;
    while i < sprite.actions.len()
        invariant
            i <= sprite.actions@.len(),
            m == sprite@.actions,
            forall|j: int|
                0 <= j < i ==> !((#[trigger] m[j]).dash_variant is Some && m[j].base_action < 121)
                    && !(m[j].dash_variant is None && is_run_name(m[j].name)),
        decreases sprite.actions@.len() - i,
    {
        let a = &sprite.actions[i];
        assert(m[i as int] == a@);
        if a.dash_variant.is_some() {
            if a.base_action < 121 {
                return true;
            }
        } else if has_run_name(a.name.as_str()) {
            return true;
        }
        i += 1;
    }
    structural_pair(sprite)
}

/// The sprite has a walking action; in a running sprite one that is named for
/// running does not count.
pub open spec fn has_walk(s: SpriteModel, run: bool) -> bool {
    exists|i: int|
        0 <= i < s.actions.len() && (#[trigger] s.actions[i]).dash_variant is None
            && is_walk_action(s.actions[i].base_action) && !(run && is_run_name(s.actions[i].name))
}

pub fn has_walk_signal(sprite: &Sprite, run: bool) -> (r: bool)
    ensures
        r == has_walk(sprite@, run),
{
    let ghost m = sprite@.actions;
    let mut i: usize = 0;
    while i < sprite.actions.len()
        invariant
            i <= sprite.actions@.len(),
            m == sprite@.actions,
            forall|j: int|
                0 <= j < i ==> !((#[trigger] m[j]).dash_variant is None && is_walk_action(
                    m[j].base_action,
                ) && !(run && is_run_name(m[j].name))),
        decreases sprite.actions@.len() - i,
    {
        let a = &sprite.actions[i];
        assert(m[i as int] == a@);
        let c: u32 = a.base_action;
        let walk = c == 0 || c == 4 || c == 11 || c == 20 || c == 24 || c == 40 || c == 46 || c
            == 50 || c == 54 || c == 58 || c == 62 || c == 83 || c == 88 || c == 119;
        if a.dash_variant.is_none() && walk && !(run && has_run_name(a.name.as_str())) {
            return true;
        }
        i += 1;
    }
    false
}

/// The role of a sprite on its own.
pub open spec fn own_role(s: SpriteModel) -> SpriteRole {
    let run = has_run(s);
    let walk = has_walk(s, run);
    if walk && run {
        if template_a(s) {
            SpriteRole::Run
        } else {
            SpriteRole::Both
        }
    } else if walk {
        SpriteRole::Walk
    } else if run {
        SpriteRole::Run
    } else {
        SpriteRole::Neither
    }
}

pub fn classify_one(sprite: &Sprite) -> (r: SpriteRole)
    ensures
        r == own_role(sprite@),
{
    let run = has_run_signal(sprite);
    let walk = has_walk_signal(sprite, run);
    if walk && run {
        if template_a_promotes_to_run(sprite) {
            SpriteRole::Run
        } else {
            SpriteRole::Both
        }
    } else if walk {
        SpriteRole::Walk
    } else if run {
        SpriteRole::Run
    } else {
        SpriteRole::Neither
    }
}

/// The roles of the first `k` sprites; of several with one number the last
/// one counts.
pub open spec fn own_roles(sprites: Seq<SpriteModel>, k: nat) -> Map<u16, SpriteRole>
    decreases k,
{
    if k == 0 {
        Map::empty()
    } else {
        own_roles(sprites, (k - 1) as nat).insert(sprites[k - 1].sid, own_role(sprites[k - 1]))
    }
}

/// The first image of a sprite's action 0.
pub open spec fn walk_image(s: SpriteModel) -> Option<u32> {
    match first_plain(s.actions, 0) {
        Some(a) => Some(a.first_spr),
        None => None,
    }
}

/// The lowest first image among the first `k` sprites of an image file.
pub open spec fn lowest_image(sprites: Seq<SpriteModel>, gfx: u32, k: nat) -> Option<u32>
    decreases k,
{
    if k == 0 {
        None
    } else {
        let before = lowest_image(sprites, gfx, (k - 1) as nat);
        match walk_image(sprites[k - 1]) {
            Some(v) => if sprites[k - 1].gfx_id == Some(gfx) {
                match before {
                    Some(b) => if v < b {
                        Some(v)
                    } else {
                        Some(b)
                    },
                    None => Some(v),
                }
            } else {
                before
            },
            None => before,
        }
    }
}

/// The sprite's walking frames lie at least sixteen images behind the first
/// ones of its image file.
pub open spec fn lies_behind(sprites: Seq<SpriteModel>, i: int) -> bool {
    match (sprites[i].gfx_id, walk_image(sprites[i])) {
        (Some(gfx), Some(v)) => match lowest_image(sprites, gfx, sprites.len()) {
            Some(low) => v >= low + 16,
            None => false,
        },
        _ => false,
    }
}

/// The index of the first sprite with the given number.
pub open spec fn first_with(sprites: Seq<SpriteModel>, sid: u16, from: int) -> int
    decreases sprites.len() - from,
{
    if !(0 <= from < sprites.len()) || sprites[from].sid == sid {
        from
    } else {
        first_with(sprites, sid, from + 1)
    }
}

/// The sprite's actions 0 and 4 look like running when they lie behind those
/// of another sprite.
pub open spec fn runs_when_behind(s: SpriteModel) -> bool {
    match first_plain(s.actions, 0) {
        Some(a0) => match first_plain(s.actions, 4) {
            Some(a4) => interleaved(a0.content, a4.content) || is_explicit_run_name(a0.name)
                || is_explicit_run_name(a4.name),
            None => a0.frame_count == 8 && is_explicit_run_name(a0.name),
        },
        None => false,
    }
}

fn looks_running(sprite: &Sprite) -> (r: bool)
    ensures
        r == runs_when_behind(sprite@),
{
    match find_plain(&sprite.actions, 0) {
        Some(a0) => match find_plain(&sprite.actions, 4) {
            Some(a4) => is_tianm_interleaved_lr(
                chars_of(a0.content.as_str()).as_slice(),
                chars_of(a4.content.as_str()).as_slice(),
            ) || is_explicit_run_source_name(a0.name.as_str()) || is_explicit_run_source_name(
                a4.name.as_str(),
            ),
            None => a0.frame_count == 8 && is_explicit_run_source_name(a0.name.as_str()),
        },
        None => false,
    }
}

/// One of the first `k` sprites with this number is promoted to running.
pub open spec fn promoted(sprites: Seq<SpriteModel>, sid: u16, k: nat) -> bool {
    exists|i: int|
        #![trigger sprites[i]]
        0 <= i < k && sprites[i].sid == sid && lies_behind(sprites, i) && runs_when_behind(
            sprites[first_with(sprites, sid, 0)],
        )
}

/// The roles after promotion.
pub open spec fn roles_of(sprites: Seq<SpriteModel>) -> Map<u16, SpriteRole> {
    let own = own_roles(sprites, sprites.len());
    Map::new(
        |sid: u16| own.contains_key(sid),
        |sid: u16|
            if promoted(sprites, sid, sprites.len()) {
                SpriteRole::Run
            } else {
                own[sid]
            },
    )
}

/// Every sprite has a role.
pub proof fn lemma_own_roles_dom(sprites: Seq<SpriteModel>, k: nat, i: int)
    requires
        0 <= i < k <= sprites.len(),
    ensures
        own_roles(sprites, k).contains_key(sprites[i].sid),
    decreases k,
{
    if i < k - 1 {
        lemma_own_roles_dom(sprites, (k - 1) as nat, i);
    }
}

/// Promotes sprites whose frames lie behind those of another sprite of the
/// same image file.
fn apply_template_b(roles: &mut RoleMap, sf: &SpriteFile)
    requires
        forall|i: int|
            0 <= i < sf@.sprites.len() ==> old(roles)@.contains_key(#[trigger] sf@.sprites[i].sid),
    ensures
        final(roles)@.dom() == old(roles)@.dom(),
        forall|sid: u16| #[trigger]
            final(roles)@.contains_key(sid) ==> final(roles)@[sid] == (if promoted(
                sf@.sprites,
                sid,
                sf@.sprites.len(),
            ) {
                SpriteRole::Run
            } else {
                old(roles)@[sid]
            }),
{
    broadcast use vstd::std_specs::hash::group_hash_axioms;

    let ghost m = sf@.sprites;
    let ghost start = roles@;
    let n: usize = sf.sprites.len();
    let mut lowest: HashMap<u32, u32> = HashMap::new();
    let mut firsts: HashMap<u16, usize> = HashMap::new();
    let mut i: usize = 0;
    while i < n
        invariant
            i <= n,
            n == sf.sprites@.len(),
            m == sf@.sprites,
            forall|gfx: u32|
                lowest@.contains_key(gfx) <==> #[trigger] lowest_image(m, gfx, i as nat) is Some,
            forall|gfx: u32|
                lowest@.contains_key(gfx) ==> #[trigger] lowest_image(m, gfx, i as nat) == Some(
                    lowest@[gfx],
                ),
            forall|sid: u16| #[trigger]
                firsts@.contains_key(sid) ==> firsts@[sid] < i && first_with(m, sid, 0)
                    == firsts@[sid],
            forall|sid: u16|
                !firsts@.contains_key(sid) ==> #[trigger] first_with(m, sid, 0) == first_with(
                    m,
                    sid,
                    i as int,
                ),
            forall|j: int| 0 <= j < i ==> firsts@.contains_key(#[trigger] m[j].sid),
        decreases n - i,
    {
        let s = &sf.sprites[i];
        assert(m[i as int] == s@);
        match s.gfx_id {
            Some(gfx) => match find_plain(&s.actions, 0) {
                Some(a0) => {
                    assert(walk_image(m[i as int]) == Some(a0.first_spr));
                    let v: u32 = a0.first_spr;
                    let low: u32 = match lowest.get(&gfx) {
                        Some(b) => if v < *b {
                            v
                        } else {
                            *b
                        },
                        None => v,
                    };
                    lowest.insert(gfx, low);
                },
                None => {},
            },
            None => {},
        }
        proof {
            assert forall|gfx: u32|
                (lowest@.contains_key(gfx) <==> #[trigger] lowest_image(m, gfx, (i + 1) as nat) is Some)
                    && (lowest@.contains_key(gfx) ==> lowest_image(m, gfx, (i + 1) as nat) == Some(
                    lowest@[gfx],
                )) by {
                let before = lowest_image(m, gfx, i as nat);
                if m[i as int].gfx_id == Some(gfx) && walk_image(m[i as int]) is Some {
                    assert(lowest@.contains_key(gfx));
                } else {
                    assert(lowest_image(m, gfx, (i + 1) as nat) == before);
                }
            }
        }
        if !firsts.contains_key(&s.sid) {
            firsts.insert(s.sid, i);
        }
        i += 1;
    }
    let mut k: usize = 0;
    while k < n
        invariant
            k <= n,
            n == sf.sprites@.len(),
            m == sf@.sprites,
            n == m.len(),
            forall|gfx: u32|
                lowest@.contains_key(gfx) <==> #[trigger] lowest_image(m, gfx, n as nat) is Some,
            forall|gfx: u32|
                lowest@.contains_key(gfx) ==> #[trigger] lowest_image(m, gfx, n as nat) == Some(
                    lowest@[gfx],
                ),
            forall|sid: u16| #[trigger]
                firsts@.contains_key(sid) ==> firsts@[sid] < n && first_with(m, sid, 0)
                    == firsts@[sid],
            forall|j: int| 0 <= j < n ==> firsts@.contains_key(#[trigger] m[j].sid),
            forall|j: int| 0 <= j < n ==> start.contains_key(#[trigger] m[j].sid),
            roles@.dom() == start.dom(),
            forall|sid: u16| #[trigger]
                roles@.contains_key(sid) ==> roles@[sid] == (if promoted(m, sid, k as nat) {
                    SpriteRole::Run
                } else {
                    start[sid]
                }),
        decreases n - k,
    {
        let s = &sf.sprites[k];
        assert(m[k as int] == s@);
        let behind = match s.gfx_id {
            Some(gfx) => match find_plain(&s.actions, 0) {
                Some(a0) => match lowest.get(&gfx) {
                    Some(low) => a0.first_spr as u64 >= *low as u64 + 16,
                    None => false,
                },
                None => false,
            },
            None => false,
        };
        assert(behind == lies_behind(m, k as int));
        let ghost before = roles@;
        if behind {
            assert(firsts@.contains_key(m[k as int].sid));
            let f: usize = match firsts.get(&s.sid) {
                Some(f) => *f,
                None => k,
            };
            assert(m[f as int] == sf.sprites@[f as int]@);
            if looks_running(&sf.sprites[f]) {
                roles.insert(s.sid, SpriteRole::Run);
            }
        }
        assert forall|sid: u16| #[trigger] roles@.contains_key(sid) implies roles@[sid] == (
        if promoted(m, sid, (k + 1) as nat) {
            SpriteRole::Run
        } else {
            start[sid]
        }) by {
            if promoted(m, sid, (k + 1) as nat) && !promoted(m, sid, k as nat) {
                assert(m[k as int].sid == sid);
            }
            if promoted(m, sid, k as nat) {
                let w = choose|w: int|
                    #![trigger m[w]]
                    0 <= w < k && m[w].sid == sid && lies_behind(m, w) && runs_when_behind(
                        m[first_with(m, sid, 0)],
                    );
                assert(0 <= w < k + 1 && m[w].sid == sid);
                assert(promoted(m, sid, (k + 1) as nat));
            }
            if before.contains_key(sid) && m[k as int].sid == sid && behind && runs_when_behind(
                m[first_with(m, sid, 0)],
            ) {
                assert(promoted(m, sid, (k + 1) as nat));
            }
        }
        assert(roles@.dom() == start.dom());
        k += 1;
    }
}

/// The role of every sprite of a table.
pub fn classify(sf: &SpriteFile) -> (r: RoleMap)
    ensures
        r@ == roles_of(sf@.sprites),
{
    broadcast use vstd::std_specs::hash::group_hash_axioms;

    let ghost m = sf@.sprites;
    let mut roles: RoleMap = HashMap::new();
    let mut i: usize = 0;
    assert(roles@ == own_roles(m, 0));
    while i < sf.sprites.len()
        invariant
            i <= sf.sprites@.len(),
            m == sf@.sprites,
            roles@ == own_roles(m, i as nat),
        decreases sf.sprites@.len() - i,
    {
        let s = &sf.sprites[i];
        assert(m[i as int] == s@);
        let role = classify_one(s);
        roles.insert(s.sid, role);
        i += 1;
    }
    proof {
        assert forall|j: int| 0 <= j < m.len() implies roles@.contains_key(#[trigger] m[j].sid) by {
            lemma_own_roles_dom(m, m.len(), j);
        }
    }
    apply_template_b(&mut roles, sf);
    assert(roles@ == roles_of(m));
    roles
}

} // verus!

//! Which run animations a sprite gets, and which of several it takes.

use super::classify::first_with;
use super::extract::builtin_pair;
use super::pair::{
    completed, group_key, grouped, has_sprite, lookup, merged, named_walk, own_pairs, paired,
    referred, run_keys, run_sids, walks_in, with_builtin,
};
use super::types::{RunPairModel, SpriteModel, SpriteRole};
use crate::order::{lemma_insert_key, strictly_ascending};
use vstd::prelude::*;

verus! {

/// No two sprites of a table have one number.
pub open spec fn distinct_numbers(sprites: Seq<SpriteModel>) -> bool {
    forall|i: int, j: int|
        0 <= i < j < sprites.len() ==> (#[trigger] sprites[i]).sid != (#[trigger] sprites[j]).sid
}

/// A sprite runs only, and its run animation is known.
pub open spec fn runs_with(
    roles: Map<u16, SpriteRole>,
    runs: Map<u16, RunPairModel>,
    s: SpriteModel,
) -> bool {
    roles.contains_key(s.sid) && roles[s.sid] == SpriteRole::Run && runs.contains_key(s.sid)
}

/// A sprite walks, whether it runs too or not.
pub open spec fn walks(roles: Map<u16, SpriteRole>, s: SpriteModel) -> bool {
    roles.contains_key(s.sid) && (roles[s.sid] == SpriteRole::Walk || roles[s.sid]
        == SpriteRole::Both)
}

/// A sprite has a run animation of its own and may use it.
pub open spec fn runs_by_itself(
    roles: Map<u16, SpriteRole>,
    runs: Map<u16, RunPairModel>,
    s: SpriteModel,
) -> bool {
    roles.contains_key(s.sid) && (roles[s.sid] == SpriteRole::Run || roles[s.sid]
        == SpriteRole::Both) && runs.contains_key(s.sid)
}

/// Two sprites have one image file.
pub open spec fn shares_images(r: SpriteModel, w: SpriteModel) -> bool {
    r.gfx_id is Some && r.gfx_id == w.gfx_id
}

/// A sprite has the number of another one behind its `=`.
pub open spec fn names(r: SpriteModel, w: SpriteModel) -> bool {
    r.gfx_id == Some(w.sid as u32) && r.sid != w.sid
}

/// The left foot, the right foot and the frame rate of a run animation.
pub open spec fn part(p: RunPairModel, f: int) -> Option<Seq<char>> {
    if f == 0 {
        p.runl
    } else if f == 1 {
        p.runr
    } else {
        p.framerate
    }
}

/// What one sprite has after the animations of a pool have reached it in turn.
spec fn pooled(h: Option<RunPairModel>, pool: Seq<Option<RunPairModel>>, grow: bool) -> Option<
    RunPairModel,
>
    decreases pool.len(),
{
    if pool.len() == 0 {
        h
    } else {
        let before = pooled(h, pool.drop_last(), grow);
        match pool.last() {
            Some(p) => Some(
                if grow {
                    merged(before, p)
                } else {
                    completed(before, p)
                },
            ),
            None => before,
        }
    }
}

spec fn part_in(o: Option<RunPairModel>, f: int) -> Option<Seq<char>> {
    match o {
        Some(p) => part(p, f),
        None => None,
    }
}

proof fn lemma_pooled_some(h: Option<RunPairModel>, pool: Seq<Option<RunPairModel>>, grow: bool)
    ensures
        h is Some ==> pooled(h, pool, grow) is Some,
        forall|q: int| 0 <= q < pool.len() && (#[trigger] pool[q]) is Some ==> pooled(h, pool, grow) is Some,
        h is None && (forall|q: int| 0 <= q < pool.len() ==> (#[trigger] pool[q]) is None) ==> pooled(
            h,
            pool,
            grow,
        ) is None,
    decreases pool.len(),
{
    if pool.len() > 0 {
        let rest = pool.drop_last();
        lemma_pooled_some(h, rest, grow);
        assert forall|q: int| 0 <= q < pool.len() && (#[trigger] pool[q]) is Some implies pooled(
            h,
            pool,
            grow,
        ) is Some by {
            if q < rest.len() {
                assert(rest[q] is Some);
            }
        }
        if forall|q: int| 0 <= q < pool.len() ==> (#[trigger] pool[q]) is None {
            assert forall|q: int| 0 <= q < rest.len() implies (#[trigger] rest[q]) is None by {
                assert(pool[q] is None);
            }
            assert(pool[pool.len() - 1] is None);
        }
    }
}

/// A part that is there stays; else the first of the pool that has one gives it.
proof fn lemma_pooled_part(
    h: Option<RunPairModel>,
    pool: Seq<Option<RunPairModel>>,
    grow: bool,
    f: int,
)
    ensures
        part_in(h, f) is Some ==> part_in(pooled(h, pool, grow), f) == part_in(h, f),
        forall|q: int|
            0 <= q < pool.len() && part_in(h, f) is None && part_in(#[trigger] pool[q], f) is Some
                && (forall|o: int| 0 <= o < q ==> part_in(#[trigger] pool[o], f) is None)
                ==> part_in(pooled(h, pool, grow), f) == part_in(pool[q], f),
        part_in(h, f) is None && (forall|q: int|
            0 <= q < pool.len() ==> part_in(#[trigger] pool[q], f) is None) ==> part_in(
            pooled(h, pool, grow),
            f,
        ) is None,
        part_in(pooled(h, pool, grow), f) is Some ==> part_in(h, f) == part_in(
            pooled(h, pool, grow),
            f,
        ) || exists|q: int|
            0 <= q < pool.len() && part_in(#[trigger] pool[q], f) == part_in(
                pooled(h, pool, grow),
                f,
            ),
    decreases pool.len(),
{
    if pool.len() > 0 {
        let rest = pool.drop_last();
        let n = rest.len() as int;
        lemma_pooled_part(h, rest, grow, f);
        assert(pool[n] == pool.last());
        assert forall|q: int|
            0 <= q < pool.len() && part_in(h, f) is None && part_in(#[trigger] pool[q], f) is Some
                && (forall|o: int| 0 <= o < q ==> part_in(#[trigger] pool[o], f) is None) implies part_in(
            pooled(h, pool, grow),
            f,
        ) == part_in(pool[q], f) by {
            if q < n {
                assert(rest[q] == pool[q]);
                assert forall|o: int| 0 <= o < q implies part_in(#[trigger] rest[o], f) is None by {
                    assert(part_in(pool[o], f) is None);
                }
                assert(part_in(pooled(h, rest, grow), f) == part_in(rest[q], f));
            } else {
                assert forall|o: int| 0 <= o < n implies part_in(#[trigger] rest[o], f) is None by {
                    assert(part_in(pool[o], f) is None);
                }
                assert(part_in(pooled(h, rest, grow), f) is None);
            }
        }
        if part_in(h, f) is None && (forall|q: int|
            0 <= q < pool.len() ==> part_in(#[trigger] pool[q], f) is None) {
            assert forall|o: int| 0 <= o < n implies part_in(#[trigger] rest[o], f) is None by {
                assert(part_in(pool[o], f) is None);
            }
            assert(part_in(pool[n], f) is None);
        }
        if part_in(pooled(h, rest, grow), f) is Some {
            if part_in(h, f) != part_in(pooled(h, rest, grow), f) {
                let q = choose|q: int|
                    0 <= q < rest.len() && part_in(#[trigger] rest[q], f) == part_in(
                        pooled(h, rest, grow),
                        f,
                    );
                assert(part_in(pool[q], f) == part_in(pooled(h, pool, grow), f));
            }
        } else if part_in(pooled(h, pool, grow), f) is Some {
            assert(part_in(pool[n], f) == part_in(pooled(h, pool, grow), f));
        }
    }
}

/// The largest image count of those that reached a sprite.
proof fn lemma_pooled_count(h: Option<RunPairModel>, pool: Seq<Option<RunPairModel>>)
    ensures
        pooled(h, pool, true) matches Some(r) ==> {
            &&& h matches Some(p) ==> r.source_img_count >= p.source_img_count
            &&& forall|q: int|
                0 <= q < pool.len() && (#[trigger] pool[q]) is Some ==> r.source_img_count
                    >= pool[q]->0.source_img_count
            &&& (h matches Some(p) && r.source_img_count == p.source_img_count) || exists|q: int|
                0 <= q < pool.len() && (#[trigger] pool[q]) is Some && r.source_img_count
                    == pool[q]->0.source_img_count
        },
    decreases pool.len(),
{
    if pool.len() > 0 {
        let rest = pool.drop_last();
        let n = rest.len() as int;
        lemma_pooled_count(h, rest);
        lemma_pooled_some(h, rest, true);
        assert(pool[n] == pool.last());
        if let Some(r) = pooled(h, pool, true) {
            assert forall|q: int| 0 <= q < pool.len() && (#[trigger] pool[q]) is Some implies r.source_img_count
                >= pool[q]->0.source_img_count by {
                if q < n {
                    assert(rest[q] == pool[q]);
                }
            }
            if !(h matches Some(p) && r.source_img_count == p.source_img_count) {
                if pool[n] is Some && r.source_img_count == pool[n]->0.source_img_count {
                } else {
                    let q = choose|q: int|
                        0 <= q < rest.len() && (#[trigger] rest[q]) is Some
                            && pooled(h, rest, true)->0.source_img_count
                            == rest[q]->0.source_img_count;
                    assert(pool[q] is Some && r.source_img_count == pool[q]->0.source_img_count);
                }
            }
        }
    }
}

/// An image count that is there stays when a sprite is named.
proof fn lemma_named_count(h: Option<RunPairModel>, pool: Seq<Option<RunPairModel>>)
    ensures
        h matches Some(p) ==> pooled(h, pool, false) is Some && pooled(h, pool, false)->0.source_img_count
            == p.source_img_count,
    decreases pool.len(),
{
    if pool.len() > 0 {
        lemma_named_count(h, pool.drop_last());
    }
}

/// One animation alone is taken as it is.
proof fn lemma_pooled_alone(pool: Seq<Option<RunPairModel>>, p: RunPairModel, grow: bool)
    requires
        forall|q: int| 0 <= q < pool.len() ==> (#[trigger] pool[q]) is None || pool[q] == Some(p),
    ensures
        pooled(None, pool, grow) is None || pooled(None, pool, grow) == Some(p),
        pooled(Some(p), pool, grow) == Some(p),
    decreases pool.len(),
{
    if pool.len() > 0 {
        let rest = pool.drop_last();
        assert forall|q: int| 0 <= q < rest.len() implies (#[trigger] rest[q]) is None || rest[q]
            == Some(p) by {
            assert(pool[q] is None || pool[q] == Some(p));
        }
        lemma_pooled_alone(rest, p, grow);
        assert(pool[pool.len() - 1] is None || pool[pool.len() - 1] == Some(p));
    }
}

spec fn group_pool(
    sprites: Seq<SpriteModel>,
    roles: Map<u16, SpriteRole>,
    runs: Map<u16, RunPairModel>,
    keys: Seq<u64>,
    sid: u16,
    j: nat,
) -> Seq<Option<RunPairModel>> {
    Seq::new(
        j,
        |q: int|
            if runs.contains_key((keys[q] % 0x1_0000) as u16) && walks_in(
                sprites,
                roles,
                (keys[q] / 0x1_0000) as u32,
                sid,
                sprites.len(),
            ) {
                Some(runs[(keys[q] % 0x1_0000) as u16])
            } else {
                None
            },
    )
}

proof fn lemma_grouped(
    sprites: Seq<SpriteModel>,
    roles: Map<u16, SpriteRole>,
    runs: Map<u16, RunPairModel>,
    m: Map<u16, RunPairModel>,
    keys: Seq<u64>,
    sid: u16,
    j: nat,
)
    ensures
        lookup(grouped(sprites, roles, runs, m, keys, j), sid) == pooled(
            lookup(m, sid),
            group_pool(sprites, roles, runs, keys, sid, j),
            true,
        ),
    decreases j,
{
    if j > 0 {
        lemma_grouped(sprites, roles, runs, m, keys, sid, (j - 1) as nat);
        let pool = group_pool(sprites, roles, runs, keys, sid, j);
        assert(pool.drop_last() == group_pool(sprites, roles, runs, keys, sid, (j - 1) as nat));
        assert(pool.last() == pool[j - 1]);
    }
}

spec fn name_pool(
    sprites: Seq<SpriteModel>,
    roles: Map<u16, SpriteRole>,
    runs: Map<u16, RunPairModel>,
    sids: Seq<u64>,
    sid: u16,
    j: nat,
) -> Seq<Option<RunPairModel>> {
    Seq::new(
        j,
        |q: int|
            if runs.contains_key(sids[q] as u16) && named_walk(sprites, roles, sids[q] as u16)
                == Some(sid) {
                Some(runs[sids[q] as u16])
            } else {
                None
            },
    )
}

proof fn lemma_referred(
    sprites: Seq<SpriteModel>,
    roles: Map<u16, SpriteRole>,
    runs: Map<u16, RunPairModel>,
    m: Map<u16, RunPairModel>,
    sids: Seq<u64>,
    sid: u16,
    j: nat,
)
    ensures
        lookup(referred(sprites, roles, runs, m, sids, j), sid) == pooled(
            lookup(m, sid),
            name_pool(sprites, roles, runs, sids, sid, j),
            false,
        ),
    decreases j,
{
    if j > 0 {
        lemma_referred(sprites, roles, runs, m, sids, sid, (j - 1) as nat);
        let pool = name_pool(sprites, roles, runs, sids, sid, j);
        assert(pool.drop_last() == name_pool(sprites, roles, runs, sids, sid, (j - 1) as nat));
        assert(pool.last() == pool[j - 1]);
    }
}

proof fn lemma_with_builtin(sprites: Seq<SpriteModel>, m: Map<u16, RunPairModel>, sid: u16, k: nat)
    requires
        k <= sprites.len(),
        distinct_numbers(sprites),
    ensures
        m.contains_key(sid) ==> lookup(with_builtin(sprites, m, k), sid) == Some(m[sid]),
        !m.contains_key(sid) ==> {
            &&& forall|i: int|
                0 <= i < k && (#[trigger] sprites[i]).sid == sid ==> lookup(
                    with_builtin(sprites, m, k),
                    sid,
                ) == builtin_pair(sprites[i])
            &&& (forall|i: int| 0 <= i < k ==> (#[trigger] sprites[i]).sid != sid) ==> lookup(
                with_builtin(sprites, m, k),
                sid,
            ) is None
        },
    decreases k,
{
    if k > 0 {
        lemma_with_builtin(sprites, m, sid, (k - 1) as nat);
        if !m.contains_key(sid) {
            assert forall|i: int| 0 <= i < k && (#[trigger] sprites[i]).sid == sid implies lookup(
                with_builtin(sprites, m, k),
                sid,
            ) == builtin_pair(sprites[i]) by {
                if i == k - 1 {
                    assert forall|o: int| 0 <= o < k - 1 implies (#[trigger] sprites[o]).sid != sid by {
                        assert(sprites[o].sid != sprites[i].sid);
                    }
                } else {
                    assert(sprites[i].sid != sprites[k - 1].sid);
                }
            }
        }
    }
}

spec fn key_at(sprites: Seq<SpriteModel>, roles: Map<u16, SpriteRole>, i: int, x: u64) -> bool {
    &&& roles.contains_key(sprites[i].sid) && roles[sprites[i].sid] == SpriteRole::Run
    &&& sprites[i].gfx_id matches Some(g) && x == g * 0x1_0000 + sprites[i].sid
}

proof fn lemma_run_keys(sprites: Seq<SpriteModel>, roles: Map<u16, SpriteRole>, k: nat)
    requires
        k <= sprites.len(),
    ensures
        strictly_ascending(run_keys(sprites, roles, k)),
        forall|x: u64| #[trigger]
            run_keys(sprites, roles, k).contains(x) <==> exists|i: int|
                0 <= i < k && key_at(sprites, roles, i, x),
    decreases k,
{
    if k > 0 {
        lemma_run_keys(sprites, roles, (k - 1) as nat);
        let before = run_keys(sprites, roles, (k - 1) as nat);
        let s = sprites[k - 1];
        let all = run_keys(sprites, roles, k);
        if let Some(g) = s.gfx_id {
            lemma_insert_key(before, group_key(g, s.sid));
            assert(group_key(g, s.sid) == g * 0x1_0000 + s.sid);
        }
        assert forall|x: u64| #[trigger] all.contains(x) <==> exists|i: int|
            0 <= i < k && key_at(sprites, roles, i, x) by {
            assert(before.contains(x) <==> exists|i: int|
                0 <= i < k - 1 && key_at(sprites, roles, i, x));
            if before.contains(x) {
                let i = choose|i: int| 0 <= i < k - 1 && key_at(sprites, roles, i, x);
                assert(0 <= i < k && key_at(sprites, roles, i, x));
            }
            if key_at(sprites, roles, k - 1, x) {
                assert(all.contains(x));
            }
        }
    }
}

spec fn sid_at(sprites: Seq<SpriteModel>, roles: Map<u16, SpriteRole>, i: int, x: u64) -> bool {
    &&& roles.contains_key(sprites[i].sid) && roles[sprites[i].sid] == SpriteRole::Run
    &&& x == sprites[i].sid
}

proof fn lemma_run_sids(sprites: Seq<SpriteModel>, roles: Map<u16, SpriteRole>, k: nat)
    requires
        k <= sprites.len(),
    ensures
        strictly_ascending(run_sids(sprites, roles, k)),
        forall|x: u64| #[trigger]
            run_sids(sprites, roles, k).contains(x) <==> exists|i: int|
                0 <= i < k && sid_at(sprites, roles, i, x),
    decreases k,
{
    if k > 0 {
        lemma_run_sids(sprites, roles, (k - 1) as nat);
        let before = run_sids(sprites, roles, (k - 1) as nat);
        let s = sprites[k - 1];
        let all = run_sids(sprites, roles, k);
        lemma_insert_key(before, s.sid as u64);
        assert forall|x: u64| #[trigger] all.contains(x) <==> exists|i: int|
            0 <= i < k && sid_at(sprites, roles, i, x) by {
            assert(before.contains(x) <==> exists|i: int|
                0 <= i < k - 1 && sid_at(sprites, roles, i, x));
            if before.contains(x) {
                let i = choose|i: int| 0 <= i < k - 1 && sid_at(sprites, roles, i, x);
                assert(0 <= i < k && sid_at(sprites, roles, i, x));
            }
            if sid_at(sprites, roles, k - 1, x) {
                assert(all.contains(x));
            }
        }
    }
}

proof fn lemma_first_with(sprites: Seq<SpriteModel>, i: int, from: int)
    requires
        distinct_numbers(sprites),
        0 <= from <= i < sprites.len(),
    ensures
        first_with(sprites, sprites[i].sid, from) == i,
    decreases i - from,
{
    if from < i {
        assert(sprites[from].sid != sprites[i].sid);
        lemma_first_with(sprites, i, from + 1);
    }
}

proof fn lemma_key(g: u32, sid: u16, x: u64)
    requires
        x == g * 0x1_0000 + sid,
    ensures
        x / 0x1_0000 == g,
        x % 0x1_0000 == sid,
{
}

/// What stands in the pool of a sprite's image file: exactly the running sprites
/// with that file, in ascending order of their numbers.
proof fn lemma_group_pool(
    sprites: Seq<SpriteModel>,
    roles: Map<u16, SpriteRole>,
    runs: Map<u16, RunPairModel>,
    w: int,
)
    requires
        distinct_numbers(sprites),
        0 <= w < sprites.len(),
    ensures
        ({
            let keys = run_keys(sprites, roles, sprites.len());
            let pool = group_pool(sprites, roles, runs, keys, sprites[w].sid, keys.len());
            &&& forall|q: int|
                0 <= q < pool.len() && (#[trigger] pool[q]) is Some ==> exists|r: int|
                    group_hit(sprites, roles, runs, w, r) && keys[q] % 0x1_0000 == sprites[r].sid
                        && pool[q] == Some(runs[sprites[r].sid])
            &&& forall|r: int| #[trigger]
                group_hit(sprites, roles, runs, w, r) ==> exists|q: int|
                    0 <= q < pool.len() && keys[q] % 0x1_0000 == sprites[r].sid && #[trigger] pool[q]
                        == Some(runs[sprites[r].sid])
            &&& forall|q: int, o: int|
                0 <= o < q < pool.len() && (#[trigger] pool[q]) is Some && (#[trigger] pool[o]) is Some
                    ==> keys[o] % 0x1_0000 < keys[q] % 0x1_0000
        }),
{
    let n = sprites.len();
    let keys = run_keys(sprites, roles, n);
    let sid = sprites[w].sid;
    let pool = group_pool(sprites, roles, runs, keys, sid, keys.len());
    lemma_run_keys(sprites, roles, n);
    assert forall|q: int| 0 <= q < pool.len() && (#[trigger] pool[q]) is Some implies exists|r: int|
        group_hit(sprites, roles, runs, w, r) && keys[q] % 0x1_0000 == sprites[r].sid && pool[q]
            == Some(runs[sprites[r].sid]) by {
        assert(keys.contains(keys[q]));
        let r = choose|i: int| 0 <= i < n && key_at(sprites, roles, i, keys[q]);
        lemma_key(sprites[r].gfx_id->0, sprites[r].sid, keys[q]);
        lemma_walks_in(sprites, roles, (keys[q] / 0x1_0000) as u32, w);
        assert(group_hit(sprites, roles, runs, w, r));
    }
    assert forall|r: int| #[trigger] group_hit(sprites, roles, runs, w, r) implies exists|q: int|
        0 <= q < pool.len() && keys[q] % 0x1_0000 == sprites[r].sid && #[trigger] pool[q] == Some(
            runs[sprites[r].sid],
        ) by {
        let g = sprites[r].gfx_id->0;
        let x = (g * 0x1_0000 + sprites[r].sid) as u64;
        assert(key_at(sprites, roles, r, x));
        assert(keys.contains(x));
        let q = choose|q: int| 0 <= q < keys.len() && keys[q] == x;
        lemma_key(g, sprites[r].sid, x);
        lemma_walks_in(sprites, roles, g, w);
        assert(pool[q] == Some(runs[sprites[r].sid]));
    }
    assert forall|q: int, o: int|
        0 <= o < q < pool.len() && (#[trigger] pool[q]) is Some && (#[trigger] pool[o]) is Some implies keys[o]
        % 0x1_0000 < keys[q] % 0x1_0000 by {
        assert(keys[o] < keys[q]);
        lemma_walks_in(sprites, roles, (keys[q] / 0x1_0000) as u32, w);
        lemma_walks_in(sprites, roles, (keys[o] / 0x1_0000) as u32, w);
        assert(keys.contains(keys[q]) && keys.contains(keys[o]));
        let r = choose|i: int| 0 <= i < n && key_at(sprites, roles, i, keys[q]);
        let s = choose|i: int| 0 <= i < n && key_at(sprites, roles, i, keys[o]);
        lemma_key(sprites[r].gfx_id->0, sprites[r].sid, keys[q]);
        lemma_key(sprites[s].gfx_id->0, sprites[s].sid, keys[o]);
    }
}

/// The running sprite at `r` shares the image file of the walking one at `w`.
pub open spec fn group_hit(
    sprites: Seq<SpriteModel>,
    roles: Map<u16, SpriteRole>,
    runs: Map<u16, RunPairModel>,
    w: int,
    r: int,
) -> bool {
    &&& 0 <= r < sprites.len()
    &&& runs_with(roles, runs, sprites[r])
    &&& walks(roles, sprites[w])
    &&& shares_images(sprites[r], sprites[w])
}

/// The running sprite at `r` names the walking one at `w`.
pub open spec fn name_hit(
    sprites: Seq<SpriteModel>,
    roles: Map<u16, SpriteRole>,
    runs: Map<u16, RunPairModel>,
    w: int,
    r: int,
) -> bool {
    &&& 0 <= r < sprites.len()
    &&& runs_with(roles, runs, sprites[r])
    &&& walks(roles, sprites[w])
    &&& names(sprites[r], sprites[w])
}

proof fn lemma_walks_in(
    sprites: Seq<SpriteModel>,
    roles: Map<u16, SpriteRole>,
    gfx: u32,
    w: int,
)
    requires
        distinct_numbers(sprites),
        0 <= w < sprites.len(),
    ensures
        walks_in(sprites, roles, gfx, sprites[w].sid, sprites.len()) <==> walks(roles, sprites[w])
            && sprites[w].gfx_id == Some(gfx),
{
    let sid = sprites[w].sid;
    if walks_in(sprites, roles, gfx, sid, sprites.len()) {
        let i = choose|i: int|
            0 <= i < sprites.len() && (#[trigger] sprites[i]).sid == sid && sprites[i].gfx_id
                == Some(gfx);
        if i < w {
            assert(sprites[i].sid != sprites[w].sid);
        } else if w < i {
            assert(sprites[w].sid != sprites[i].sid);
        }
    }
}

/// What stands in the pool of those that name a sprite: exactly the running
/// sprites that do, in ascending order of their numbers.
proof fn lemma_name_pool(
    sprites: Seq<SpriteModel>,
    roles: Map<u16, SpriteRole>,
    runs: Map<u16, RunPairModel>,
    w: int,
)
    requires
        distinct_numbers(sprites),
        0 <= w < sprites.len(),
    ensures
        ({
            let sids = run_sids(sprites, roles, sprites.len());
            let pool = name_pool(sprites, roles, runs, sids, sprites[w].sid, sids.len());
            &&& forall|q: int|
                0 <= q < pool.len() && (#[trigger] pool[q]) is Some ==> exists|r: int|
                    name_hit(sprites, roles, runs, w, r) && sids[q] == sprites[r].sid && pool[q]
                        == Some(runs[sprites[r].sid])
            &&& forall|r: int| #[trigger]
                name_hit(sprites, roles, runs, w, r) ==> exists|q: int|
                    0 <= q < pool.len() && sids[q] == sprites[r].sid && #[trigger] pool[q] == Some(
                        runs[sprites[r].sid],
                    )
            &&& strictly_ascending(sids)
        }),
{
    let n = sprites.len();
    let sids = run_sids(sprites, roles, n);
    let sid = sprites[w].sid;
    let pool = name_pool(sprites, roles, runs, sids, sid, sids.len());
    lemma_run_sids(sprites, roles, n);
    assert(has_sprite(sprites, sid, n)) by {
        assert(sprites[w].sid == sid);
    }
    assert forall|q: int| 0 <= q < pool.len() && (#[trigger] pool[q]) is Some implies exists|r: int|
        name_hit(sprites, roles, runs, w, r) && sids[q] == sprites[r].sid && pool[q] == Some(
            runs[sprites[r].sid],
        ) by {
        assert(sids.contains(sids[q]));
        let r = choose|i: int| 0 <= i < n && sid_at(sprites, roles, i, sids[q]);
        lemma_first_with(sprites, r, 0);
        assert(name_hit(sprites, roles, runs, w, r));
    }
    assert forall|r: int| #[trigger] name_hit(sprites, roles, runs, w, r) implies exists|q: int|
        0 <= q < pool.len() && sids[q] == sprites[r].sid && #[trigger] pool[q] == Some(
            runs[sprites[r].sid],
        ) by {
        let x = sprites[r].sid as u64;
        assert(sid_at(sprites, roles, r, x));
        assert(sids.contains(x));
        let q = choose|q: int| 0 <= q < sids.len() && sids[q] == x;
        lemma_first_with(sprites, r, 0);
        assert(named_walk(sprites, roles, sprites[r].sid) == Some(sid));
        assert(pool[q] == Some(runs[sprites[r].sid]));
    }
}

spec fn own_of(
    roles: Map<u16, SpriteRole>,
    runs: Map<u16, RunPairModel>,
    s: SpriteModel,
) -> Option<RunPairModel> {
    if runs_by_itself(roles, runs, s) {
        Some(runs[s.sid])
    } else {
        None
    }
}

/// What a sprite has from its own and from its image file.
spec fn in_the_file(
    sprites: Seq<SpriteModel>,
    roles: Map<u16, SpriteRole>,
    runs: Map<u16, RunPairModel>,
    w: int,
) -> Option<RunPairModel> {
    let keys = run_keys(sprites, roles, sprites.len());
    pooled(
        own_of(roles, runs, sprites[w]),
        group_pool(sprites, roles, runs, keys, sprites[w].sid, keys.len()),
        true,
    )
}

/// What a sprite has from its own, from its image file and from those that name
/// it, in that order.
spec fn reached(
    sprites: Seq<SpriteModel>,
    roles: Map<u16, SpriteRole>,
    runs: Map<u16, RunPairModel>,
    w: int,
) -> Option<RunPairModel> {
    let sids = run_sids(sprites, roles, sprites.len());
    pooled(
        in_the_file(sprites, roles, runs, w),
        name_pool(sprites, roles, runs, sids, sprites[w].sid, sids.len()),
        false,
    )
}

proof fn lemma_paired(
    sprites: Seq<SpriteModel>,
    roles: Map<u16, SpriteRole>,
    runs: Map<u16, RunPairModel>,
    w: int,
)
    requires
        distinct_numbers(sprites),
        0 <= w < sprites.len(),
    ensures
        lookup(paired(sprites, roles, runs), sprites[w].sid) == (match reached(
            sprites,
            roles,
            runs,
            w,
        ) {
            Some(p) => Some(p),
            None => builtin_pair(sprites[w]),
        }),
{
    let n = sprites.len();
    let keys = run_keys(sprites, roles, n);
    let sids = run_sids(sprites, roles, n);
    let own = own_pairs(sprites, roles, runs, n);
    let sid = sprites[w].sid;
    assert(has_sprite(sprites, sid, n)) by {
        assert(sprites[w].sid == sid);
    }
    assert(lookup(own, sid) == own_of(roles, runs, sprites[w]));
    let in_groups = grouped(sprites, roles, runs, own, keys, keys.len());
    lemma_grouped(sprites, roles, runs, own, keys, sid, keys.len());
    let by_name = referred(sprites, roles, runs, in_groups, sids, sids.len());
    lemma_referred(sprites, roles, runs, in_groups, sids, sid, sids.len());
    lemma_with_builtin(sprites, by_name, sid, n);
}

/// A walking sprite gets a run animation from every running sprite with its image
/// file, and from every running sprite that has its number behind the `=`: it has
/// one, with each foot and the frame rate that such a sprite has.
pub proof fn law_reached_sprites_run(
    sprites: Seq<SpriteModel>,
    roles: Map<u16, SpriteRole>,
    runs: Map<u16, RunPairModel>,
    r: int,
    w: int,
)
    requires
        distinct_numbers(sprites),
        0 <= r < sprites.len(),
        0 <= w < sprites.len(),
        runs_with(roles, runs, sprites[r]),
        walks(roles, sprites[w]),
        shares_images(sprites[r], sprites[w]) || names(sprites[r], sprites[w]),
    ensures
        paired(sprites, roles, runs).contains_key(sprites[w].sid),
        forall|f: int|
            part(runs[sprites[r].sid], f) is Some ==> (#[trigger] part(
                paired(sprites, roles, runs)[sprites[w].sid],
                f,
            )) is Some,
{
    lemma_paired(sprites, roles, runs, w);
    lemma_group_pool(sprites, roles, runs, w);
    lemma_name_pool(sprites, roles, runs, w);
    let keys = run_keys(sprites, roles, sprites.len());
    let sids = run_sids(sprites, roles, sprites.len());
    let sid = sprites[w].sid;
    let gp = group_pool(sprites, roles, runs, keys, sid, keys.len());
    let np = name_pool(sprites, roles, runs, sids, sid, sids.len());
    let own = own_of(roles, runs, sprites[w]);
    let mid = pooled(own, gp, true);
    let p = runs[sprites[r].sid];
    lemma_pooled_some(own, gp, true);
    lemma_pooled_some(mid, np, false);
    if shares_images(sprites[r], sprites[w]) {
        assert(group_hit(sprites, roles, runs, w, r));
        let q = choose|q: int| 0 <= q < gp.len() && #[trigger] gp[q] == Some(p);
        assert(gp[q] is Some);
    } else {
        assert(name_hit(sprites, roles, runs, w, r));
        let q = choose|q: int| 0 <= q < np.len() && #[trigger] np[q] == Some(p);
        assert(np[q] is Some);
    }
    assert forall|f: int| part(p, f) is Some implies (#[trigger] part(
        paired(sprites, roles, runs)[sid],
        f,
    )) is Some by {
        lemma_pooled_part(own, gp, true, f);
        lemma_pooled_part(mid, np, false, f);
        if shares_images(sprites[r], sprites[w]) {
            let q = choose|q: int| 0 <= q < gp.len() && #[trigger] gp[q] == Some(p);
            lemma_some_part(own, gp, true, f, q);
        } else {
            let q = choose|q: int| 0 <= q < np.len() && #[trigger] np[q] == Some(p);
            lemma_some_part(mid, np, false, f, q);
        }
    }
}

proof fn lemma_some_part(
    h: Option<RunPairModel>,
    pool: Seq<Option<RunPairModel>>,
    grow: bool,
    f: int,
    q: int,
)
    requires
        0 <= q < pool.len(),
        part_in(pool[q], f) is Some,
    ensures
        part_in(pooled(h, pool, grow), f) is Some,
    decreases pool.len(),
{
    if q < pool.len() - 1 {
        lemma_some_part(h, pool.drop_last(), grow, f, q);
    }
}

/// A sprite that runs by itself keeps its own animation: one that only runs keeps
/// all of it, and one that walks too keeps what it has of it.
pub proof fn law_own_frames_stay(
    sprites: Seq<SpriteModel>,
    roles: Map<u16, SpriteRole>,
    runs: Map<u16, RunPairModel>,
    w: int,
)
    requires
        distinct_numbers(sprites),
        0 <= w < sprites.len(),
        runs_by_itself(roles, runs, sprites[w]),
    ensures
        paired(sprites, roles, runs).contains_key(sprites[w].sid),
        forall|f: int|
            part(runs[sprites[w].sid], f) is Some ==> (#[trigger] part(
                paired(sprites, roles, runs)[sprites[w].sid],
                f,
            )) == part(runs[sprites[w].sid], f),
        paired(sprites, roles, runs)[sprites[w].sid].source_img_count
            >= runs[sprites[w].sid].source_img_count,
        roles[sprites[w].sid] == SpriteRole::Run ==> paired(sprites, roles, runs)[sprites[w].sid]
            == runs[sprites[w].sid],
{
    lemma_paired(sprites, roles, runs, w);
    lemma_group_pool(sprites, roles, runs, w);
    lemma_name_pool(sprites, roles, runs, w);
    let keys = run_keys(sprites, roles, sprites.len());
    let sids = run_sids(sprites, roles, sprites.len());
    let sid = sprites[w].sid;
    let gp = group_pool(sprites, roles, runs, keys, sid, keys.len());
    let np = name_pool(sprites, roles, runs, sids, sid, sids.len());
    let own = own_of(roles, runs, sprites[w]);
    let mid = pooled(own, gp, true);
    lemma_pooled_some(own, gp, true);
    lemma_pooled_some(mid, np, false);
    lemma_pooled_count(own, gp);
    lemma_named_count(mid, np);
    assert forall|f: int| part(runs[sid], f) is Some implies (#[trigger] part(
        paired(sprites, roles, runs)[sid],
        f,
    )) == part(runs[sid], f) by {
        lemma_pooled_part(own, gp, true, f);
        lemma_pooled_part(mid, np, false, f);
    }
    if roles[sid] == SpriteRole::Run {
        lemma_pooled_alone(gp, runs[sid], true);
        lemma_pooled_alone(np, runs[sid], false);
    }
}

/// Of several running sprites with a walking sprite's image file, the one with the
/// lowest number that has a part gives it, unless the sprite has that part itself.
pub proof fn law_lowest_of_the_file_wins(
    sprites: Seq<SpriteModel>,
    roles: Map<u16, SpriteRole>,
    runs: Map<u16, RunPairModel>,
    r: int,
    w: int,
    f: int,
)
    requires
        distinct_numbers(sprites),
        0 <= r < sprites.len(),
        0 <= w < sprites.len(),
        runs_with(roles, runs, sprites[r]),
        walks(roles, sprites[w]),
        shares_images(sprites[r], sprites[w]),
        runs_by_itself(roles, runs, sprites[w]) ==> part(runs[sprites[w].sid], f) is None,
        part(runs[sprites[r].sid], f) is Some,
        forall|o: int|
            0 <= o < sprites.len() && (#[trigger] sprites[o]).sid < sprites[r].sid && runs_with(
                roles,
                runs,
                sprites[o],
            ) && shares_images(sprites[o], sprites[w]) ==> part(runs[sprites[o].sid], f) is None,
    ensures
        paired(sprites, roles, runs).contains_key(sprites[w].sid),
        part(paired(sprites, roles, runs)[sprites[w].sid], f) == part(runs[sprites[r].sid], f),
{
    law_reached_sprites_run(sprites, roles, runs, r, w);
    lemma_paired(sprites, roles, runs, w);
    lemma_group_pool(sprites, roles, runs, w);
    let keys = run_keys(sprites, roles, sprites.len());
    let sids = run_sids(sprites, roles, sprites.len());
    let sid = sprites[w].sid;
    let gp = group_pool(sprites, roles, runs, keys, sid, keys.len());
    let np = name_pool(sprites, roles, runs, sids, sid, sids.len());
    let own = own_of(roles, runs, sprites[w]);
    let mid = pooled(own, gp, true);
    let p = runs[sprites[r].sid];
    assert(group_hit(sprites, roles, runs, w, r));
    let q = choose|q: int|
        0 <= q < gp.len() && keys[q] % 0x1_0000 == sprites[r].sid && #[trigger] gp[q] == Some(p);
    assert forall|o: int| 0 <= o < q implies part_in(#[trigger] gp[o], f) is None by {
        if gp[o] is Some {
            let s = choose|s: int|
                group_hit(sprites, roles, runs, w, s) && keys[o] % 0x1_0000 == sprites[s].sid
                    && gp[o] == Some(runs[sprites[s].sid]);
            assert(keys[o] % 0x1_0000 < keys[q] % 0x1_0000);
            assert(sprites[s].sid < sprites[r].sid);
        }
    }
    lemma_pooled_part(own, gp, true, f);
    lemma_pooled_part(mid, np, false, f);
    lemma_pooled_some(own, gp, true);
    lemma_pooled_some(mid, np, false);
}

/// What neither a sprite itself nor any running sprite of its image file has, it
/// does not have before the naming ones are asked.
proof fn lemma_not_in_the_file(
    sprites: Seq<SpriteModel>,
    roles: Map<u16, SpriteRole>,
    runs: Map<u16, RunPairModel>,
    w: int,
    f: int,
)
    requires
        distinct_numbers(sprites),
        0 <= w < sprites.len(),
        runs_by_itself(roles, runs, sprites[w]) ==> part(runs[sprites[w].sid], f) is None,
        forall|o: int|
            0 <= o < sprites.len() && runs_with(roles, runs, #[trigger] sprites[o])
                && shares_images(sprites[o], sprites[w]) ==> part(runs[sprites[o].sid], f) is None,
    ensures
        part_in(in_the_file(sprites, roles, runs, w), f) is None,
{
    lemma_group_pool(sprites, roles, runs, w);
    let keys = run_keys(sprites, roles, sprites.len());
    let gp = group_pool(sprites, roles, runs, keys, sprites[w].sid, keys.len());
    assert forall|o: int| 0 <= o < gp.len() implies part_in(#[trigger] gp[o], f) is None by {
        if gp[o] is Some {
            let s = choose|s: int|
                group_hit(sprites, roles, runs, w, s) && keys[o] % 0x1_0000 == sprites[s].sid
                    && gp[o] == Some(runs[sprites[s].sid]);
            assert(runs_with(roles, runs, sprites[s]));
        }
    }
    lemma_pooled_part(own_of(roles, runs, sprites[w]), gp, true, f);
}

/// What neither a walking sprite itself nor any running sprite of its image file
/// has, the running sprite with the lowest number gives that names it.
pub proof fn law_lowest_of_the_namers_is_next(
    sprites: Seq<SpriteModel>,
    roles: Map<u16, SpriteRole>,
    runs: Map<u16, RunPairModel>,
    r: int,
    w: int,
    f: int,
)
    requires
        distinct_numbers(sprites),
        0 <= r < sprites.len(),
        0 <= w < sprites.len(),
        runs_with(roles, runs, sprites[r]),
        walks(roles, sprites[w]),
        names(sprites[r], sprites[w]),
        runs_by_itself(roles, runs, sprites[w]) ==> part(runs[sprites[w].sid], f) is None,
        part(runs[sprites[r].sid], f) is Some,
        forall|o: int|
            0 <= o < sprites.len() && runs_with(roles, runs, #[trigger] sprites[o])
                && shares_images(sprites[o], sprites[w]) ==> part(runs[sprites[o].sid], f) is None,
        forall|o: int|
            0 <= o < sprites.len() && (#[trigger] sprites[o]).sid < sprites[r].sid && runs_with(
                roles,
                runs,
                sprites[o],
            ) && names(sprites[o], sprites[w]) ==> part(runs[sprites[o].sid], f) is None,
    ensures
        paired(sprites, roles, runs).contains_key(sprites[w].sid),
        part(paired(sprites, roles, runs)[sprites[w].sid], f) == part(runs[sprites[r].sid], f),
{
    law_reached_sprites_run(sprites, roles, runs, r, w);
    lemma_paired(sprites, roles, runs, w);
    lemma_not_in_the_file(sprites, roles, runs, w, f);
    lemma_name_pool(sprites, roles, runs, w);
    let sids = run_sids(sprites, roles, sprites.len());
    let np = name_pool(sprites, roles, runs, sids, sprites[w].sid, sids.len());
    let mid = in_the_file(sprites, roles, runs, w);
    let p = runs[sprites[r].sid];
    assert(name_hit(sprites, roles, runs, w, r));
    let q = choose|q: int|
        0 <= q < np.len() && sids[q] == sprites[r].sid && #[trigger] np[q] == Some(p);
    assert forall|o: int| 0 <= o < q implies part_in(#[trigger] np[o], f) is None by {
        if np[o] is Some {
            let s = choose|s: int|
                name_hit(sprites, roles, runs, w, s) && sids[o] == sprites[s].sid && np[o] == Some(
                    runs[sprites[s].sid],
                );
            assert(sids[o] < sids[q]);
            assert(sprites[s].sid < sprites[r].sid);
        }
    }
    lemma_pooled_part(mid, np, false, f);
    lemma_pooled_some(mid, np, false);
}

/// A sprite that only one running sprite reaches, by its image file or by its
/// number, and that has nothing of its own gets that sprite's animation as it is.
pub proof fn law_the_only_source_is_taken(
    sprites: Seq<SpriteModel>,
    roles: Map<u16, SpriteRole>,
    runs: Map<u16, RunPairModel>,
    r: int,
    w: int,
)
    requires
        distinct_numbers(sprites),
        0 <= r < sprites.len(),
        0 <= w < sprites.len(),
        runs_with(roles, runs, sprites[r]),
        walks(roles, sprites[w]),
        shares_images(sprites[r], sprites[w]) || names(sprites[r], sprites[w]),
        !runs_by_itself(roles, runs, sprites[w]),
        forall|o: int|
            0 <= o < sprites.len() && o != r && runs_with(roles, runs, #[trigger] sprites[o])
                ==> !shares_images(sprites[o], sprites[w]) && !names(sprites[o], sprites[w]),
    ensures
        paired(sprites, roles, runs).contains_key(sprites[w].sid),
        paired(sprites, roles, runs)[sprites[w].sid] == runs[sprites[r].sid],
{
    law_reached_sprites_run(sprites, roles, runs, r, w);
    lemma_paired(sprites, roles, runs, w);
    lemma_group_pool(sprites, roles, runs, w);
    lemma_name_pool(sprites, roles, runs, w);
    let keys = run_keys(sprites, roles, sprites.len());
    let sids = run_sids(sprites, roles, sprites.len());
    let sid = sprites[w].sid;
    let gp = group_pool(sprites, roles, runs, keys, sid, keys.len());
    let np = name_pool(sprites, roles, runs, sids, sid, sids.len());
    let p = runs[sprites[r].sid];
    assert forall|q: int| 0 <= q < gp.len() implies (#[trigger] gp[q]) is None || gp[q] == Some(
        p,
    ) by {
        if gp[q] is Some {
            let s = choose|s: int|
                group_hit(sprites, roles, runs, w, s) && keys[q] % 0x1_0000 == sprites[s].sid
                    && gp[q] == Some(runs[sprites[s].sid]);
            assert(runs_with(roles, runs, sprites[s]));
        }
    }
    assert forall|q: int| 0 <= q < np.len() implies (#[trigger] np[q]) is None || np[q] == Some(
        p,
    ) by {
        if np[q] is Some {
            let s = choose|s: int|
                name_hit(sprites, roles, runs, w, s) && sids[q] == sprites[s].sid && np[q] == Some(
                    runs[sprites[s].sid],
                );
            assert(runs_with(roles, runs, sprites[s]));
        }
    }
    lemma_pooled_alone(gp, p, true);
    lemma_pooled_alone(np, p, false);
    let mid = pooled(None, gp, true);
    lemma_pooled_some(None, gp, true);
    lemma_pooled_some(mid, np, false);
    if shares_images(sprites[r], sprites[w]) {
        assert(group_hit(sprites, roles, runs, w, r));
        let q = choose|q: int| 0 <= q < gp.len() && #[trigger] gp[q] == Some(p);
        assert(gp[q] is Some);
    } else {
        assert(name_hit(sprites, roles, runs, w, r));
        let q = choose|q: int| 0 <= q < np.len() && #[trigger] np[q] == Some(p);
        assert(np[q] is Some);
    }
}

/// No animation comes from nowhere: what a sprite runs with is its own, that of a
/// running sprite with its image file, that of a running sprite that names it, or,
/// where there is none of these, that of its own walking actions.
pub proof fn law_animations_have_a_source(
    sprites: Seq<SpriteModel>,
    roles: Map<u16, SpriteRole>,
    runs: Map<u16, RunPairModel>,
    w: int,
    f: int,
)
    requires
        distinct_numbers(sprites),
        0 <= w < sprites.len(),
        paired(sprites, roles, runs).contains_key(sprites[w].sid),
    ensures
        ({
            let got = paired(sprites, roles, runs)[sprites[w].sid];
            let some_source = runs_by_itself(roles, runs, sprites[w]) || exists|r: int|
                group_hit(sprites, roles, runs, w, r) || name_hit(sprites, roles, runs, w, r);
            &&& some_source && part(got, f) is Some ==> (runs_by_itself(roles, runs, sprites[w])
                && part(runs[sprites[w].sid], f) == part(got, f)) || exists|r: int|
                (group_hit(sprites, roles, runs, w, r) || name_hit(sprites, roles, runs, w, r))
                    && part(runs[sprites[r].sid], f) == part(got, f)
            &&& !some_source ==> builtin_pair(sprites[w]) == Some(got)
        }),
{
    lemma_paired(sprites, roles, runs, w);
    lemma_group_pool(sprites, roles, runs, w);
    lemma_name_pool(sprites, roles, runs, w);
    let keys = run_keys(sprites, roles, sprites.len());
    let sids = run_sids(sprites, roles, sprites.len());
    let sid = sprites[w].sid;
    let gp = group_pool(sprites, roles, runs, keys, sid, keys.len());
    let np = name_pool(sprites, roles, runs, sids, sid, sids.len());
    let own = own_of(roles, runs, sprites[w]);
    let mid = pooled(own, gp, true);
    let got = paired(sprites, roles, runs)[sid];
    lemma_pooled_part(own, gp, true, f);
    lemma_pooled_part(mid, np, false, f);
    lemma_pooled_some(own, gp, true);
    lemma_pooled_some(mid, np, false);
    let some_source = runs_by_itself(roles, runs, sprites[w]) || exists|r: int|
        group_hit(sprites, roles, runs, w, r) || name_hit(sprites, roles, runs, w, r);
    if some_source {
        if own is None {
            let r = choose|r: int|
                group_hit(sprites, roles, runs, w, r) || name_hit(sprites, roles, runs, w, r);
            if group_hit(sprites, roles, runs, w, r) {
                let q = choose|q: int|
                    0 <= q < gp.len() && #[trigger] gp[q] == Some(runs[sprites[r].sid]);
                assert(gp[q] is Some);
            } else {
                let q = choose|q: int|
                    0 <= q < np.len() && #[trigger] np[q] == Some(runs[sprites[r].sid]);
                assert(np[q] is Some);
            }
        }
        assert(reached(sprites, roles, runs, w) == Some(got));
        if part(got, f) is Some {
            if part_in(mid, f) == part(got, f) {
                if part_in(own, f) != part(got, f) {
                    let q = choose|q: int|
                        0 <= q < gp.len() && part_in(#[trigger] gp[q], f) == part_in(mid, f);
                    assert(gp[q] is Some);
                    let r = choose|r: int|
                        group_hit(sprites, roles, runs, w, r) && keys[q] % 0x1_0000
                            == sprites[r].sid && gp[q] == Some(runs[sprites[r].sid]);
                    assert(group_hit(sprites, roles, runs, w, r) && part(runs[sprites[r].sid], f)
                        == part(got, f));
                }
            } else {
                let q = choose|q: int|
                    0 <= q < np.len() && part_in(#[trigger] np[q], f) == part(got, f);
                assert(np[q] is Some);
                let r = choose|r: int|
                    name_hit(sprites, roles, runs, w, r) && sids[q] == sprites[r].sid && np[q]
                        == Some(runs[sprites[r].sid]);
                assert(name_hit(sprites, roles, runs, w, r) && part(runs[sprites[r].sid], f)
                    == part(got, f));
            }
        }
    } else {
        assert forall|q: int| 0 <= q < gp.len() implies (#[trigger] gp[q]) is None by {
            if gp[q] is Some {
                let r = choose|r: int|
                    group_hit(sprites, roles, runs, w, r) && keys[q] % 0x1_0000 == sprites[r].sid
                        && gp[q] == Some(runs[sprites[r].sid]);
                assert(group_hit(sprites, roles, runs, w, r));
            }
        }
        assert forall|q: int| 0 <= q < np.len() implies (#[trigger] np[q]) is None by {
            if np[q] is Some {
                let r = choose|r: int|
                    name_hit(sprites, roles, runs, w, r) && sids[q] == sprites[r].sid && np[q]
                        == Some(runs[sprites[r].sid]);
                assert(name_hit(sprites, roles, runs, w, r));
            }
        }
    }
}

/// A sprite that nothing reaches runs with its own walking actions where they
/// alternate, and otherwise not at all.
pub proof fn law_unreached_sprites(
    sprites: Seq<SpriteModel>,
    roles: Map<u16, SpriteRole>,
    runs: Map<u16, RunPairModel>,
    w: int,
)
    requires
        distinct_numbers(sprites),
        0 <= w < sprites.len(),
        !runs_by_itself(roles, runs, sprites[w]),
        forall|o: int|
            0 <= o < sprites.len() && walks(roles, sprites[w]) && runs_with(
                roles,
                runs,
                #[trigger] sprites[o],
            ) ==> !shares_images(sprites[o], sprites[w]) && !names(sprites[o], sprites[w]),
    ensures
        builtin_pair(sprites[w]) is None ==> !paired(sprites, roles, runs).contains_key(
            sprites[w].sid,
        ),
        builtin_pair(sprites[w]) matches Some(p) ==> paired(sprites, roles, runs).contains_key(
            sprites[w].sid,
        ) && paired(sprites, roles, runs)[sprites[w].sid] == p,
{
    lemma_paired(sprites, roles, runs, w);
    if paired(sprites, roles, runs).contains_key(sprites[w].sid) {
        law_animations_have_a_source(sprites, roles, runs, w, 0);
    }
    lemma_group_pool(sprites, roles, runs, w);
    lemma_name_pool(sprites, roles, runs, w);
    let keys = run_keys(sprites, roles, sprites.len());
    let sids = run_sids(sprites, roles, sprites.len());
    let sid = sprites[w].sid;
    let gp = group_pool(sprites, roles, runs, keys, sid, keys.len());
    let np = name_pool(sprites, roles, runs, sids, sid, sids.len());
    assert forall|q: int| 0 <= q < gp.len() implies (#[trigger] gp[q]) is None by {
        if gp[q] is Some {
            let r = choose|r: int|
                group_hit(sprites, roles, runs, w, r) && keys[q] % 0x1_0000 == sprites[r].sid
                    && gp[q] == Some(runs[sprites[r].sid]);
            assert(runs_with(roles, runs, sprites[r]));
        }
    }
    assert forall|q: int| 0 <= q < np.len() implies (#[trigger] np[q]) is None by {
        if np[q] is Some {
            let r = choose|r: int|
                name_hit(sprites, roles, runs, w, r) && sids[q] == sprites[r].sid && np[q] == Some(
                    runs[sprites[r].sid],
                );
            assert(runs_with(roles, runs, sprites[r]));
        }
    }
    lemma_pooled_some(None, gp, true);
    lemma_pooled_some(None, np, false);
}

/// A walking sprite has images enough for every animation of its image file: its
/// count is the largest of theirs and of its own animation's.
pub proof fn law_image_count_covers_the_file(
    sprites: Seq<SpriteModel>,
    roles: Map<u16, SpriteRole>,
    runs: Map<u16, RunPairModel>,
    r: int,
    w: int,
)
    requires
        distinct_numbers(sprites),
        0 <= w < sprites.len(),
        group_hit(sprites, roles, runs, w, r),
    ensures
        paired(sprites, roles, runs).contains_key(sprites[w].sid),
        ({
            let count = paired(sprites, roles, runs)[sprites[w].sid].source_img_count;
            &&& count >= runs[sprites[r].sid].source_img_count
            &&& (runs_by_itself(roles, runs, sprites[w]) && count
                == runs[sprites[w].sid].source_img_count) || exists|o: int|
                group_hit(sprites, roles, runs, w, o) && count
                    == runs[sprites[o].sid].source_img_count
        }),
{
    lemma_paired(sprites, roles, runs, w);
    lemma_group_pool(sprites, roles, runs, w);
    let keys = run_keys(sprites, roles, sprites.len());
    let sids = run_sids(sprites, roles, sprites.len());
    let sid = sprites[w].sid;
    let gp = group_pool(sprites, roles, runs, keys, sid, keys.len());
    let np = name_pool(sprites, roles, runs, sids, sid, sids.len());
    let own = own_of(roles, runs, sprites[w]);
    let mid = pooled(own, gp, true);
    let q = choose|q: int| 0 <= q < gp.len() && #[trigger] gp[q] == Some(runs[sprites[r].sid]);
    assert(gp[q] is Some);
    lemma_pooled_some(own, gp, true);
    lemma_pooled_count(own, gp);
    lemma_named_count(mid, np);
    let count = mid->0.source_img_count;
    if !(own matches Some(p) && count == p.source_img_count) {
        let z = choose|z: int|
            0 <= z < gp.len() && (#[trigger] gp[z]) is Some && count
                == gp[z]->0.source_img_count;
        let o = choose|o: int|
            group_hit(sprites, roles, runs, w, o) && keys[z] % 0x1_0000 == sprites[o].sid && gp[z]
                == Some(runs[sprites[o].sid]);
        assert(group_hit(sprites, roles, runs, w, o) && count
            == runs[sprites[o].sid].source_img_count);
    }
}

} // verus!

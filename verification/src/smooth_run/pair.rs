//! Giving walking sprites the run animations that belong to them.

use super::classify::first_with;
use super::extract::{builtin_pair, extract_builtin_lr, or_text, role_in, role_of};
use super::types::{
    clone_text, pair_models, RoleMap, RunPair, RunPairMap, RunPairModel, SpriteFile, SpriteModel,
    SpriteRole,
};
use crate::order::{insert_key, insert_sorted, strictly_ascending};
use std::collections::HashMap;
use vstd::prelude::*;

verus! {

/// One of the first `k` sprites has this number.
pub open spec fn has_sprite(sprites: Seq<SpriteModel>, sid: u16, k: nat) -> bool {
    exists|i: int| 0 <= i < k && (#[trigger] sprites[i]).sid == sid
}

/// A sprite with frames of its own to run with keeps them.
pub open spec fn own_pairs(
    sprites: Seq<SpriteModel>,
    roles: Map<u16, SpriteRole>,
    runs: Map<u16, RunPairModel>,
    k: nat,
) -> Map<u16, RunPairModel> {
    Map::new(
        |sid: u16|
            has_sprite(sprites, sid, k) && (role_in(roles, sid) == SpriteRole::Both || role_in(
                roles,
                sid,
            ) == SpriteRole::Run) && runs.contains_key(sid),
        |sid: u16| runs[sid],
    )
}

/// An image file and a sprite number as one key; keys are ordered by the image
/// file first.
pub open spec fn group_key(gfx: u32, sid: u16) -> u64 {
    (gfx * 0x1_0000 + sid) as u64
}

/// The running sprites among the first `k`, by image file and number.
pub open spec fn run_keys(
    sprites: Seq<SpriteModel>,
    roles: Map<u16, SpriteRole>,
    k: nat,
) -> Seq<u64>
    decreases k,
{
    if k == 0 {
        seq![]
    } else {
        let before = run_keys(sprites, roles, (k - 1) as nat);
        let s = sprites[k - 1];
        match s.gfx_id {
            Some(gfx) => if role_in(roles, s.sid) == SpriteRole::Run {
                insert_key(before, group_key(gfx, s.sid))
            } else {
                before
            },
            None => before,
        }
    }
}

/// A walking sprite `sid` of the image file `gfx` is among the first `k`.
pub open spec fn walks_in(
    sprites: Seq<SpriteModel>,
    roles: Map<u16, SpriteRole>,
    gfx: u32,
    sid: u16,
    k: nat,
) -> bool {
    &&& role_in(roles, sid) == SpriteRole::Walk || role_in(roles, sid) == SpriteRole::Both
    &&& exists|i: int|
        0 <= i < k && (#[trigger] sprites[i]).sid == sid && sprites[i].gfx_id == Some(gfx)
}

/// What a sprite runs with when a pair `p` reaches it: what it lacks, it takes
/// from `p`, and the larger image count counts.
pub open spec fn merged(have: Option<RunPairModel>, p: RunPairModel) -> RunPairModel {
    match have {
        Some(h) => RunPairModel {
            runl: or_text(h.runl, p.runl),
            runr: or_text(h.runr, p.runr),
            framerate: or_text(h.framerate, p.framerate),
            source_img_count: if p.source_img_count > h.source_img_count {
                p.source_img_count
            } else {
                h.source_img_count
            },
        },
        None => p,
    }
}

/// As [`merged`], but an image count that is there stays.
pub open spec fn completed(have: Option<RunPairModel>, p: RunPairModel) -> RunPairModel {
    match have {
        Some(h) => RunPairModel {
            runl: or_text(h.runl, p.runl),
            runr: or_text(h.runr, p.runr),
            framerate: or_text(h.framerate, p.framerate),
            source_img_count: h.source_img_count,
        },
        None => p,
    }
}

pub open spec fn lookup(m: Map<u16, RunPairModel>, sid: u16) -> Option<RunPairModel> {
    if m.contains_key(sid) {
        Some(m[sid])
    } else {
        None
    }
}

/// The pair of one running sprite reaches the walking sprites of its image
/// file.
pub open spec fn reach_group(
    sprites: Seq<SpriteModel>,
    roles: Map<u16, SpriteRole>,
    m: Map<u16, RunPairModel>,
    gfx: u32,
    p: RunPairModel,
) -> Map<u16, RunPairModel> {
    Map::new(
        |sid: u16| m.contains_key(sid) || walks_in(sprites, roles, gfx, sid, sprites.len()),
        |sid: u16|
            if walks_in(sprites, roles, gfx, sid, sprites.len()) {
                merged(lookup(m, sid), p)
            } else {
                m[sid]
            },
    )
}

/// The first `j` running sprites have reached their groups, in ascending order
/// of image file and number.
pub open spec fn grouped(
    sprites: Seq<SpriteModel>,
    roles: Map<u16, SpriteRole>,
    runs: Map<u16, RunPairModel>,
    m: Map<u16, RunPairModel>,
    keys: Seq<u64>,
    j: nat,
) -> Map<u16, RunPairModel>
    decreases j,
{
    if j == 0 {
        m
    } else {
        let before = grouped(sprites, roles, runs, m, keys, (j - 1) as nat);
        let gfx = (keys[j - 1] / 0x1_0000) as u32;
        let sid = (keys[j - 1] % 0x1_0000) as u16;
        if runs.contains_key(sid) {
            reach_group(sprites, roles, before, gfx, runs[sid])
        } else {
            before
        }
    }
}

/// The numbers of the running sprites among the first `k`.
pub open spec fn run_sids(
    sprites: Seq<SpriteModel>,
    roles: Map<u16, SpriteRole>,
    k: nat,
) -> Seq<u64>
    decreases k,
{
    if k == 0 {
        seq![]
    } else {
        let before = run_sids(sprites, roles, (k - 1) as nat);
        if role_in(roles, sprites[k - 1].sid) == SpriteRole::Run {
            insert_key(before, sprites[k - 1].sid as u64)
        } else {
            before
        }
    }
}

/// The walking sprite that a running sprite names as its image file.
pub open spec fn named_walk(
    sprites: Seq<SpriteModel>,
    roles: Map<u16, SpriteRole>,
    sid: u16,
) -> Option<u16> {
    let i = first_with(sprites, sid, 0);
    if 0 <= i < sprites.len() {
        match sprites[i].gfx_id {
            Some(gfx) => if gfx <= u16::MAX && gfx as u16 != sid && has_sprite(
                sprites,
                gfx as u16,
                sprites.len(),
            ) && (role_in(roles, gfx as u16) == SpriteRole::Walk || role_in(roles, gfx as u16)
                == SpriteRole::Both) {
                Some(gfx as u16)
            } else {
                None
            },
            None => None,
        }
    } else {
        None
    }
}

/// The first `j` running sprites have reached the sprites that they name, in
/// ascending order of their numbers.
pub open spec fn referred(
    sprites: Seq<SpriteModel>,
    roles: Map<u16, SpriteRole>,
    runs: Map<u16, RunPairModel>,
    m: Map<u16, RunPairModel>,
    sids: Seq<u64>,
    j: nat,
) -> Map<u16, RunPairModel>
    decreases j,
{
    if j == 0 {
        m
    } else {
        let before = referred(sprites, roles, runs, m, sids, (j - 1) as nat);
        let sid = sids[j - 1] as u16;
        match named_walk(sprites, roles, sid) {
            Some(w) => if runs.contains_key(sid) {
                before.insert(w, completed(lookup(before, w), runs[sid]))
            } else {
                before
            },
            None => before,
        }
    }
}

/// Sprites that nothing reached use their own actions 0 and 4 if those run.
pub open spec fn with_builtin(
    sprites: Seq<SpriteModel>,
    m: Map<u16, RunPairModel>,
    k: nat,
) -> Map<u16, RunPairModel>
    decreases k,
{
    if k == 0 {
        m
    } else {
        let before = with_builtin(sprites, m, (k - 1) as nat);
        let s = sprites[k - 1];
        match builtin_pair(s) {
            Some(p) => if before.contains_key(s.sid) {
                before
            } else {
                before.insert(s.sid, p)
            },
            None => before,
        }
    }
}

/// What each sprite of a table runs with.
pub open spec fn paired(
    sprites: Seq<SpriteModel>,
    roles: Map<u16, SpriteRole>,
    runs: Map<u16, RunPairModel>,
) -> Map<u16, RunPairModel> {
    let n = sprites.len();
    let keys = run_keys(sprites, roles, n);
    let sids = run_sids(sprites, roles, n);
    let own = own_pairs(sprites, roles, runs, n);
    let in_groups = grouped(sprites, roles, runs, own, keys, keys.len());
    let by_name = referred(sprites, roles, runs, in_groups, sids, sids.len());
    with_builtin(sprites, by_name, n)
}

fn collect_own(sf: &SpriteFile, roles: &RoleMap, runs: &RunPairMap) -> (r: RunPairMap)
    ensures
        pair_models(r@) == own_pairs(
            sf@.sprites,
            roles@,
            pair_models(runs@),
            sf@.sprites.len(),
        ),
{
    broadcast use vstd::std_specs::hash::group_hash_axioms;

    let ghost m = sf@.sprites;
    let ghost rm = pair_models(runs@);
    let mut out: RunPairMap = HashMap::new();
    let mut i: usize = 0;
    assert(pair_models(out@) == own_pairs(m, roles@, rm, 0));
    while i < sf.sprites.len()
        invariant
            i <= sf.sprites@.len(),
            m == sf@.sprites,
            rm == pair_models(runs@),
            pair_models(out@) == own_pairs(m, roles@, rm, i as nat),
        decreases sf.sprites@.len() - i,
    {
        let sid: u16 = sf.sprites[i].sid;
        assert(m[i as int].sid == sid);
        let ghost before = pair_models(out@);
        let role = role_of(roles, sid);
        if role == SpriteRole::Both || role == SpriteRole::Run {
            match runs.get(&sid) {
                Some(p) => {
                    let q = p.clone();
                    assert(q@ == rm[sid]);
                    out.insert(sid, q);
                    assert(pair_models(out@) == before.insert(sid, rm[sid]));
                },
                None => {},
            }
        }
        proof {
            assert forall|s: u16| #[trigger]
                own_pairs(m, roles@, rm, (i + 1) as nat).contains_key(s) <==> pair_models(
                    out@,
                ).contains_key(s) by {
                if has_sprite(m, s, i as nat) {
                    let j = choose|j: int| 0 <= j < i && (#[trigger] m[j]).sid == s;
                    assert(0 <= j < i + 1 && m[j].sid == s);
                }
                if s == sid {
                    assert(0 <= i < i + 1 && m[i as int].sid == s);
                }
                assert(own_pairs(m, roles@, rm, i as nat).contains_key(s) <==> before.contains_key(
                    s,
                ));
            }
            assert(pair_models(out@) == own_pairs(m, roles@, rm, (i + 1) as nat));
        }
        i += 1;
    }
    out
}

fn collect_run_keys(sf: &SpriteFile, roles: &RoleMap) -> (r: Vec<u64>)
    ensures
        r@ == run_keys(sf@.sprites, roles@, sf@.sprites.len()),
{
    let ghost m = sf@.sprites;
    let mut keys: Vec<u64> = Vec::new();
    let mut i: usize = 0;
    while i < sf.sprites.len()
        invariant
            i <= sf.sprites@.len(),
            m == sf@.sprites,
            keys@ == run_keys(m, roles@, i as nat),
        decreases sf.sprites@.len() - i,
    {
        let s = &sf.sprites[i];
        assert(m[i as int] == s@);
        match s.gfx_id {
            Some(gfx) => {
                if role_of(roles, s.sid) == SpriteRole::Run {
                    insert_sorted(&mut keys, gfx as u64 * 0x1_0000 + s.sid as u64);
                }
            },
            None => {},
        }
        i += 1;
    }
    keys
}

fn collect_run_sids(sf: &SpriteFile, roles: &RoleMap) -> (r: Vec<u64>)
    ensures
        r@ == run_sids(sf@.sprites, roles@, sf@.sprites.len()),
{
    let ghost m = sf@.sprites;
    let mut sids: Vec<u64> = Vec::new();
    let mut i: usize = 0;
    while i < sf.sprites.len()
        invariant
            i <= sf.sprites@.len(),
            m == sf@.sprites,
            sids@ == run_sids(m, roles@, i as nat),
        decreases sf.sprites@.len() - i,
    {
        let s = &sf.sprites[i];
        assert(m[i as int] == s@);
        if role_of(roles, s.sid) == SpriteRole::Run {
            insert_sorted(&mut sids, s.sid as u64);
        }
        i += 1;
    }
    sids
}

/// `v` holds exactly the walking sprites of `gfx` among the first `k`.
spec fn holds_walks(
    v: Seq<u16>,
    sprites: Seq<SpriteModel>,
    roles: Map<u16, SpriteRole>,
    gfx: u32,
    k: nat,
) -> bool {
    forall|sid: u16| #[trigger] v.contains(sid) <==> walks_in(sprites, roles, gfx, sid, k)
}

spec fn walks_at(w: Map<u32, Vec<u16>>, gfx: u32) -> Seq<u16> {
    if w.contains_key(gfx) {
        w[gfx]@
    } else {
        seq![]
    }
}

proof fn lemma_walks_step(
    sprites: Seq<SpriteModel>,
    roles: Map<u16, SpriteRole>,
    gfx: u32,
    sid: u16,
    i: int,
)
    requires
        0 <= i < sprites.len(),
    ensures
        walks_in(sprites, roles, gfx, sid, (i + 1) as nat) <==> walks_in(
            sprites,
            roles,
            gfx,
            sid,
            i as nat,
        ) || (sprites[i].sid == sid && sprites[i].gfx_id == Some(gfx) && (role_in(roles, sid)
            == SpriteRole::Walk || role_in(roles, sid) == SpriteRole::Both)),
{
    if walks_in(sprites, roles, gfx, sid, i as nat) {
        let j = choose|j: int|
            0 <= j < i && (#[trigger] sprites[j]).sid == sid && sprites[j].gfx_id == Some(gfx);
        assert(0 <= j < i + 1 && sprites[j].sid == sid);
    }
    if sprites[i].sid == sid && sprites[i].gfx_id == Some(gfx) {
        assert(0 <= i < i + 1 && sprites[i].sid == sid);
    }
}

fn collect_walks(sf: &SpriteFile, roles: &RoleMap) -> (r: HashMap<u32, Vec<u16>>)
    ensures
        forall|gfx: u32|
            #![trigger walks_at(r@, gfx)]
            holds_walks(walks_at(r@, gfx), sf@.sprites, roles@, gfx, sf@.sprites.len()),
{
    broadcast use vstd::std_specs::hash::group_hash_axioms;

    let ghost m = sf@.sprites;
    let mut walks: HashMap<u32, Vec<u16>> = HashMap::new();
    let mut i: usize = 0;
    while i < sf.sprites.len()
        invariant
            i <= sf.sprites@.len(),
            m == sf@.sprites,
            forall|gfx: u32|
                #![trigger walks_at(walks@, gfx)]
                holds_walks(walks_at(walks@, gfx), m, roles@, gfx, i as nat),
        decreases sf.sprites@.len() - i,
    {
        let s = &sf.sprites[i];
        assert(m[i as int] == s@);
        let ghost before = walks@;
        let role = role_of(roles, s.sid);
        match s.gfx_id {
            Some(gfx) => {
                if role == SpriteRole::Walk || role == SpriteRole::Both {
                    let mut v: Vec<u16> = match walks.remove(&gfx) {
                        Some(v) => v,
                        None => Vec::new(),
                    };
                    assert(v@ == walks_at(before, gfx));
                    v.push(s.sid);
                    proof {
                        assert forall|x: u16| #[trigger] v@.contains(x) <==> walks_at(
                            before,
                            gfx,
                        ).contains(x) || x == s.sid by {
                            let o = walks_at(before, gfx);
                            assert(v@ == o.push(s.sid));
                            if o.contains(x) {
                                let j = choose|j: int| 0 <= j < o.len() && o[j] == x;
                                assert(v@[j] == x);
                            }
                            assert(v@[o.len() as int] == s.sid);
                        }
                    }
                    let ghost vs = v@;
                    walks.insert(gfx, v);
                    assert(walks_at(walks@, gfx) == vs);
                }
            },
            None => {},
        }
        proof {
            assert forall|gfx: u32|
                #![trigger walks_at(walks@, gfx)]
                holds_walks(walks_at(walks@, gfx), m, roles@, gfx, (i + 1) as nat) by {
                assert(holds_walks(walks_at(before, gfx), m, roles@, gfx, i as nat));
                assert forall|sid: u16| #[trigger] walks_at(walks@, gfx).contains(sid) <==> walks_in(
                    m,
                    roles@,
                    gfx,
                    sid,
                    (i + 1) as nat,
                ) by {
                    lemma_walks_step(m, roles@, gfx, sid, i as int);
                    assert(walks_at(before, gfx).contains(sid) <==> walks_in(
                        m,
                        roles@,
                        gfx,
                        sid,
                        i as nat,
                    ));
                }
            }
        }
        i += 1;
    }
    walks
}

fn merge_pair(have: &RunPair, p: &RunPair) -> (r: RunPair)
    ensures
        r@ == merged(Some(have@), p@),
{
    RunPair {
        runl: if have.runl.is_some() {
            clone_text(&have.runl)
        } else {
            clone_text(&p.runl)
        },
        runr: if have.runr.is_some() {
            clone_text(&have.runr)
        } else {
            clone_text(&p.runr)
        },
        framerate: if have.framerate.is_some() {
            clone_text(&have.framerate)
        } else {
            clone_text(&p.framerate)
        },
        source_img_count: if p.source_img_count > have.source_img_count {
            p.source_img_count
        } else {
            have.source_img_count
        },
    }
}

fn complete_pair(have: &RunPair, p: &RunPair) -> (r: RunPair)
    ensures
        r@ == completed(Some(have@), p@),
{
    let mut r = merge_pair(have, p);
    r.source_img_count = have.source_img_count;
    r
}

/// Merges `p` into the entries of the given walking sprites.
fn reach_walks(out: &mut RunPairMap, walks: &Vec<u16>, p: &RunPair)
    ensures
        pair_models(final(out)@).dom() == pair_models(old(out)@).dom().union(walks@.to_set()),
        forall|sid: u16| #[trigger]
            pair_models(final(out)@).contains_key(sid) ==> pair_models(final(out)@)[sid] == (
            if walks@.contains(sid) {
                merged(lookup(pair_models(old(out)@), sid), p@)
            } else {
                pair_models(old(out)@)[sid]
            }),
{
    broadcast use vstd::std_specs::hash::group_hash_axioms;

    let ghost start = pair_models(out@);
    let mut j: usize = 0;
    assert(walks@.take(0).to_set() == Set::<u16>::empty());
    assert(start.dom().union(walks@.take(0).to_set()) == start.dom());
    while j < walks.len()
        invariant
            j <= walks@.len(),
            pair_models(out@).dom() == start.dom().union(walks@.take(j as int).to_set()),
            forall|sid: u16| #[trigger]
                pair_models(out@).contains_key(sid) ==> pair_models(out@)[sid] == (if walks@.take(
                    j as int,
                ).contains(sid) {
                    merged(lookup(start, sid), p@)
                } else {
                    start[sid]
                }),
        decreases walks@.len() - j,
    {
        let w: u16 = walks[j];
        let ghost before = pair_models(out@);
        let ghost seen = walks@.take(j as int);
        let q = match out.get(&w) {
            Some(h) => merge_pair(h, p),
            None => p.clone(),
        };
        let ghost qm = q@;
        assert(qm == merged(lookup(before, w), p@));
        out.insert(w, q);
        proof {
            assert(pair_models(out@) == before.insert(w, qm));
            let now = walks@.take(j + 1);
            assert(now == seen.push(w));
            assert forall|x: u16| #[trigger] now.contains(x) <==> seen.contains(x) || x == w by {
                if seen.contains(x) {
                    let i = choose|i: int| 0 <= i < seen.len() && seen[i] == x;
                    assert(now[i] == x);
                }
                assert(now[j as int] == w);
            }
            assert(before.contains_key(w) <==> start.contains_key(w) || seen.contains(w));
            assert(qm == merged(lookup(start, w), p@));
            assert(pair_models(out@).dom() =~= start.dom().union(now.to_set()));
        }
        j += 1;
    }
    assert(walks@.take(j as int) == walks@);
}

fn reach_groups(
    out: &mut RunPairMap,
    sf: &SpriteFile,
    roles: &RoleMap,
    runs: &RunPairMap,
    keys: &Vec<u64>,
)
    requires
        forall|i: int| 0 <= i < keys@.len() ==> #[trigger] keys@[i] < 0x1_0000_0000_0000,
    ensures
        pair_models(final(out)@) == grouped(
            sf@.sprites,
            roles@,
            pair_models(runs@),
            pair_models(old(out)@),
            keys@,
            keys@.len(),
        ),
{
    broadcast use vstd::std_specs::hash::group_hash_axioms;

    let ghost m = sf@.sprites;
    let ghost rm = pair_models(runs@);
    let ghost start = pair_models(out@);
    let walks = collect_walks(sf, roles);
    let empty: Vec<u16> = Vec::new();
    let mut j: usize = 0;
    while j < keys.len()
        invariant
            j <= keys@.len(),
            m == sf@.sprites,
            rm == pair_models(runs@),
            forall|i: int| 0 <= i < keys@.len() ==> #[trigger] keys@[i] < 0x1_0000_0000_0000,
            empty@ == Seq::<u16>::empty(),
            forall|gfx: u32|
                #![trigger walks_at(walks@, gfx)]
                holds_walks(walks_at(walks@, gfx), m, roles@, gfx, m.len()),
            pair_models(out@) == grouped(m, roles@, rm, start, keys@, j as nat),
        decreases keys@.len() - j,
    {
        let key: u64 = keys[j];
        let gfx: u32 = (key / 0x1_0000) as u32;
        let sid: u16 = (key % 0x1_0000) as u16;
        let ghost before = pair_models(out@);
        match runs.get(&sid) {
            Some(p) => {
                let list = match walks.get(&gfx) {
                    Some(v) => v,
                    None => &empty,
                };
                assert(list@ == walks_at(walks@, gfx));
                assert(holds_walks(list@, m, roles@, gfx, m.len()));
                assert(p@ == rm[sid]);
                reach_walks(out, list, p);
                assert(pair_models(out@) =~= reach_group(m, roles@, before, gfx, rm[sid])) by {
                    assert forall|x: u16| #[trigger] pair_models(out@).contains_key(x) <==> (
                    before.contains_key(x) || walks_in(m, roles@, gfx, x, m.len())) by {
                        assert(list@.contains(x) <==> walks_in(m, roles@, gfx, x, m.len()));
                        assert(list@.to_set().contains(x) <==> list@.contains(x));
                    }
                    assert forall|x: u16| #[trigger] pair_models(out@).contains_key(x) implies
                        pair_models(out@)[x] == reach_group(m, roles@, before, gfx, rm[sid])[x] by {
                        assert(list@.contains(x) <==> walks_in(m, roles@, gfx, x, m.len()));
                    }
                }
            },
            None => {},
        }
        j += 1;
    }
}

/// The index of the first sprite of each number.
fn collect_firsts(sf: &SpriteFile) -> (r: HashMap<u16, usize>)
    ensures
        forall|sid: u16| #[trigger]
            r@.contains_key(sid) <==> has_sprite(sf@.sprites, sid, sf@.sprites.len()),
        forall|sid: u16| #[trigger]
            r@.contains_key(sid) ==> r@[sid] < sf@.sprites.len() && first_with(sf@.sprites, sid, 0)
                == r@[sid],
{
    broadcast use vstd::std_specs::hash::group_hash_axioms;

    let ghost m = sf@.sprites;
    let mut firsts: HashMap<u16, usize> = HashMap::new();
    let mut i: usize = 0;
    while i < sf.sprites.len()
        invariant
            i <= sf.sprites@.len(),
            m == sf@.sprites,
            m.len() == sf.sprites@.len(),
            forall|sid: u16| #[trigger]
                firsts@.contains_key(sid) <==> has_sprite(m, sid, i as nat),
            forall|sid: u16| #[trigger]
                firsts@.contains_key(sid) ==> firsts@[sid] < i && first_with(m, sid, 0)
                    == firsts@[sid],
            forall|sid: u16|
                !firsts@.contains_key(sid) ==> #[trigger] first_with(m, sid, 0) == first_with(
                    m,
                    sid,
                    i as int,
                ),
        decreases sf.sprites@.len() - i,
    {
        let sid: u16 = sf.sprites[i].sid;
        assert(m[i as int].sid == sid);
        let ghost before = firsts@;
        if !firsts.contains_key(&sid) {
            firsts.insert(sid, i);
        }
        proof {
            assert forall|x: u16| #[trigger] firsts@.contains_key(x) <==> has_sprite(
                m,
                x,
                (i + 1) as nat,
            ) by {
                if has_sprite(m, x, i as nat) {
                    let j = choose|j: int| 0 <= j < i && (#[trigger] m[j]).sid == x;
                    assert(0 <= j < i + 1 && m[j].sid == x);
                }
                if x == sid {
                    assert(0 <= i < i + 1 && m[i as int].sid == x);
                }
                assert(before.contains_key(x) <==> has_sprite(m, x, i as nat));
            }
        }
        i += 1;
    }
    firsts
}

proof fn lemma_first_with_absent(sprites: Seq<SpriteModel>, sid: u16, from: int)
    requires
        0 <= from <= sprites.len(),
        !has_sprite(sprites, sid, sprites.len()),
    ensures
        first_with(sprites, sid, from) == sprites.len(),
    decreases sprites.len() - from,
{
    if from < sprites.len() {
        assert(sprites[from].sid != sid);
        lemma_first_with_absent(sprites, sid, from + 1);
    }
}

fn reach_named(
    out: &mut RunPairMap,
    sf: &SpriteFile,
    roles: &RoleMap,
    runs: &RunPairMap,
    sids: &Vec<u64>,
)
    requires
        forall|i: int| 0 <= i < sids@.len() ==> #[trigger] sids@[i] <= 0xffff,
    ensures
        pair_models(final(out)@) == referred(
            sf@.sprites,
            roles@,
            pair_models(runs@),
            pair_models(old(out)@),
            sids@,
            sids@.len(),
        ),
{
    broadcast use vstd::std_specs::hash::group_hash_axioms;

    let ghost m = sf@.sprites;
    let ghost rm = pair_models(runs@);
    let ghost start = pair_models(out@);
    let firsts = collect_firsts(sf);
    let mut j: usize = 0;
    while j < sids.len()
        invariant
            j <= sids@.len(),
            m == sf@.sprites,
            m.len() == sf.sprites@.len(),
            rm == pair_models(runs@),
            forall|i: int| 0 <= i < sids@.len() ==> #[trigger] sids@[i] <= 0xffff,
            forall|sid: u16| #[trigger]
                firsts@.contains_key(sid) <==> has_sprite(m, sid, m.len()),
            forall|sid: u16| #[trigger]
                firsts@.contains_key(sid) ==> firsts@[sid] < m.len() && first_with(m, sid, 0)
                    == firsts@[sid],
            pair_models(out@) == referred(m, roles@, rm, start, sids@, j as nat),
        decreases sids@.len() - j,
    {
        let sid: u16 = sids[j] as u16;
        let ghost before = pair_models(out@);
        let target: Option<u16> = match firsts.get(&sid) {
            Some(f) => {
                assert(m[*f as int] == sf.sprites@[*f as int]@);
                match sf.sprites[*f].gfx_id {
                    Some(gfx) => {
                        if gfx <= 0xffff {
                            let w: u16 = gfx as u16;
                            let role = role_of(roles, w);
                            if w != sid && firsts.contains_key(&w) && (role == SpriteRole::Walk
                                || role == SpriteRole::Both) {
                                Some(w)
                            } else {
                                None
                            }
                        } else {
                            None
                        }
                    },
                    None => None,
                }
            },
            None => {
                proof {
                    lemma_first_with_absent(m, sid, 0);
                }
                None
            },
        };
        assert(target == named_walk(m, roles@, sid));
        match target {
            Some(w) => match runs.get(&sid) {
                Some(p) => {
                    assert(p@ == rm[sid]);
                    let q = match out.get(&w) {
                        Some(h) => complete_pair(h, p),
                        None => p.clone(),
                    };
                    let ghost qm = q@;
                    assert(qm == completed(lookup(before, w), rm[sid]));
                    out.insert(w, q);
                    assert(pair_models(out@) == before.insert(w, qm));
                },
                None => {},
            },
            None => {},
        }
        j += 1;
    }
}

fn fill_builtin(out: &mut RunPairMap, sf: &SpriteFile)
    ensures
        pair_models(final(out)@) == with_builtin(
            sf@.sprites,
            pair_models(old(out)@),
            sf@.sprites.len(),
        ),
{
    broadcast use vstd::std_specs::hash::group_hash_axioms;

    let ghost m = sf@.sprites;
    let ghost start = pair_models(out@);
    let mut i: usize = 0;
    while i < sf.sprites.len()
        invariant
            i <= sf.sprites@.len(),
            m == sf@.sprites,
            pair_models(out@) == with_builtin(m, start, i as nat),
        decreases sf.sprites@.len() - i,
    {
        let s = &sf.sprites[i];
        assert(m[i as int] == s@);
        let ghost before = pair_models(out@);
        if !out.contains_key(&s.sid) {
            match extract_builtin_lr(s) {
                Some(p) => {
                    let ghost pm = p@;
                    out.insert(s.sid, p);
                    assert(pair_models(out@) == before.insert(s.sid, pm));
                },
                None => {},
            }
        }
        i += 1;
    }
}

proof fn lemma_run_keys_bound(sprites: Seq<SpriteModel>, roles: Map<u16, SpriteRole>, k: nat)
    requires
        k <= sprites.len(),
    ensures
        strictly_ascending(run_keys(sprites, roles, k)),
        forall|i: int|
            0 <= i < run_keys(sprites, roles, k).len() ==> #[trigger] run_keys(sprites, roles, k)[i]
                < 0x1_0000_0000_0000,
    decreases k,
{
    if k > 0 {
        lemma_run_keys_bound(sprites, roles, (k - 1) as nat);
        let before = run_keys(sprites, roles, (k - 1) as nat);
        let s = sprites[k - 1];
        if s.gfx_id is Some && role_in(roles, s.sid) == SpriteRole::Run {
            let key = group_key(s.gfx_id->0, s.sid);
            crate::order::lemma_insert_key(before, key);
            let now = run_keys(sprites, roles, k);
            assert forall|i: int| 0 <= i < now.len() implies #[trigger] now[i]
                < 0x1_0000_0000_0000 by {
                assert(now.contains(now[i]));
                if before.contains(now[i]) {
                    let j = choose|j: int| 0 <= j < before.len() && before[j] == now[i];
                    assert(before[j] < 0x1_0000_0000_0000);
                }
            }
        }
    }
}

proof fn lemma_run_sids_bound(sprites: Seq<SpriteModel>, roles: Map<u16, SpriteRole>, k: nat)
    requires
        k <= sprites.len(),
    ensures
        strictly_ascending(run_sids(sprites, roles, k)),
        forall|i: int|
            0 <= i < run_sids(sprites, roles, k).len() ==> #[trigger] run_sids(sprites, roles, k)[i]
                <= 0xffff,
    decreases k,
{
    if k > 0 {
        lemma_run_sids_bound(sprites, roles, (k - 1) as nat);
        let before = run_sids(sprites, roles, (k - 1) as nat);
        let s = sprites[k - 1];
        if role_in(roles, s.sid) == SpriteRole::Run {
            crate::order::lemma_insert_key(before, s.sid as u64);
            let now = run_sids(sprites, roles, k);
            assert forall|i: int| 0 <= i < now.len() implies #[trigger] now[i] <= 0xffff by {
                assert(now.contains(now[i]));
                if before.contains(now[i]) {
                    let j = choose|j: int| 0 <= j < before.len() && before[j] == now[i];
                    assert(before[j] <= 0xffff);
                }
            }
        }
    }
}

/// What each sprite of a table runs with.
pub fn pair_walks_to_runs(sf: &SpriteFile, roles: &RoleMap, runs: &RunPairMap) -> (r: RunPairMap)
    ensures
        pair_models(r@) == paired(sf@.sprites, roles@, pair_models(runs@)),
{
    proof {
        lemma_run_keys_bound(sf@.sprites, roles@, sf@.sprites.len());
        lemma_run_sids_bound(sf@.sprites, roles@, sf@.sprites.len());
    }
    let mut out = collect_own(sf, roles, runs);
    let keys = collect_run_keys(sf, roles);
    reach_groups(&mut out, sf, roles, runs, &keys);
    let sids = collect_run_sids(sf, roles);
    reach_named(&mut out, sf, roles, runs, &sids);
    fill_builtin(&mut out, sf);
    out
}

} // verus!

//! What makes a sprite a walking one, a running one or both.

use super::classify::{
    first_with, has_run, has_structural_pair, has_walk, is_eight_frame_pair, is_explicit_run_name,
    is_run_name, is_walk_action, lies_behind, lowest_image, own_role, own_roles, paired_at,
    promoted, roles_of, runs_when_behind, template_a, walk_image,
};
use super::extract_laws::{lemma_plain, no_plain, plain_at};
use super::helpers::interleaved;
use super::pair_laws::distinct_numbers;
use super::types::{ActionModel, SpriteModel, SpriteRole};
use crate::text::{ascii_lower_of, lower_of};
use crate::text_laws::{blank, law_trim, tight};
use vstd::prelude::*;

verus! {

/// The actions in which a sprite walks.
pub proof fn law_walking_actions(code: u32)
    ensures
        is_walk_action(code) <==> seq![
            0u32, 4, 11, 20, 24, 40, 46, 50, 54, 58, 62, 83, 88, 119,
        ].contains(code),
{
    let s = seq![0u32, 4, 11, 20, 24, 40, 46, 50, 54, 58, 62, 83, 88, 119];
    assert(s.len() == 14);
    assert(s[0] == 0 && s[1] == 4 && s[2] == 11 && s[3] == 20 && s[4] == 24 && s[5] == 40 && s[6]
        == 46 && s[7] == 50 && s[8] == 54 && s[9] == 58 && s[10] == 62 && s[11] == 83 && s[12] == 88
        && s[13] == 119);
}

/// An action whose name begins with `runl` or `runr`.
pub open spec fn says_run(a: ActionModel) -> bool {
    a.name.len() >= 4 && a.name[0] == 'r' && a.name[1] == 'u' && a.name[2] == 'n' && (a.name[3]
        == 'l' || a.name[3] == 'r')
}

proof fn lemma_says_run(a: ActionModel)
    ensures
        is_run_name(a.name) <==> says_run(a),
{
    reveal_strlit("runl");
    reveal_strlit("runr");
    if "runl"@.is_prefix_of(a.name) {
        assert(a.name[0] == "runl"@[0] && a.name[1] == "runl"@[1] && a.name[2] == "runl"@[2]
            && a.name[3] == "runl"@[3]);
    }
    if "runr"@.is_prefix_of(a.name) {
        assert(a.name[0] == "runr"@[0] && a.name[1] == "runr"@[1] && a.name[2] == "runr"@[2]
            && a.name[3] == "runr"@[3]);
    }
    if says_run(a) {
        if a.name[3] == 'l' {
            assert("runl"@.is_prefix_of(a.name));
        } else {
            assert("runr"@.is_prefix_of(a.name));
        }
    }
}

/// An action by which its sprite runs, all by itself: a variant below the skill actions,
/// or one without a variant whose name begins with `runl` or `runr`.
pub open spec fn shows_run(a: ActionModel) -> bool {
    (a.dash_variant is Some && a.base_action < 121) || (a.dash_variant is None && says_run(a))
}

/// Two actions with different numbers by which their sprite runs: eight frames in the
/// direction 1 each, and eight images from one to the other.
pub open spec fn show_run_together(a: ActionModel, b: ActionModel) -> bool {
    &&& a.base_action != b.base_action
    &&& a.direction == 1 && b.direction == 1
    &&& a.frame_count == 8 && b.frame_count == 8
    &&& a.first_spr == b.first_spr + 8 || b.first_spr == a.first_spr + 8
}

/// An action by which its sprite walks.
pub open spec fn shows_walk(a: ActionModel) -> bool {
    a.dash_variant is None && is_walk_action(a.base_action)
}

/// Nothing shows that a sprite runs.
pub open spec fn never_runs(s: SpriteModel) -> bool {
    &&& forall|i: int| 0 <= i < s.actions.len() ==> !shows_run(#[trigger] s.actions[i])
    &&& forall|i: int, j: int|
        0 <= i < s.actions.len() && 0 <= j < s.actions.len() ==> !show_run_together(
            #[trigger] s.actions[i],
            #[trigger] s.actions[j],
        )
}

proof fn lemma_never_runs(s: SpriteModel)
    ensures
        never_runs(s) <==> !has_run(s),
{
    assert forall|i: int| 0 <= i < s.actions.len() implies (is_run_name(
        (#[trigger] s.actions[i]).name,
    ) <==> says_run(s.actions[i])) by {
        lemma_says_run(s.actions[i]);
    }
    if never_runs(s) {
        if has_structural_pair(s.actions) {
            let (i, j) = choose|i: int, j: int| paired_at(s.actions, i, j);
            assert(show_run_together(s.actions[i], s.actions[j]));
        }
        if exists|i: int|
            0 <= i < s.actions.len() && (#[trigger] s.actions[i]).dash_variant is Some
                && s.actions[i].base_action < 121 {
            let i = choose|i: int|
                0 <= i < s.actions.len() && (#[trigger] s.actions[i]).dash_variant is Some
                    && s.actions[i].base_action < 121;
            assert(shows_run(s.actions[i]));
        }
        if exists|i: int|
            0 <= i < s.actions.len() && (#[trigger] s.actions[i]).dash_variant is None
                && is_run_name(s.actions[i].name) {
            let i = choose|i: int|
                0 <= i < s.actions.len() && (#[trigger] s.actions[i]).dash_variant is None
                    && is_run_name(s.actions[i].name);
            assert(shows_run(s.actions[i]));
        }
    } else {
        if exists|i: int| 0 <= i < s.actions.len() && shows_run(#[trigger] s.actions[i]) {
            let i = choose|i: int| 0 <= i < s.actions.len() && shows_run(#[trigger] s.actions[i]);
            assert(shows_run(s.actions[i]));
        } else {
            let (i, j) = choose|i: int, j: int|
                0 <= i < s.actions.len() && 0 <= j < s.actions.len() && show_run_together(
                    #[trigger] s.actions[i],
                    #[trigger] s.actions[j],
                );
            if s.actions[i].base_action < s.actions[j].base_action {
                assert(paired_at(s.actions, i, j));
            } else {
                assert(paired_at(s.actions, j, i));
            }
        }
    }
}

/// A sprite that nothing shows to run walks exactly where it has a walking action.
pub proof fn law_walking_sprite(s: SpriteModel)
    requires
        never_runs(s),
    ensures
        own_role(s) == SpriteRole::Walk <==> exists|i: int|
            0 <= i < s.actions.len() && shows_walk(#[trigger] s.actions[i]),
        own_role(s) == SpriteRole::Walk || own_role(s) == SpriteRole::Neither,
{
    lemma_never_runs(s);
    if exists|i: int| 0 <= i < s.actions.len() && shows_walk(#[trigger] s.actions[i]) {
        let i = choose|i: int| 0 <= i < s.actions.len() && shows_walk(#[trigger] s.actions[i]);
        assert(s.actions[i].dash_variant is None);
        assert(has_walk(s, false));
    }
}

/// A sprite that something shows to run is a running one; it is one of both kinds where
/// it also has a walking action without a running name, unless its walk itself is a run.
pub proof fn law_running_sprite(s: SpriteModel)
    requires
        !never_runs(s),
    ensures
        own_role(s) == SpriteRole::Run || own_role(s) == SpriteRole::Both,
        own_role(s) == SpriteRole::Both <==> !template_a(s) && exists|i: int|
            0 <= i < s.actions.len() && shows_walk(#[trigger] s.actions[i]) && !says_run(
                s.actions[i],
            ),
{
    lemma_never_runs(s);
    assert forall|i: int| 0 <= i < s.actions.len() implies (is_run_name(
        (#[trigger] s.actions[i]).name,
    ) <==> says_run(s.actions[i])) by {
        lemma_says_run(s.actions[i]);
    }
    if exists|i: int|
        0 <= i < s.actions.len() && shows_walk(#[trigger] s.actions[i]) && !says_run(s.actions[i]) {
        let i = choose|i: int|
            0 <= i < s.actions.len() && shows_walk(#[trigger] s.actions[i]) && !says_run(
                s.actions[i],
            );
        assert(s.actions[i].dash_variant is None);
        assert(has_walk(s, true));
    }
    if has_walk(s, true) {
        let i = choose|i: int|
            0 <= i < s.actions.len() && (#[trigger] s.actions[i]).dash_variant is None
                && is_walk_action(s.actions[i].base_action) && !is_run_name(s.actions[i].name);
        assert(shows_walk(s.actions[i]) && !says_run(s.actions[i]));
    }
}

/// A walk is a run where its first actions 0 and 4 have eight frames each that go
/// together, and one of them has a running name or their frames alternate.
pub proof fn law_walk_that_is_a_run(s: SpriteModel, a: int, b: int)
    requires
        plain_at(s.actions, 0, a),
        plain_at(s.actions, 4, b),
    ensures
        !is_eight_frame_pair(s.actions[a], s.actions[b]) ==> !template_a(s),
        is_eight_frame_pair(s.actions[a], s.actions[b]) ==> (template_a(s) <==> {
            ||| super::classify::is_clean_run_name(s.actions[a].name)
            ||| super::classify::is_clean_run_name(s.actions[b].name)
            ||| interleaved(s.actions[a].content, s.actions[b].content)
        }),
{
    lemma_plain(s.actions, 0, a);
    lemma_plain(s.actions, 4, b);
}

/// A sprite without one of the actions 0 and 4 has no such walk.
pub proof fn law_walk_that_is_no_run(s: SpriteModel)
    requires
        no_plain(s.actions, 0) || no_plain(s.actions, 4),
    ensures
        !template_a(s),
{
    lemma_plain(s.actions, 0, 0);
    lemma_plain(s.actions, 4, 0);
}

/// The sprite at `j` has the image file of the one at `i`, and the first image of its
/// walk is at least sixteen lower.
pub open spec fn walks_in_front(sprites: Seq<SpriteModel>, i: int, j: int, a: int, b: int) -> bool {
    &&& 0 <= j < sprites.len()
    &&& sprites[i].gfx_id is Some && sprites[j].gfx_id == sprites[i].gfx_id
    &&& plain_at(sprites[i].actions, 0, a)
    &&& plain_at(sprites[j].actions, 0, b)
    &&& sprites[i].actions[a].first_spr >= sprites[j].actions[b].first_spr + 16
}

proof fn lemma_lowest(sprites: Seq<SpriteModel>, gfx: u32, k: nat)
    requires
        k <= sprites.len(),
    ensures
        forall|j: int|
            0 <= j < k && (#[trigger] sprites[j]).gfx_id == Some(gfx) && walk_image(
                sprites[j],
            ) is Some ==> lowest_image(sprites, gfx, k) is Some && lowest_image(sprites, gfx, k)->0
                <= walk_image(sprites[j])->0,
        lowest_image(sprites, gfx, k) matches Some(v) ==> exists|j: int|
            0 <= j < k && (#[trigger] sprites[j]).gfx_id == Some(gfx) && walk_image(sprites[j])
                == Some(v),
    decreases k,
{
    if k > 0 {
        lemma_lowest(sprites, gfx, (k - 1) as nat);
        let before = lowest_image(sprites, gfx, (k - 1) as nat);
        let after = lowest_image(sprites, gfx, k);
        if let Some(v) = after {
            if before == after {
                let j = choose|j: int|
                    0 <= j < k - 1 && (#[trigger] sprites[j]).gfx_id == Some(gfx) && walk_image(
                        sprites[j],
                    ) == Some(v);
                assert(sprites[j].gfx_id == Some(gfx));
            } else {
                assert(sprites[k - 1].gfx_id == Some(gfx) && walk_image(sprites[k - 1]) == Some(v));
            }
        }
    }
}

proof fn lemma_place(s: SpriteModel) -> (i: int)
    ensures
        walk_image(s) is Some ==> plain_at(s.actions, 0, i),
    decreases s.actions.len(),
{
    if s.actions.len() == 0 {
        0
    } else if super::extract_laws::is_plain(s.actions[0], 0) {
        0
    } else {
        let t = SpriteModel { actions: s.actions.drop_first(), ..s };
        let i = lemma_place(t);
        if walk_image(t) is Some {
            assert(s.actions[i + 1] == t.actions[i]);
            assert forall|j: int| 0 <= j < i + 1 implies !super::extract_laws::is_plain(
                #[trigger] s.actions[j],
                0,
            ) by {
                if j > 0 {
                    assert(t.actions[j - 1] == s.actions[j]);
                }
            }
        }
        i + 1
    }
}

/// A sprite lies behind another exactly where one with its image file walks in front of
/// it.
pub proof fn law_lies_behind(sprites: Seq<SpriteModel>, i: int)
    requires
        0 <= i < sprites.len(),
    ensures
        lies_behind(sprites, i) <==> exists|j: int, a: int, b: int|
            walks_in_front(sprites, i, j, a, b),
{
    let n = sprites.len();
    if exists|j: int, a: int, b: int| walks_in_front(sprites, i, j, a, b) {
        let (j, a, b) = choose|j: int, a: int, b: int| walks_in_front(sprites, i, j, a, b);
        let gfx = sprites[i].gfx_id->0;
        lemma_plain(sprites[i].actions, 0, a);
        lemma_plain(sprites[j].actions, 0, b);
        lemma_lowest(sprites, gfx, n);
        assert(sprites[j].gfx_id == Some(gfx) && walk_image(sprites[j]) is Some);
    }
    if lies_behind(sprites, i) {
        let gfx = sprites[i].gfx_id->0;
        lemma_lowest(sprites, gfx, n);
        let low = lowest_image(sprites, gfx, n)->0;
        let j = choose|j: int|
            0 <= j < n && (#[trigger] sprites[j]).gfx_id == Some(gfx) && walk_image(sprites[j])
                == Some(low);
        let a = lemma_place(sprites[i]);
        let b = lemma_place(sprites[j]);
        lemma_plain(sprites[i].actions, 0, a);
        lemma_plain(sprites[j].actions, 0, b);
        assert(walks_in_front(sprites, i, j, a, b));
    }
}

/// What makes a sprite that lies behind another run: its walk alternates, or one of its
/// actions 0 and 4 has a name for running; with no action 4, eight frames and such a
/// name.
pub proof fn law_runs_when_behind(s: SpriteModel, a: int, b: int)
    ensures
        plain_at(s.actions, 0, a) && plain_at(s.actions, 4, b) ==> (runs_when_behind(s) <==> {
            ||| interleaved(s.actions[a].content, s.actions[b].content)
            ||| is_explicit_run_name(s.actions[a].name)
            ||| is_explicit_run_name(s.actions[b].name)
        }),
        plain_at(s.actions, 0, a) && no_plain(s.actions, 4) ==> (runs_when_behind(s) <==> {
            &&& s.actions[a].frame_count == 8
            &&& is_explicit_run_name(s.actions[a].name)
        }),
        no_plain(s.actions, 0) ==> !runs_when_behind(s),
{
    lemma_plain(s.actions, 0, a);
    lemma_plain(s.actions, 4, b);
}

/// The names for running, in capitals or small letters and with white space around
/// them: those that begin with `runl`, `runr` or `walkfast`, and `runone`, `runtwo`,
/// these two with a blank or an underscore in them too.
pub proof fn law_explicit_names(a: Seq<char>, word: Seq<char>, b: Seq<char>, name: Seq<char>)
    requires
        blank(a) && blank(b),
        tight(word),
        word.len() > 0,
        vstd::utf8::is_ascii_chars(name),
        ascii_lower_of(name) == a + word + b,
    ensures
        word.len() >= 4 && word[0] == 'r' && word[1] == 'u' && word[2] == 'n' && (word[3] == 'l'
            || word[3] == 'r') ==> is_explicit_run_name(name),
        word == seq!['r', 'u', 'n', 'o', 'n', 'e'] ==> is_explicit_run_name(name),
        word == seq!['r', 'u', 'n', 't', 'w', 'o'] ==> is_explicit_run_name(name),
        word == seq!['r', 'u', 'n', '_', 'o', 'n', 'e'] ==> is_explicit_run_name(name),
        word == seq!['r', 'u', 'n', '_', 't', 'w', 'o'] ==> is_explicit_run_name(name),
        word == seq!['r', 'u', 'n', ' ', 'o', 'n', 'e'] ==> is_explicit_run_name(name),
        word == seq!['r', 'u', 'n', ' ', 't', 'w', 'o'] ==> is_explicit_run_name(name),
        word.len() >= 8 && word.take(8) == seq!['w', 'a', 'l', 'k', 'f', 'a', 's', 't']
            ==> is_explicit_run_name(name),
        word[0] != 'r' && word[0] != 'w' ==> !is_explicit_run_name(name),
        word == seq!['w', 'a', 'l', 'k'] ==> !is_explicit_run_name(name),
        word == seq!['r', 'u', 'n'] ==> !is_explicit_run_name(name),
{
    reveal_strlit("runl");
    reveal_strlit("runr");
    reveal_strlit("walkfast");
    reveal_strlit("runone");
    reveal_strlit("runtwo");
    reveal_strlit("run_one");
    reveal_strlit("run_two");
    reveal_strlit("run one");
    reveal_strlit("run two");
    law_trim(a, word, b);
    assert(lower_of(name) == a + word + b);
    assert("runone"@ =~= seq!['r', 'u', 'n', 'o', 'n', 'e']);
    assert("runtwo"@ =~= seq!['r', 'u', 'n', 't', 'w', 'o']);
    assert("run_one"@ =~= seq!['r', 'u', 'n', '_', 'o', 'n', 'e']);
    assert("run_two"@ =~= seq!['r', 'u', 'n', '_', 't', 'w', 'o']);
    assert("run one"@ =~= seq!['r', 'u', 'n', ' ', 'o', 'n', 'e']);
    assert("run two"@ =~= seq!['r', 'u', 'n', ' ', 't', 'w', 'o']);
    let f = seq!['w', 'a', 'l', 'k', 'f', 'a', 's', 't'];
    assert("walkfast"@ =~= f);
    if word.len() >= 4 && word[0] == 'r' && word[1] == 'u' && word[2] == 'n' && (word[3] == 'l'
        || word[3] == 'r') {
        if word[3] == 'l' {
            assert("runl"@.is_prefix_of(word));
        } else {
            assert("runr"@.is_prefix_of(word));
        }
    }
    if word.len() >= 8 && word.take(8) == f {
        assert forall|i: int| 0 <= i < 8 implies word[i] == f[i] by {
            assert(word.take(8)[i] == word[i]);
        }
        assert("walkfast"@.is_prefix_of(word));
    }
    if "runl"@.is_prefix_of(word) {
        assert(word[0] == "runl"@[0]);
    }
    if "runr"@.is_prefix_of(word) {
        assert(word[0] == "runr"@[0]);
    }
    if "walkfast"@.is_prefix_of(word) {
        assert(word[0] == "walkfast"@[0]);
    }
}

proof fn lemma_own_roles(sprites: Seq<SpriteModel>, k: nat, i: int)
    requires
        distinct_numbers(sprites),
        0 <= i < k <= sprites.len(),
    ensures
        own_roles(sprites, k).contains_key(sprites[i].sid),
        own_roles(sprites, k)[sprites[i].sid] == own_role(sprites[i]),
    decreases k,
{
    if i < k - 1 {
        lemma_own_roles(sprites, (k - 1) as nat, i);
        assert(sprites[i].sid != sprites[k - 1].sid);
    }
}

proof fn lemma_place_of(sprites: Seq<SpriteModel>, i: int, from: int)
    requires
        distinct_numbers(sprites),
        0 <= from <= i < sprites.len(),
    ensures
        first_with(sprites, sprites[i].sid, from) == i,
    decreases i - from,
{
    if from < i {
        assert(sprites[from].sid != sprites[i].sid);
        lemma_place_of(sprites, i, from + 1);
    }
}

/// Every sprite of a table has a role: it runs where it lies behind another and has
/// what makes it run there, and has the role that its own actions give it otherwise.
pub proof fn law_every_sprite_has_a_role(sprites: Seq<SpriteModel>, i: int)
    requires
        distinct_numbers(sprites),
        0 <= i < sprites.len(),
    ensures
        roles_of(sprites).contains_key(sprites[i].sid),
        lies_behind(sprites, i) && runs_when_behind(sprites[i]) ==> roles_of(
            sprites,
        )[sprites[i].sid] == SpriteRole::Run,
        !lies_behind(sprites, i) || !runs_when_behind(sprites[i]) ==> roles_of(
            sprites,
        )[sprites[i].sid] == own_role(sprites[i]),
{
    let n = sprites.len();
    let sid = sprites[i].sid;
    lemma_own_roles(sprites, n, i);
    lemma_place_of(sprites, i, 0);
    if promoted(sprites, sid, n) {
        let j = choose|j: int|
            #![trigger sprites[j]]
            0 <= j < n && sprites[j].sid == sid && lies_behind(sprites, j) && runs_when_behind(
                sprites[first_with(sprites, sid, 0)],
            );
        if j < i {
            assert(sprites[j].sid != sprites[i].sid);
        } else if i < j {
            assert(sprites[i].sid != sprites[j].sid);
        }
    }
}

} // verus!

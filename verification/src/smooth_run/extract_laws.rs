//! Which actions of a sprite are its run animation.

use super::classify::{first_plain, is_clean_run_name, is_eight_frame_pair};
use super::extract::{
    builtin_pair, first_base, first_dash, first_named, run_pair_rated, run_pairs,
};
use super::helpers::interleaved;
use super::pair_laws::distinct_numbers;
use super::types::{ActionModel, RunPairModel, SpriteModel, SpriteRole};
use crate::text::{ascii_lower_of, lower_of};
use crate::text_laws::{blank, law_trim, law_trim_empties_blanks, tight};
use vstd::prelude::*;

verus! {

/// An action of the variant that a dash gives, below the skill actions.
pub open spec fn is_dash(a: ActionModel, variant: u32) -> bool {
    a.dash_variant == Some(variant) && a.base_action < 121
}

/// An action without a variant that has a number.
pub open spec fn is_plain(a: ActionModel, base: u32) -> bool {
    a.dash_variant is None && a.base_action == base
}

/// An action without a variant whose name begins with a word.
pub open spec fn is_named(a: ActionModel, word: Seq<char>) -> bool {
    a.dash_variant is None && a.name.len() >= word.len() && a.name.take(word.len() as int) == word
}

/// The place of the first action of a variant.
pub open spec fn dash_at(actions: Seq<ActionModel>, variant: u32, i: int) -> bool {
    0 <= i < actions.len() && is_dash(actions[i], variant) && forall|j: int|
        0 <= j < i ==> !is_dash(#[trigger] actions[j], variant)
}

pub open spec fn no_dash(actions: Seq<ActionModel>, variant: u32) -> bool {
    forall|j: int| 0 <= j < actions.len() ==> !is_dash(#[trigger] actions[j], variant)
}

/// The place of the first action with a number.
pub open spec fn plain_at(actions: Seq<ActionModel>, base: u32, i: int) -> bool {
    0 <= i < actions.len() && is_plain(actions[i], base) && forall|j: int|
        0 <= j < i ==> !is_plain(#[trigger] actions[j], base)
}

pub open spec fn no_plain(actions: Seq<ActionModel>, base: u32) -> bool {
    forall|j: int| 0 <= j < actions.len() ==> !is_plain(#[trigger] actions[j], base)
}

/// The place of the first action with a name.
pub open spec fn named_at(actions: Seq<ActionModel>, word: Seq<char>, i: int) -> bool {
    0 <= i < actions.len() && is_named(actions[i], word) && forall|j: int|
        0 <= j < i ==> !is_named(#[trigger] actions[j], word)
}

pub open spec fn no_named(actions: Seq<ActionModel>, word: Seq<char>) -> bool {
    forall|j: int| 0 <= j < actions.len() ==> !is_named(#[trigger] actions[j], word)
}

pub proof fn lemma_dash(actions: Seq<ActionModel>, variant: u32, i: int)
    ensures
        dash_at(actions, variant, i) ==> first_dash(actions, variant) == Some(actions[i]),
        no_dash(actions, variant) ==> first_dash(actions, variant) is None,
    decreases actions.len(),
{
    if actions.len() > 0 {
        let t = actions.drop_first();
        if dash_at(actions, variant, i) && i > 0 {
            assert(!is_dash(actions[0], variant));
            assert(t[i - 1] == actions[i]);
            assert forall|j: int| 0 <= j < i - 1 implies !is_dash(#[trigger] t[j], variant) by {
                assert(t[j] == actions[j + 1]);
            }
            lemma_dash(t, variant, i - 1);
        }
        if no_dash(actions, variant) {
            assert(!is_dash(actions[0], variant));
            assert forall|j: int| 0 <= j < t.len() implies !is_dash(#[trigger] t[j], variant) by {
                assert(t[j] == actions[j + 1]);
            }
            lemma_dash(t, variant, 0);
        }
    }
}

pub proof fn lemma_plain(actions: Seq<ActionModel>, base: u32, i: int)
    ensures
        plain_at(actions, base, i) ==> first_plain(actions, base) == Some(actions[i]),
        no_plain(actions, base) ==> first_plain(actions, base) is None,
    decreases actions.len(),
{
    if actions.len() > 0 {
        let t = actions.drop_first();
        if plain_at(actions, base, i) && i > 0 {
            assert(!is_plain(actions[0], base));
            assert(t[i - 1] == actions[i]);
            assert forall|j: int| 0 <= j < i - 1 implies !is_plain(#[trigger] t[j], base) by {
                assert(t[j] == actions[j + 1]);
            }
            lemma_plain(t, base, i - 1);
        }
        if no_plain(actions, base) {
            assert(!is_plain(actions[0], base));
            assert forall|j: int| 0 <= j < t.len() implies !is_plain(#[trigger] t[j], base) by {
                assert(t[j] == actions[j + 1]);
            }
            lemma_plain(t, base, 0);
        }
    }
}

proof fn lemma_prefix(a: ActionModel, word: Seq<char>)
    ensures
        is_named(a, word) <==> a.dash_variant is None && word.is_prefix_of(a.name),
{
    if word.is_prefix_of(a.name) {
        assert(a.name.take(word.len() as int) =~= word);
    } else if a.name.len() >= word.len() && a.name.take(word.len() as int) == word {
        assert(word.is_prefix_of(a.name));
    }
}

pub proof fn lemma_named(actions: Seq<ActionModel>, word: Seq<char>, i: int)
    ensures
        named_at(actions, word, i) ==> first_named(actions, word) == Some(actions[i]),
        no_named(actions, word) ==> first_named(actions, word) is None,
    decreases actions.len(),
{
    if actions.len() > 0 {
        let t = actions.drop_first();
        lemma_prefix(actions[0], word);
        if named_at(actions, word, i) && i > 0 {
            assert(!is_named(actions[0], word));
            assert(t[i - 1] == actions[i]);
            assert forall|j: int| 0 <= j < i - 1 implies !is_named(#[trigger] t[j], word) by {
                assert(t[j] == actions[j + 1]);
            }
            lemma_named(t, word, i - 1);
        }
        if no_named(actions, word) {
            assert(!is_named(actions[0], word));
            assert forall|j: int| 0 <= j < t.len() implies !is_named(#[trigger] t[j], word) by {
                assert(t[j] == actions[j + 1]);
            }
            lemma_named(t, word, 0);
        }
    }
}

/// The first actions of the variants 1 and 2 are the left and the right foot, in front
/// of everything else that a sprite has; the sprite's images are counted.
pub proof fn law_variants_are_the_feet(s: SpriteModel, role: SpriteRole, l: int, r: int)
    requires
        dash_at(s.actions, 1, l) || no_dash(s.actions, 1),
        dash_at(s.actions, 2, r) || no_dash(s.actions, 2),
        dash_at(s.actions, 1, l) || dash_at(s.actions, 2, r),
    ensures
        run_pair_rated(s, role) is Some,
        run_pair_rated(s, role)->0.runl == (if dash_at(s.actions, 1, l) {
            Some(s.actions[l].content)
        } else {
            None
        }),
        run_pair_rated(s, role)->0.runr == (if dash_at(s.actions, 2, r) {
            Some(s.actions[r].content)
        } else {
            None
        }),
        run_pair_rated(s, role)->0.source_img_count == s.img_count,
        no_plain(s.actions, 0) || no_plain(s.actions, 4) ==> run_pair_rated(s, role)->0.framerate is None,
{
    lemma_dash(s.actions, 1, l);
    lemma_dash(s.actions, 2, r);
    lemma_plain(s.actions, 0, 0);
    lemma_plain(s.actions, 4, 0);
    assert(!(dash_at(s.actions, 1, l) && no_dash(s.actions, 1)));
    assert(!(dash_at(s.actions, 2, r) && no_dash(s.actions, 2)));
}

/// Without variants, the first actions whose names begin with `runl` and `runr` are the
/// feet, with the left one's frame rate where it has one, else the right one's.
pub proof fn law_names_are_the_feet(s: SpriteModel, role: SpriteRole, l: int, r: int)
    requires
        no_dash(s.actions, 1) && no_dash(s.actions, 2),
        named_at(s.actions, seq!['r', 'u', 'n', 'l'], l) || no_named(
            s.actions,
            seq!['r', 'u', 'n', 'l'],
        ),
        named_at(s.actions, seq!['r', 'u', 'n', 'r'], r) || no_named(
            s.actions,
            seq!['r', 'u', 'n', 'r'],
        ),
        named_at(s.actions, seq!['r', 'u', 'n', 'l'], l) || named_at(
            s.actions,
            seq!['r', 'u', 'n', 'r'],
            r,
        ),
    ensures
        run_pair_rated(s, role) is Some,
        run_pair_rated(s, role)->0.source_img_count == s.img_count,
        named_at(s.actions, seq!['r', 'u', 'n', 'l'], l) ==> {
            &&& run_pair_rated(s, role)->0.runl == Some(s.actions[l].content)
            &&& s.actions[l].framerate_at_parse is Some ==> run_pair_rated(s, role)->0.framerate
                == s.actions[l].framerate_at_parse
        },
        no_named(s.actions, seq!['r', 'u', 'n', 'l']) ==> run_pair_rated(s, role)->0.runl is None,
        named_at(s.actions, seq!['r', 'u', 'n', 'r'], r) ==> {
            &&& run_pair_rated(s, role)->0.runr == Some(s.actions[r].content)
            &&& s.actions[r].framerate_at_parse is Some && (no_named(
                s.actions,
                seq!['r', 'u', 'n', 'l'],
            ) || s.actions[l].framerate_at_parse is None) ==> run_pair_rated(s, role)->0.framerate
                == s.actions[r].framerate_at_parse
        },
        no_named(s.actions, seq!['r', 'u', 'n', 'r']) ==> run_pair_rated(s, role)->0.runr is None,
{
    reveal_strlit("runl");
    reveal_strlit("runr");
    assert("runl"@ =~= seq!['r', 'u', 'n', 'l']);
    assert("runr"@ =~= seq!['r', 'u', 'n', 'r']);
    lemma_dash(s.actions, 1, 0);
    lemma_dash(s.actions, 2, 0);
    lemma_named(s.actions, "runl"@, l);
    lemma_named(s.actions, "runr"@, r);
    let nl = named_at(s.actions, "runl"@, l);
    let nr = named_at(s.actions, "runr"@, r);
    if nl {
        assert(is_named(s.actions[l], "runl"@));
    }
    if nr {
        assert(is_named(s.actions[r], "runr"@));
    }
}

/// No action says that it is a foot: there is no variant below the skill actions, and
/// no name that begins with `runl` or `runr`.
pub open spec fn no_feet(actions: Seq<ActionModel>) -> bool {
    &&& no_dash(actions, 1)
    &&& no_dash(actions, 2)
    &&& no_named(actions, seq!['r', 'u', 'n', 'l'])
    &&& no_named(actions, seq!['r', 'u', 'n', 'r'])
}

proof fn lemma_no_feet(actions: Seq<ActionModel>)
    requires
        no_feet(actions),
    ensures
        first_dash(actions, 1) is None,
        first_dash(actions, 2) is None,
        first_named(actions, "runl"@) is None,
        first_named(actions, "runr"@) is None,
{
    reveal_strlit("runl");
    reveal_strlit("runr");
    assert("runl"@ =~= seq!['r', 'u', 'n', 'l']);
    assert("runr"@ =~= seq!['r', 'u', 'n', 'r']);
    lemma_dash(actions, 1, 0);
    lemma_dash(actions, 2, 0);
    lemma_named(actions, "runl"@, 0);
    lemma_named(actions, "runr"@, 0);
}

/// Two actions of eight frames in the direction 1 go together where the images of one
/// begin eight behind those of the other, and only there.
pub proof fn law_eight_frames(a: ActionModel, b: ActionModel)
    ensures
        is_eight_frame_pair(a, b) == is_eight_frame_pair(b, a),
        is_eight_frame_pair(a, b) ==> a.frame_count == 8 && b.frame_count == 8 && a.direction == 1
            && b.direction == 1,
        is_eight_frame_pair(a, b) ==> a.first_spr == b.first_spr + 8 || b.first_spr == a.first_spr
            + 8,
        a.frame_count == 8 && a.direction == 1 && b.frame_count == 8 && b.direction == 1
            && b.first_spr == a.first_spr + 8 ==> is_eight_frame_pair(a, b),
{
}

/// Without feet of its own, a sprite whose first actions 32 and 33 go together runs with
/// these; the one with the lower images is the left foot.
pub proof fn law_actions_32_and_33(s: SpriteModel, role: SpriteRole, a: int, b: int)
    requires
        no_feet(s.actions),
        plain_at(s.actions, 32, a),
        plain_at(s.actions, 33, b),
        is_eight_frame_pair(s.actions[a], s.actions[b]),
    ensures
        run_pair_rated(s, role) is Some,
        run_pair_rated(s, role)->0.source_img_count == s.img_count,
        s.actions[a].first_spr < s.actions[b].first_spr ==> {
            &&& run_pair_rated(s, role)->0.runl == Some(s.actions[a].content)
            &&& run_pair_rated(s, role)->0.runr == Some(s.actions[b].content)
        },
        s.actions[b].first_spr < s.actions[a].first_spr ==> {
            &&& run_pair_rated(s, role)->0.runl == Some(s.actions[b].content)
            &&& run_pair_rated(s, role)->0.runr == Some(s.actions[a].content)
        },
{
    lemma_no_feet(s.actions);
    lemma_plain(s.actions, 32, a);
    lemma_plain(s.actions, 33, b);
}

/// The first actions 32 and 33 of a sprite do not go together.
pub open spec fn no_skill_pair(actions: Seq<ActionModel>) -> bool {
    forall|a: int, b: int|
        #[trigger] plain_at(actions, 32, a) && #[trigger] plain_at(actions, 33, b)
            ==> !is_eight_frame_pair(actions[a], actions[b])
}

proof fn lemma_first_place(actions: Seq<ActionModel>, base: u32) -> (i: int)
    ensures
        first_plain(actions, base) is Some ==> plain_at(actions, base, i),
    decreases actions.len(),
{
    if actions.len() == 0 {
        0
    } else if is_plain(actions[0], base) {
        0
    } else {
        let t = actions.drop_first();
        let i = lemma_first_place(t, base);
        if first_plain(t, base) is Some {
            assert(actions[i + 1] == t[i]);
            assert forall|j: int| 0 <= j < i + 1 implies !is_plain(#[trigger] actions[j], base) by {
                if j > 0 {
                    assert(t[j - 1] == actions[j]);
                }
            }
        }
        i + 1
    }
}

proof fn lemma_no_skill_pair(s: SpriteModel)
    requires
        no_feet(s.actions),
        no_skill_pair(s.actions),
    ensures
        super::extract::structural_pair(s) is None,
        super::extract::dash_pair(s) is None,
        super::extract::named_pair(s) is None,
{
    lemma_no_feet(s.actions);
    let a = lemma_first_place(s.actions, 32);
    let b = lemma_first_place(s.actions, 33);
    lemma_plain(s.actions, 32, a);
    lemma_plain(s.actions, 33, b);
}

/// A text that the frame rate is taken from: the first one where there is one, else the
/// second.
pub open spec fn first_given(a: Option<Seq<char>>, b: Option<Seq<char>>) -> Option<Seq<char>> {
    if a is Some {
        a
    } else {
        b
    }
}

/// With no other sign of running, the first actions 0 and 4 are the feet of a sprite
/// that runs where their frames alternate; else, of eight frames each, those of the two
/// that have a running name.
pub proof fn law_actions_0_and_4(s: SpriteModel, role: SpriteRole, a: int, b: int)
    requires
        no_feet(s.actions),
        no_skill_pair(s.actions),
        plain_at(s.actions, 0, a),
        plain_at(s.actions, 4, b),
    ensures
        ({
            let l = s.actions[a];
            let r = s.actions[b];
            let alternate = role == SpriteRole::Run && interleaved(l.content, r.content);
            let together = is_eight_frame_pair(l, r) && (is_clean_run_name(l.name)
                || is_clean_run_name(r.name));
            &&& alternate ==> run_pair_rated(s, role) == Some(
                RunPairModel {
                    runl: Some(l.content),
                    runr: Some(r.content),
                    framerate: first_given(l.framerate_at_parse, r.framerate_at_parse),
                    source_img_count: s.img_count,
                },
            )
            &&& !alternate && together ==> run_pair_rated(s, role) == Some(
                RunPairModel {
                    runl: if is_clean_run_name(l.name) {
                        Some(l.content)
                    } else {
                        None
                    },
                    runr: if is_clean_run_name(r.name) {
                        Some(r.content)
                    } else {
                        None
                    },
                    framerate: first_given(l.framerate_at_parse, r.framerate_at_parse),
                    source_img_count: s.img_count,
                },
            )
            &&& !alternate && !together ==> run_pair_rated(s, role) is None
        }),
{
    lemma_no_skill_pair(s);
    lemma_plain(s.actions, 0, a);
    lemma_plain(s.actions, 4, b);
}

/// A sprite with only one of the actions 0 and 4 runs with that one foot where it has
/// eight frames in the direction 1 and a running name, and the sprite is a running one;
/// one with neither does not run.
pub proof fn law_one_foot(s: SpriteModel, role: SpriteRole, a: int)
    requires
        no_feet(s.actions),
        no_skill_pair(s.actions),
    ensures
        plain_at(s.actions, 0, a) && no_plain(s.actions, 4) ==> {
            let l = s.actions[a];
            if role == SpriteRole::Run && l.direction == 1 && l.frame_count == 8
                && is_clean_run_name(l.name) {
                run_pair_rated(s, role) == Some(
                    RunPairModel {
                        runl: Some(l.content),
                        runr: None,
                        framerate: l.framerate_at_parse,
                        source_img_count: s.img_count,
                    },
                )
            } else {
                run_pair_rated(s, role) is None
            }
        },
        no_plain(s.actions, 0) && plain_at(s.actions, 4, a) ==> {
            let r = s.actions[a];
            if role == SpriteRole::Run && r.direction == 1 && r.frame_count == 8
                && is_clean_run_name(r.name) {
                run_pair_rated(s, role) == Some(
                    RunPairModel {
                        runl: None,
                        runr: Some(r.content),
                        framerate: r.framerate_at_parse,
                        source_img_count: s.img_count,
                    },
                )
            } else {
                run_pair_rated(s, role) is None
            }
        },
        no_plain(s.actions, 0) && no_plain(s.actions, 4) ==> run_pair_rated(s, role) is None,
{
    lemma_no_skill_pair(s);
    lemma_plain(s.actions, 0, a);
    lemma_plain(s.actions, 4, a);
    assert(plain_at(s.actions, 0, a) ==> !no_plain(s.actions, 0));
    assert(plain_at(s.actions, 4, a) ==> !no_plain(s.actions, 4));
}

/// A running name is none at all, `walk`, `runl`, `runr`, or one that begins with
/// `walkfast`; white space around it does not count.
pub proof fn law_running_names(a: Seq<char>, word: Seq<char>, b: Seq<char>, rest: Seq<char>)
    requires
        blank(a) && blank(b),
        tight(word),
        tight(seq!['w', 'a', 'l', 'k', 'f', 'a', 's', 't'] + rest),
    ensures
        is_clean_run_name(a),
        word == seq!['w', 'a', 'l', 'k'] ==> is_clean_run_name(a + word + b),
        word == seq!['r', 'u', 'n', 'l'] ==> is_clean_run_name(a + word + b),
        word == seq!['r', 'u', 'n', 'r'] ==> is_clean_run_name(a + word + b),
        is_clean_run_name(a + (seq!['w', 'a', 'l', 'k', 'f', 'a', 's', 't'] + rest) + b),
        word.len() > 0 && word.len() != 4 && word[0] != 'w' ==> !is_clean_run_name(a + word + b),
        word.len() == 4 && is_clean_run_name(a + word + b) ==> word == seq!['w', 'a', 'l', 'k']
            || word == seq!['r', 'u', 'n', 'l'] || word == seq!['r', 'u', 'n', 'r'],
        0 < word.len() < 4 ==> !is_clean_run_name(a + word + b),
{
    reveal_strlit("walk");
    reveal_strlit("runl");
    reveal_strlit("runr");
    reveal_strlit("walkfast");
    let f = seq!['w', 'a', 'l', 'k', 'f', 'a', 's', 't'];
    assert("walk"@ =~= seq!['w', 'a', 'l', 'k']);
    assert("runl"@ =~= seq!['r', 'u', 'n', 'l']);
    assert("runr"@ =~= seq!['r', 'u', 'n', 'r']);
    assert("walkfast"@ =~= f);
    law_trim_empties_blanks(a);
    law_trim(a, word, b);
    law_trim(a, f + rest, b);
    assert("walkfast"@.is_prefix_of(f + rest));
    if "walkfast"@.is_prefix_of(word) {
        assert(word[0] == "walkfast"@[0]);
    }
}

/// A sprite that nothing makes run runs with its actions 0 and 4 where the first has a
/// name that begins with `walkfast` or `run`, in small letters or capitals, the two have
/// as many frames, and their images differ.
pub proof fn law_own_walk(s: SpriteModel, a: int, b: int, rest: Seq<char>)
    requires
        plain_at(s.actions, 0, a),
        plain_at(s.actions, 4, b),
        vstd::utf8::is_ascii_chars(s.actions[a].name),
    ensures
        ({
            let l = s.actions[a];
            let r = s.actions[b];
            let low = ascii_lower_of(l.name);
            let named = low == seq!['w', 'a', 'l', 'k', 'f', 'a', 's', 't'] + rest || low == seq![
                'r', 'u', 'n',
            ] + rest;
            &&& named && l.first_spr != r.first_spr && l.frame_count == r.frame_count
                ==> builtin_pair(s) == Some(
                RunPairModel {
                    runl: Some(l.content),
                    runr: Some(r.content),
                    framerate: first_given(l.framerate_at_parse, r.framerate_at_parse),
                    source_img_count: s.img_count,
                },
            )
            &&& l.first_spr == r.first_spr || l.frame_count != r.frame_count ==> builtin_pair(
                s,
            ) is None
            &&& l.name.len() < 3 ==> builtin_pair(s) is None
            &&& l.name.len() > 0 && low[0] != 'w' && low[0] != 'r' ==> builtin_pair(s) is None
        }),
{
    reveal_strlit("walkfast");
    reveal_strlit("run");
    let f = seq!['w', 'a', 'l', 'k', 'f', 'a', 's', 't'];
    let g = seq!['r', 'u', 'n'];
    assert("walkfast"@ =~= f);
    assert("run"@ =~= g);
    lemma_plain(s.actions, 0, a);
    lemma_plain(s.actions, 4, b);
    let low = ascii_lower_of(s.actions[a].name);
    assert(low == lower_of(s.actions[a].name));
    assert(low.len() == s.actions[a].name.len());
    assert(f.is_prefix_of(f + rest));
    assert(g.is_prefix_of(g + rest));
    if f.is_prefix_of(low) {
        assert(low[0] == f[0]);
    }
    if g.is_prefix_of(low) {
        assert(low[0] == g[0]);
    }
}

/// A sprite without one of the actions 0 and 4 has no walk of that kind.
pub proof fn law_own_walk_has_both_feet(s: SpriteModel)
    requires
        no_plain(s.actions, 0) || no_plain(s.actions, 4),
    ensures
        builtin_pair(s) is None,
{
    lemma_plain(s.actions, 0, 0);
    lemma_plain(s.actions, 4, 0);
}

/// The run animation of a sprite is looked for with the sprite's own role, and kept
/// under its number.
pub proof fn law_each_sprite_has_its_own(
    sprites: Seq<SpriteModel>,
    roles: Map<u16, SpriteRole>,
    k: nat,
    i: int,
)
    requires
        distinct_numbers(sprites),
        0 <= i < k <= sprites.len(),
        roles.contains_key(sprites[i].sid),
    ensures
        ({
            let got = run_pair_rated(sprites[i], roles[sprites[i].sid]);
            &&& run_pairs(sprites, roles, k).contains_key(sprites[i].sid) <==> got is Some
            &&& got matches Some(p) ==> run_pairs(sprites, roles, k)[sprites[i].sid] == p
        }),
    decreases k,
{
    if i < k - 1 {
        law_each_sprite_has_its_own(sprites, roles, (k - 1) as nat, i);
        assert(sprites[i].sid != sprites[k - 1].sid);
    } else {
        lemma_not_yet(sprites, roles, (k - 1) as nat, sprites[i].sid);
    }
}

proof fn lemma_not_yet(
    sprites: Seq<SpriteModel>,
    roles: Map<u16, SpriteRole>,
    k: nat,
    sid: u16,
)
    requires
        k < sprites.len(),
        distinct_numbers(sprites),
        sprites[k as int].sid == sid,
    ensures
        !run_pairs(sprites, roles, k).contains_key(sid),
{
    lemma_absent(sprites, roles, k, sid, k);
}

proof fn lemma_absent(
    sprites: Seq<SpriteModel>,
    roles: Map<u16, SpriteRole>,
    k: nat,
    sid: u16,
    n: nat,
)
    requires
        k <= n < sprites.len(),
        distinct_numbers(sprites),
        sprites[n as int].sid == sid,
    ensures
        !run_pairs(sprites, roles, k).contains_key(sid),
    decreases k,
{
    if k > 0 {
        lemma_absent(sprites, roles, (k - 1) as nat, sid, n);
        assert(sprites[k - 1].sid != sprites[n as int].sid);
    }
}

/// The frame rate of the walk, where it has eight frames for each foot and a running
/// name.
pub open spec fn walk_rate(l: ActionModel, r: ActionModel) -> Option<Seq<char>> {
    if is_eight_frame_pair(l, r) && (is_clean_run_name(l.name) || is_clean_run_name(r.name)) {
        first_given(l.framerate_at_parse, r.framerate_at_parse)
    } else {
        None
    }
}

/// Feet that bring no frame rate, be they variants, named ones or the actions 32 and 33,
/// take that of the first actions 0 and 4, where these are a walk of eight frames with a
/// running name.
pub proof fn law_rate_of_the_walk(
    s: SpriteModel,
    role: SpriteRole,
    a: int,
    b: int,
    l: int,
    r: int,
)
    requires
        plain_at(s.actions, 0, a),
        plain_at(s.actions, 4, b),
    ensures
        dash_at(s.actions, 1, l) || dash_at(s.actions, 2, r) ==> run_pair_rated(s, role)->0.framerate
            == walk_rate(s.actions[a], s.actions[b]),
        no_dash(s.actions, 1) && no_dash(s.actions, 2) && named_at(
            s.actions,
            seq!['r', 'u', 'n', 'l'],
            l,
        ) && named_at(s.actions, seq!['r', 'u', 'n', 'r'], r)
            && s.actions[l].framerate_at_parse is None && s.actions[r].framerate_at_parse is None
            ==> run_pair_rated(s, role)->0.framerate == walk_rate(s.actions[a], s.actions[b]),
        (forall|j: int| 0 <= j < s.actions.len() ==> (#[trigger] s.actions[j]).dash_variant is None)
            && no_feet(s.actions) && plain_at(s.actions, 32, l) && plain_at(s.actions, 33, r)
            && is_eight_frame_pair(s.actions[l], s.actions[r]) ==> run_pair_rated(
            s,
            role,
        )->0.framerate == walk_rate(s.actions[a], s.actions[b]),
{
    reveal_strlit("runl");
    reveal_strlit("runr");
    assert("runl"@ =~= seq!['r', 'u', 'n', 'l']);
    assert("runr"@ =~= seq!['r', 'u', 'n', 'r']);
    lemma_plain(s.actions, 0, a);
    lemma_plain(s.actions, 4, b);
    lemma_dash(s.actions, 1, l);
    lemma_dash(s.actions, 2, r);
    lemma_named(s.actions, "runl"@, l);
    lemma_named(s.actions, "runr"@, r);
    if (forall|j: int| 0 <= j < s.actions.len() ==> (#[trigger] s.actions[j]).dash_variant is None)
        && no_feet(s.actions) {
        lemma_no_feet(s.actions);
        lemma_plain(s.actions, 32, l);
        lemma_plain(s.actions, 33, r);
        lemma_base(s.actions, 0);
        lemma_base(s.actions, 4);
    }
}

proof fn lemma_base(actions: Seq<ActionModel>, base: u32)
    requires
        forall|j: int| 0 <= j < actions.len() ==> (#[trigger] actions[j]).dash_variant is None,
    ensures
        first_base(actions, base) == first_plain(actions, base),
    decreases actions.len(),
{
    if actions.len() > 0 {
        let t = actions.drop_first();
        assert(actions[0].dash_variant is None);
        assert forall|j: int| 0 <= j < t.len() implies (#[trigger] t[j]).dash_variant is None by {
            assert(t[j] == actions[j + 1]);
        }
        lemma_base(t, base);
    }
}

} // verus!

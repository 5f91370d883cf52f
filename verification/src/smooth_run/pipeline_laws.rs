//! What a table as a whole gives its sprites.

use super::classify::roles_of;
use super::extract::{run_pair_rated, run_pairs};
use super::extract_laws::law_each_sprite_has_its_own;
use super::classify_laws::law_every_sprite_has_a_role;
use super::pair_laws::{
    distinct_numbers, law_own_frames_stay, law_reached_sprites_run, law_the_only_source_is_taken,
    names, part, shares_images,
};
use super::pipeline::pairs_of;
use super::types::{SpriteFileModel, SpriteRole};
use vstd::prelude::*;

verus! {

/// A sprite that runs and has a run animation keeps it, and hands it on to every walking
/// sprite with its image file and to the one that it names.
pub proof fn law_run_animations_are_handed_on(sf: SpriteFileModel, r: int, w: int)
    requires
        distinct_numbers(sf.sprites),
        0 <= r < sf.sprites.len(),
        0 <= w < sf.sprites.len(),
        roles_of(sf.sprites)[sf.sprites[r].sid] == SpriteRole::Run,
        run_pair_rated(sf.sprites[r], SpriteRole::Run) is Some,
    ensures
        ({
            let p = run_pair_rated(sf.sprites[r], SpriteRole::Run)->0;
            let role = roles_of(sf.sprites)[sf.sprites[w].sid];
            let reaches = (role == SpriteRole::Walk || role == SpriteRole::Both) && (
            shares_images(sf.sprites[r], sf.sprites[w]) || names(sf.sprites[r], sf.sprites[w]));
            let pairs = pairs_of(sf);
            &&& pairs.contains_key(sf.sprites[r].sid) && pairs[sf.sprites[r].sid] == p
            &&& reaches ==> pairs.contains_key(sf.sprites[w].sid)
            &&& reaches ==> forall|f: int|
                part(p, f) is Some ==> (#[trigger] part(pairs[sf.sprites[w].sid], f)) is Some
        }),
{
    let roles = roles_of(sf.sprites);
    let n = sf.sprites.len();
    let runs = run_pairs(sf.sprites, roles, n);
    law_every_sprite_has_a_role(sf.sprites, r);
    law_every_sprite_has_a_role(sf.sprites, w);
    law_each_sprite_has_its_own(sf.sprites, roles, n, r);
    law_own_frames_stay(sf.sprites, roles, runs, r);
    let role = roles[sf.sprites[w].sid];
    if (role == SpriteRole::Walk || role == SpriteRole::Both) && (shares_images(
        sf.sprites[r],
        sf.sprites[w],
    ) || names(sf.sprites[r], sf.sprites[w])) {
        law_reached_sprites_run(sf.sprites, roles, runs, r, w);
    }
}

/// A walking sprite without a run animation of its own that no other running sprite
/// reaches has exactly that of the one that does.
pub proof fn law_one_running_sprite(sf: SpriteFileModel, r: int, w: int)
    requires
        distinct_numbers(sf.sprites),
        0 <= r < sf.sprites.len(),
        0 <= w < sf.sprites.len(),
        roles_of(sf.sprites)[sf.sprites[r].sid] == SpriteRole::Run,
        run_pair_rated(sf.sprites[r], SpriteRole::Run) is Some,
        roles_of(sf.sprites)[sf.sprites[w].sid] == SpriteRole::Walk,
        shares_images(sf.sprites[r], sf.sprites[w]) || names(sf.sprites[r], sf.sprites[w]),
        forall|o: int|
            0 <= o < sf.sprites.len() && o != r && roles_of(sf.sprites)[(
            #[trigger] sf.sprites[o]).sid] == SpriteRole::Run ==> !shares_images(
                sf.sprites[o],
                sf.sprites[w],
            ) && !names(sf.sprites[o], sf.sprites[w]),
    ensures
        pairs_of(sf).contains_key(sf.sprites[w].sid),
        Some(pairs_of(sf)[sf.sprites[w].sid]) == run_pair_rated(sf.sprites[r], SpriteRole::Run),
{
    let roles = roles_of(sf.sprites);
    let n = sf.sprites.len();
    let runs = run_pairs(sf.sprites, roles, n);
    law_every_sprite_has_a_role(sf.sprites, r);
    law_every_sprite_has_a_role(sf.sprites, w);
    law_each_sprite_has_its_own(sf.sprites, roles, n, r);
    law_the_only_source_is_taken(sf.sprites, roles, runs, r, w);
}

} // verus!

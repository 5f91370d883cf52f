//! The whole conversion, from text to text.

use super::classify::{classify, roles_of};
use super::emit::{emit, emitted};
use super::extract::{extract, run_pairs};
use super::helpers::VariantInfo;
use super::pair::{pair_walks_to_runs, paired};
use super::parse::{parse, parsed};
use super::types::{pair_models, RunPairModel, SpriteFileModel};
use vstd::prelude::*;

verus! {

/// What the sprites of a table run with.
pub open spec fn pairs_of(sf: SpriteFileModel) -> Map<u16, RunPairModel> {
    let roles = roles_of(sf.sprites);
    paired(sf.sprites, roles, run_pairs(sf.sprites, roles, sf.sprites.len()))
}

/// Converts a sprite table.
pub fn process_variant_lines_pipeline(text: &str) -> (r: (String, VariantInfo))
    ensures
        r.0@ == emitted(parsed(text@), pairs_of(parsed(text@))),
        r.1.converted_count == pairs_of(parsed(text@)).dom().len(),
        r.1.walk_sprites@.len() == 0,
        r.1.run_sprites@.len() == 0,
        r.1.run_actions@ == Set::<u8>::empty(),
        r.1.walk_count == 0,
        r.1.run_count == 0,
{
    let sf = parse(text);
    let roles = classify(&sf);
    let runs = extract(&sf, &roles);
    let walk_to_run = pair_walks_to_runs(&sf, &roles, &runs);
    proof {
        assert(pair_models(walk_to_run@).dom() == walk_to_run@.dom());
    }
    emit(&sf, &walk_to_run)
}

} // verus!

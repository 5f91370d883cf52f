//! Preparing a sprite table for the smooth-run feature: the table is parsed,
//! its sprites are classified, run animations are extracted and matched with
//! walking sprites, and the table is written out again with the run frames in
//! the slots 98 and 99.

pub mod classify;
pub mod classify_laws;
pub mod emit;
pub mod emit_laws;
pub mod extract;
pub mod extract_laws;
pub mod helpers;
pub mod laws;
pub mod line_laws;
pub mod pair;
pub mod pair_laws;
pub mod parse;
pub mod pipeline;
pub mod pipeline_laws;
pub mod types;

use helpers::VariantInfo;
use vstd::prelude::*;

verus! {

/// Converts a sprite table: dash variants and actions from 121 on are left out,
/// and sprites that can run get the slots 98 and 99.
pub fn process_variant_lines(text: &str) -> (r: (String, VariantInfo))
    ensures
        r.0@ == emit::emitted(parse::parsed(text@), pipeline::pairs_of(parse::parsed(text@))),
        r.1.converted_count == pipeline::pairs_of(parse::parsed(text@)).dom().len(),
        r.1.walk_sprites@.len() == 0,
        r.1.run_sprites@.len() == 0,
        r.1.run_actions@ == Set::<u8>::empty(),
        r.1.walk_count == 0,
        r.1.run_count == 0,
{
    pipeline::process_variant_lines_pipeline(text)
}

/// The same conversion, under the name of what it takes out.
pub fn strip_variant_lines(text: &str) -> (r: (String, VariantInfo))
    ensures
        r.0@ == emit::emitted(parse::parsed(text@), pipeline::pairs_of(parse::parsed(text@))),
        r.1.converted_count == pipeline::pairs_of(parse::parsed(text@)).dom().len(),
        r.1.walk_sprites@.len() == 0,
        r.1.run_sprites@.len() == 0,
        r.1.run_actions@ == Set::<u8>::empty(),
        r.1.walk_count == 0,
        r.1.run_count == 0,
{
    process_variant_lines(text)
}

} // verus!

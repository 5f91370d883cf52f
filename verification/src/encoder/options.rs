//! What the encoder offers and what it fixes.

use vstd::prelude::*;
use crate::legacy_text::TextEncodingMode;
use crate::paths::{file_stem, has_extension, sibling};
#[allow(unused_imports)]
use crate::paths::{beside, file_name_of, has_extension_of, stem_of};
use crate::server_list::config::{normalize_aux_config, AuxConfig};
#[allow(unused_imports)]
use crate::server_list::config::normalized;
use crate::server_list::info::ServerInfo;
#[allow(unused_imports)]
use crate::server_list::info::ServerModel;
use crate::text::{chars_of, joined, own, string_of, trim};
#[allow(unused_imports)]
use crate::text::{texts, trim_of};

verus! {

/// Switches off what has no function any more.
pub fn normalize_encoder_aux_options(aux: AuxConfig) -> (r: AuxConfig)
    ensures
        r == normalized(aux),
{
    normalize_aux_config(aux)
}

/// A server without the options that clients no longer have.
pub open spec fn locked(m: ServerModel) -> ServerModel {
    ServerModel { usehelper: false, usebd: false, bdfile: seq![], ..m }
}

/// Takes the options off a server that clients no longer have.
pub fn lock_encoder_server_options(server: ServerInfo) -> (r: ServerInfo)
    ensures
        r@ == locked(server@),
{
    let mut s = server;
    s.usehelper = false;
    s.usebd = false;
    s.bdfile = String::new();
    s
}

/// The versions of the client whose sprite tables can be packed.
pub fn morph_version_options() -> (r: Vec<String>)
    ensures
        texts(r@) == seq!["TW13081901"@],
{
    let mut out: Vec<String> = Vec::new();
    out.push(own("TW13081901"));
    assert(texts(out@) == seq!["TW13081901"@]);
    out
}

/// Whether statements can be made of a sprite table.
pub fn morph_sql_button_enabled() -> (r: bool)
    ensures
        r,
{
    true
}

/// Whether a file is offered as a packed sprite table: by its extension alone.
pub fn is_selectable_morph_pak_path(path: &str) -> (r: bool)
    ensures
        r == has_extension_of(path@, "pak"@),
{
    has_extension(path, "pak")
}

/// Where the statements are written: beside the encoder.
pub fn spr_action_sql_output_path_for_exe(exe_path: Option<&str>) -> (r: String)
    ensures
        r@ == beside(
            match exe_path {
                Some(p) => Some(p@),
                None => None,
            },
            "spr_action.sql"@,
        ),
{
    sibling(exe_path, "spr_action.sql")
}

/// Where a file of the encoder lies: beside it.
pub fn sibling_output_path_for_exe(exe_path: Option<&str>, name: &str) -> (r: String)
    ensures
        r@ == beside(
            match exe_path {
                Some(p) => Some(p@),
                None => None,
            },
            name@,
        ),
{
    sibling(exe_path, name)
}

/// The encoding that stands at an index of the choice.
pub open spec fn mode_at(selection: Option<usize>) -> TextEncodingMode {
    match selection {
        Some(i) => if i == 0 {
            TextEncodingMode::Big5
        } else {
            TextEncodingMode::Gbk
        },
        None => TextEncodingMode::Big5,
    }
}

/// The encoding that was chosen.
pub fn selected_text_encoding_mode(selection: Option<usize>) -> (r: TextEncodingMode)
    ensures
        r == mode_at(selection),
{
    match selection {
        Some(i) => if i == 0 {
            TextEncodingMode::Big5
        } else {
            TextEncodingMode::Gbk
        },
        None => TextEncodingMode::Big5,
    }
}

/// Where an encoding stands in the choice.
pub open spec fn mode_index(mode: TextEncodingMode) -> usize {
    match mode {
        TextEncodingMode::Big5 => 0,
        TextEncodingMode::Auto => 1,
        TextEncodingMode::Gbk => 1,
    }
}

/// Where an encoding stands in the choice.
pub fn text_encoding_mode_index(mode: TextEncodingMode) -> (r: usize)
    ensures
        r == mode_index(mode),
{
    match mode {
        TextEncodingMode::Big5 => 0,
        TextEncodingMode::Auto => 1,
        TextEncodingMode::Gbk => 1,
    }
}

/// The name of the packed file of a table.
pub open spec fn packed_name(source: Seq<char>) -> Seq<char> {
    match file_name_of(source) {
        Some(n) => stem_of(n) + ".pak"@,
        None => "morph.pak"@,
    }
}

/// The name of the packed file of a table.
pub fn morph_output_name(source: &str) -> (r: String)
    ensures
        r@ == packed_name(source@),
{
    match file_stem(source) {
        Some(s) => joined(s.as_str(), ".pak"),
        None => own("morph.pak"),
    }
}

/// Whether statements are made of the file whose path was typed; otherwise one is
/// asked for.
pub fn takes_typed_table(typed: &str, is_there: bool) -> (r: bool)
    ensures
        r == (trim_of(typed@).len() > 0 && is_there && has_extension_of(trim_of(typed@), "txt"@)),
{
    let cs = chars_of(typed);
    let t = string_of(trim(cs.as_slice()));
    chars_of(t.as_str()).len() > 0 && is_there && has_extension(t.as_str(), "txt")
}

} // verus!

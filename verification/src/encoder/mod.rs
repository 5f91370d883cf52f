//! The encoder: it writes the server list, the settings and packed sprite tables.

pub mod commands;
pub mod form;
pub mod laws;
pub mod options;
pub mod pak;

pub use crate::encoder::commands::{
    command_of, describe_servers, gen_list, parse_gen_args, parse_morph_args, CmdError, Command,
    GenArgs, MorphArgs,
};
pub use crate::encoder::form::{
    apply_aux, apply_key, collect_aux, fill_form, fill_slots, flush_form, init_servers, save_list,
};
pub use crate::encoder::options::{
    is_selectable_morph_pak_path, lock_encoder_server_options, morph_sql_button_enabled,
    morph_version_options, normalize_encoder_aux_options, sibling_output_path_for_exe,
    spr_action_sql_output_path_for_exe,
};
pub use crate::encoder::pak::{
    encode_morph_to_pak, gen_random_key, is_our_morph_pak, key_from_nanos,
    prepare_morph_plaintext, validate_morph_source_path, EncodeError, EncodeStat, EncodedPak,
};

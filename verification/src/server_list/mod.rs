//! The server list and the launcher's settings.

pub mod cipher;
pub mod config;
pub mod form_laws;
pub mod info;
pub mod laws;
pub mod list;
pub mod read_back;
pub mod value_laws;

pub use crate::server_list::cipher::{
    build_xor_table, config_decrypt, config_encrypt, SERVER_LIST_KEY,
};
pub use crate::server_list::config::{
    normalize_aux_config, parse_bool, parse_u32_clamped, AuxConfig, LauncherConfig, ListFile,
    DEFAULT_IMG_LIMIT_VALUE, DEFAULT_INVENTORY_LIMIT_VALUE, MAX_IMG_LIMIT_VALUE,
    MAX_INVENTORY_LIMIT_VALUE, MIN_IMG_LIMIT_VALUE, MIN_INVENTORY_LIMIT_VALUE,
};
pub use crate::server_list::info::{
    decode_ascii_z, decode_utf16_z, ListError, ServerInfo, SIZEOF_SERVER_INFO,
};
pub use crate::server_list::list::{
    build_list_file, build_list_txt, decrypt_config_text, encrypt_config_text, parse_list_file,
    parse_list_txt, MAX_SERVERS,
};

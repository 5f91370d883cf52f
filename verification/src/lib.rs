//! The launcher's logic as verified functions over plain values.

pub mod base64_text;
pub mod block_cipher;
pub mod code;
pub mod coding_laws;
pub mod config;
pub mod encoder;
pub mod equip_ui;
pub mod gui;
pub mod hook;
pub mod hook_laws;
pub mod http;
pub mod i18n;
pub mod ime_inject;
pub mod img_hover;
pub mod inject;
pub mod legacy_laws;
pub mod legacy_text;
pub mod lineage_cfg;
pub mod lineage_cfg_laws;
pub mod logger;
pub mod logger_laws;
pub mod login;
pub mod memory;
pub mod morph_auth;
pub mod names;
pub mod names_laws;
pub mod order;
pub mod packet_proxy;
pub mod patch;
pub mod paths;
pub mod paths_laws;
pub mod primes;
pub mod process;
pub mod rsa32;
pub mod server_list;
pub mod smooth_run;
pub mod smooth_run_hook;
pub mod spr_action_laws;
pub mod spr_action_sql;
pub mod startup_hook;
pub mod text;
pub mod text_laws;
pub mod unicode;
pub mod zlib;

//! The settings and servers that the window works with.

use vstd::prelude::*;
use crate::server_list::config::ListFile;
#[allow(unused_imports)]
use crate::server_list::config::{
    default_aux, default_launcher, server_models, ListModel,
};
use crate::server_list::info::ServerInfo;
#[allow(unused_imports)]
use crate::server_list::info::ServerModel;
use crate::server_list::list::{decrypt_config_text, parse_list_file, parse_list_txt};
#[allow(unused_imports)]
use crate::server_list::list::{opened, parsed_list};
use crate::text::{chars_of, decimal_chars, push_all, push_str, string_of};
#[allow(unused_imports)]
use crate::text::decimal;

verus! {

/// How long a server is waited for, in milliseconds.
pub const PROBE_TIMEOUT_MS: u64 = 1500;

/// The settings of a text that keeps them; those without any setting, where the
/// text cannot be read as settings.
pub open spec fn settings_of(raw: Option<Seq<char>>) -> ListModel {
    let none = ListModel { servers: seq![], aux: default_aux(), launcher: default_launcher() };
    match raw {
        Some(s) => match opened(s) {
            Ok(plain) => match parsed_list(plain) {
                Ok(m) => m,
                Err(_) => none,
            },
            Err(_) => none,
        },
        None => none,
    }
}

/// The settings with the servers of a list in place of their own, where the list
/// has any.
pub open spec fn with_list(m: ListModel, list: Option<Seq<char>>) -> ListModel {
    match list {
        Some(s) => match parsed_list(s) {
            Ok(l) => if l.servers.len() > 0 {
                ListModel { servers: l.servers, ..m }
            } else {
                m
            },
            Err(_) => m,
        },
        None => m,
    }
}

/// The settings and servers, from the texts of `config.ini` and `list.txt` as far
/// as they can be read.
pub fn load_list_file(config: Option<&str>, list: Option<&str>) -> (r: ListFile)
    ensures
        r@ == with_list(
            settings_of(
                match config {
                    Some(s) => Some(s@),
                    None => None,
                },
            ),
            match list {
                Some(s) => Some(s@),
                None => None,
            },
        ),
{
    let mut file = match config {
        Some(raw) => match decrypt_config_text(raw) {
            Ok(plain) => match parse_list_file(plain.as_str()) {
                Ok(f) => f,
                Err(_) => ListFile::default(),
            },
            Err(_) => ListFile::default(),
        },
        None => ListFile::default(),
    };
    match list {
        Some(text) => match parse_list_txt(text) {
            Ok(servers) => {
                assert(server_models(servers@).len() == servers@.len());
                if servers.len() > 0 {
                    file.servers = servers;
                }
            },
            Err(_) => {},
        },
        None => {},
    }
    file
}

/// A server that is tried: one in use with an address and a port.
pub open spec fn is_tried(m: ServerModel) -> bool {
    m.used && m.ip.len() > 0 && m.port > 0
}

/// Where a server is tried; nowhere, where it counts as off without a try.
pub open spec fn probe_address(m: ServerModel) -> Option<Seq<char>> {
    if is_tried(m) {
        Some(m.ip + ":"@ + decimal((m.port % 65536) as nat))
    } else {
        None
    }
}

/// Where a server is tried; nowhere, where it counts as off without a try.
pub fn probe_target(server: &ServerInfo) -> (r: Option<String>)
    ensures
        match probe_address(server@) {
            Some(a) => r matches Some(s) && s@ == a,
            None => r is None,
        },
{
    let ip = chars_of(server.ip.as_str());
    if !server.used || ip.len() == 0 || server.port <= 0 {
        return None;
    }
    let port: u32 = server.port as u32 % 65536;
    let mut out = ip;
    push_str(&mut out, ":");
    push_all(&mut out, decimal_chars(port as u64).as_slice());
    Some(string_of(out.as_slice()))
}

} // verus!

//! The texts of the server list and of the settings.

use vstd::prelude::*;
use vstd::slice::slice_subrange;
#[allow(unused_imports)]
use vstd::utf8::{decode_utf8, encode_utf8, valid_utf8};
use crate::base64_text::{decode, encode};
#[allow(unused_imports)]
use crate::base64_text::{base64_of, law_base64_injective};
use crate::code::emit;
#[allow(unused_imports)]
use crate::legacy_text::mode_name;
use crate::server_list::cipher::{config_decrypt, config_encrypt, SERVER_LIST_KEY};
#[allow(unused_imports)]
use crate::server_list::cipher::{decrypted, encrypted};
use crate::server_list::config::{
    normalize_aux_config, set_aux, set_launcher, AuxConfig, LauncherConfig, ListFile,
};
#[allow(unused_imports)]
use crate::server_list::config::{
    aux_with, default_aux, default_launcher, launcher_with, normalized, server_models,
    LauncherModel, ListModel,
};
use crate::server_list::info::{ListError, ServerInfo, SIZEOF_SERVER_INFO};
#[allow(unused_imports)]
use crate::server_list::info::{info_bytes, parsed_info, ServerModel};
#[allow(unused_imports)]
use crate::server_list::laws::fits;
#[allow(unused_imports)]
use crate::server_list::read_back::lemma_servers_read_back;
use crate::text::{
    ascii_lower, chars_of, decimal_chars, eq_str, is_whitespace, lines, own, push_all, push_str,
    split_once, starts_with, string_of, trim, trim_start,
};
#[allow(unused_imports)]
use crate::text::{
    ascii_lower_of, decimal, is_space, lines_of, rows, split_once_of, trim_of, trim_start_of,
};
use crate::unicode::{read_utf8, utf8_bytes};

verus! {

/// How many servers a list holds at most.
pub const MAX_SERVERS: usize = 8;

/// The bytes of base64, where a text is any.
pub open spec fn base64_bytes(s: Seq<char>) -> Option<Seq<u8>> {
    if exists|v: Seq<u8>| s == base64_of(v) {
        Some(choose|v: Seq<u8>| s == base64_of(v))
    } else {
        None
    }
}

/// A text that is base64 stands for the bytes that it is the base64 of.
pub proof fn lemma_base64_bytes(v: Seq<u8>)
    ensures
        base64_bytes(base64_of(v)) == Some(v),
{
    let s = base64_of(v);
    let w = choose|w: Seq<u8>| s == base64_of(w);
    assert(s == base64_of(v));
    law_base64_injective(v, w);
}

/// What has been read of a list.
pub struct ListState {
    pub section: Vec<char>,
    pub servers: Vec<ServerInfo>,
    pub aux: AuxConfig,
    pub launcher: LauncherConfig,
}

/// What has been read of a list.
#[verifier::ext_equal]
pub struct StateModel {
    pub section: Seq<char>,
    pub servers: Seq<ServerModel>,
    pub aux: AuxConfig,
    pub launcher: LauncherModel,
}

impl View for ListState {
    type V = StateModel;

    open spec fn view(&self) -> StateModel {
        StateModel {
            section: self.section@,
            servers: server_models(self.servers@),
            aux: self.aux,
            launcher: self.launcher@,
        }
    }
}

/// What is known before anything has been read.
pub open spec fn start_state() -> StateModel {
    StateModel {
        section: seq![],
        servers: seq![],
        aux: default_aux(),
        launcher: default_launcher(),
    }
}

/// What is known after a setting of the current section. The key, where its
/// value is a server and no base64.
pub open spec fn set_in_section(st: StateModel, key: Seq<char>, value: Seq<char>) -> Result<
    StateModel,
    Seq<char>,
> {
    if st.section == "list"@ {
        if !"serverdata"@.is_prefix_of(key) {
            Ok(st)
        } else {
            match base64_bytes(value) {
                None => Err(key),
                Some(raw) => if raw.len() < SIZEOF_SERVER_INFO {
                    Ok(st)
                } else {
                    Ok(
                        StateModel {
                            servers: st.servers.push(
                                parsed_info(decrypted(SERVER_LIST_KEY@, raw)),
                            ),
                            ..st
                        },
                    )
                },
            }
        }
    } else if st.section == "aux"@ {
        Ok(StateModel { aux: aux_with(st.aux, key, value), ..st })
    } else if st.section == "launcher"@ {
        Ok(StateModel { launcher: launcher_with(st.launcher, key, value), ..st })
    } else {
        Ok(st)
    }
}

/// What is known after one more line: a comment changes nothing, a name in
/// brackets opens a section, and a setting goes to the current section.
pub open spec fn after_line(st: StateModel, line: Seq<char>) -> Result<StateModel, Seq<char>> {
    let t = trim_of(line);
    if t.len() == 0 || t[0] == ';' || t[0] == '#' {
        Ok(st)
    } else if t[0] == '[' && t.last() == ']' {
        Ok(StateModel { section: ascii_lower_of(t.subrange(1, t.len() - 1)), ..st })
    } else {
        match split_once_of(t, '=') {
            None => Ok(st),
            Some(p) => set_in_section(st, ascii_lower_of(trim_of(p.0)), trim_of(p.1)),
        }
    }
}

/// What is known after the first `k` lines.
pub open spec fn after_lines(lines: Seq<Seq<char>>, k: nat) -> Result<StateModel, Seq<char>>
    decreases k,
{
    if k == 0 {
        Ok(start_state())
    } else {
        match after_lines(lines, (k - 1) as nat) {
            Ok(st) => after_line(st, lines[k - 1]),
            Err(e) => Err(e),
        }
    }
}

/// The servers and settings of a text. The first key whose value is a server and
/// no base64, where there is one.
pub open spec fn parsed_list(content: Seq<char>) -> Result<ListModel, Seq<char>> {
    let lines = lines_of(content);
    match after_lines(lines, lines.len()) {
        Ok(st) => Ok(
            ListModel { servers: st.servers, aux: normalized(st.aux), launcher: st.launcher },
        ),
        Err(e) => Err(e),
    }
}

fn push_server(st: &mut ListState, info: ServerInfo)
    ensures
        final(st)@ == (StateModel { servers: old(st)@.servers.push(info@), ..old(st)@ }),
{
    let ghost before = server_models(st.servers@);
    st.servers.push(info);
    assert(server_models(st.servers@) == before.push(info@));
}

/// Takes a setting of the current section. The key is handed back where its
/// value is a server and no base64.
fn set_key(st: &mut ListState, key: &[char], value: &[char]) -> (r: Option<String>)
    ensures
        match set_in_section(old(st)@, key@, value@) {
            Ok(s) => r is None && final(st)@ == s,
            Err(k) => r matches Some(e) && e@ == k,
        },
{
    if eq_str(st.section.as_slice(), "list") {
        if !starts_with(key, "serverdata") {
            return None;
        }
        let text = string_of(value);
        match decode(text.as_str()) {
            None => {
                return Some(string_of(key));
            },
            Some(raw) => {
                proof {
                    lemma_base64_bytes(raw@);
                }
                let mut buf = raw;
                if buf.len() < SIZEOF_SERVER_INFO {
                    return None;
                }
                config_decrypt(&SERVER_LIST_KEY, buf.as_mut_slice());
                match ServerInfo::from_bytes(buf.as_slice()) {
                    Ok(info) => push_server(st, info),
                    Err(_) => {},
                }
                return None;
            },
        }
    }
    if eq_str(st.section.as_slice(), "aux") {
        set_aux(&mut st.aux, key, value);
    } else if eq_str(st.section.as_slice(), "launcher") {
        set_launcher(&mut st.launcher, key, value);
    }
    None
}

/// Takes one more line.
fn take_line(st: &mut ListState, line: &[char]) -> (r: Option<String>)
    ensures
        match after_line(old(st)@, line@) {
            Ok(s) => r is None && final(st)@ == s,
            Err(k) => r matches Some(e) && e@ == k,
        },
{
    let t = trim(line);
    let n: usize = t.len();
    if n == 0 || t[0] == ';' || t[0] == '#' {
        return None;
    }
    if t[0] == '[' && t[n - 1] == ']' {
        let name = slice_subrange(t, 1, n - 1);
        assert(name@ == t@.subrange(1, t@.len() - 1));
        st.section = ascii_lower(name);
        return None;
    }
    match split_once(t, '=') {
        None => None,
        Some(p) => set_key(st, ascii_lower(trim(p.0)).as_slice(), trim(p.1)),
    }
}

/// The servers and settings of a text.
pub fn parse_list_file(content: &str) -> (r: Result<ListFile, ListError>)
    ensures
        match parsed_list(content@) {
            Ok(m) => r matches Ok(f) && f@ == m,
            Err(k) => r matches Err(ListError::Base64(e)) && e@ == k,
        },
{
    let text = lines(chars_of(content).as_slice());
    let mut st = ListState {
        section: Vec::new(),
        servers: Vec::new(),
        aux: AuxConfig::default(),
        launcher: LauncherConfig::default(),
    };
    assert(server_models(st.servers@) == Seq::<ServerModel>::empty());
    assert(st@ == start_state());
    let mut i: usize = 0;
    while i < text.len()
        invariant
            i <= text@.len(),
            rows(text@) == lines_of(content@),
            after_lines(lines_of(content@), i as nat) == Ok::<StateModel, Seq<char>>(st@),
        decreases text@.len() - i,
    {
        assert(rows(text@)[i as int] == text@[i as int]@);
        match take_line(&mut st, text[i].as_slice()) {
            None => {},
            Some(key) => {
                proof {
                    lemma_error_stays(lines_of(content@), (i + 1) as nat, text@.len());
                }
                return Err(ListError::Base64(key));
            },
        }
        i += 1;
    }
    assert(rows(text@).len() == text@.len());
    Ok(
        ListFile {
            servers: st.servers,
            aux: normalize_aux_config(st.aux),
            launcher: st.launcher,
        },
    )
}

proof fn lemma_error_stays(lines: Seq<Seq<char>>, k: nat, n: nat)
    requires
        k <= n,
        after_lines(lines, k) is Err,
    ensures
        after_lines(lines, n) == after_lines(lines, k),
    decreases n,
{
    if k < n {
        lemma_error_stays(lines, k, (n - 1) as nat);
    }
}

/// The servers of a text.
pub fn parse_list_txt(content: &str) -> (r: Result<Vec<ServerInfo>, ListError>)
    ensures
        match parsed_list(content@) {
            Ok(m) => r matches Ok(v) && server_models(v@) == m.servers,
            Err(k) => r matches Err(ListError::Base64(e)) && e@ == k,
        },
{
    match parse_list_file(content) {
        Ok(f) => Ok(f.servers),
        Err(e) => Err(e),
    }
}

/// The line of the i-th server.
pub open spec fn server_line(i: nat, m: ServerModel) -> Seq<char> {
    "ServerData"@ + decimal(i) + "="@ + base64_of(encrypted(SERVER_LIST_KEY@, info_bytes(m)))
        + "\n"@
}

/// The lines of the first `k` servers.
pub open spec fn server_lines(servers: Seq<ServerModel>, k: nat) -> Seq<char>
    decreases k,
{
    if k == 0 {
        seq![]
    } else {
        server_lines(servers, (k - 1) as nat) + server_line((k - 1) as nat, servers[k - 1])
    }
}

/// The text of a server list.
pub open spec fn list_text(servers: Seq<ServerModel>) -> Seq<char> {
    "[list]\n"@ + server_lines(servers, servers.len())
}

/// The stored bytes of a server, which give the server's bytes back.
fn sealed(srv: &ServerInfo) -> (r: Vec<u8>)
    ensures
        r@ == encrypted(SERVER_LIST_KEY@, info_bytes(srv@)),
        r@.len() == 213,
        decrypted(SERVER_LIST_KEY@, r@) == info_bytes(srv@),
{
    let bytes = srv.to_bytes();
    let mut buf: Vec<u8> = Vec::new();
    emit(&mut buf, &bytes);
    assert(buf@ == info_bytes(srv@));
    config_encrypt(&SERVER_LIST_KEY, buf.as_mut_slice());
    buf
}

/// What was stored of the servers gives their bytes back.
pub open spec fn recoverable(servers: Seq<ServerModel>) -> bool {
    forall|i: int| #![trigger servers[i]]
        0 <= i < servers.len() ==> {
            let stored = encrypted(SERVER_LIST_KEY@, info_bytes(servers[i]));
            &&& stored.len() == 213
            &&& decrypted(SERVER_LIST_KEY@, stored) == info_bytes(servers[i])
        }
}

/// The text of a server list of at most eight servers. Reading it gives back
/// servers whose texts fit into their fields.
pub fn build_list_txt(servers: &[ServerInfo]) -> (r: Result<String, ListError>)
    ensures
        match r {
            Ok(s) => {
                &&& servers@.len() <= MAX_SERVERS
                &&& s@ == list_text(server_models(servers@))
                &&& recoverable(server_models(servers@))
                &&& (forall|i: int| 0 <= i < servers@.len() ==> fits(#[trigger] servers@[i]@))
                    ==> parsed_list(s@) == Ok::<ListModel, Seq<char>>(
                    ListModel {
                        servers: server_models(servers@),
                        aux: default_aux(),
                        launcher: default_launcher(),
                    },
                )
            },
            Err(ListError::TooMany(n)) => servers@.len() > MAX_SERVERS && n == servers@.len(),
            Err(_) => false,
        },
{
    let n: usize = servers.len();
    if n > MAX_SERVERS {
        return Err(ListError::TooMany(n));
    }
    let ghost models = server_models(servers@);
    let mut out = chars_of("[list]\n");
    let mut i: usize = 0;
    assert("[list]\n"@ + server_lines(models, 0) == "[list]\n"@);
    while i < n
        invariant
            i <= n,
            n == servers@.len(),
            n == servers.len(),
            models == server_models(servers@),
            out@ == "[list]\n"@ + server_lines(models, i as nat),
            forall|k: int| #![trigger models[k]]
                0 <= k < i ==> {
                    let stored = encrypted(SERVER_LIST_KEY@, info_bytes(models[k]));
                    &&& stored.len() == 213
                    &&& decrypted(SERVER_LIST_KEY@, stored) == info_bytes(models[k])
                },
        decreases n - i,
    {
        let ghost before = out@;
        let buf = sealed(&servers[i]);
        let b64 = encode(buf.as_slice());
        push_str(&mut out, "ServerData");
        push_all(&mut out, decimal_chars(i as u64).as_slice());
        push_str(&mut out, "=");
        push_str(&mut out, b64.as_str());
        push_str(&mut out, "\n");
        proof {
            assert(models[i as int] == servers@[i as int]@);
            assert(out@ == before + server_line(i as nat, models[i as int]));
            assert(server_lines(models, (i + 1) as nat) == server_lines(models, i as nat)
                + server_line(i as nat, models[i as int]));
            assert(out@ == "[list]\n"@ + server_lines(models, (i + 1) as nat));
        }
        i += 1;
    }
    proof {
        if forall|i: int| 0 <= i < servers@.len() ==> fits(#[trigger] servers@[i]@) {
            assert forall|i: int| 0 <= i < models.len() implies fits(#[trigger] models[i]) by {
                assert(models[i] == servers@[i]@);
            }
            lemma_servers_read_back(models);
        }
    }
    Ok(string_of(out.as_slice()))
}

/// The text of a switch.
#[verifier::opaque]
pub open spec fn bool_text(b: bool) -> Seq<char> {
    if b {
        "true"@
    } else {
        "false"@
    }
}

/// The line of a setting.
pub open spec fn setting(key: Seq<char>, value: Seq<char>) -> Seq<char> {
    key + "="@ + value + "\n"@
}

/// The text of the switches.
pub open spec fn aux_text(a: AuxConfig) -> Seq<char> {
    "[aux]\n"@ + setting("packet_encrypt"@, bool_text(a.packet_encrypt)) + setting(
        "anti_cheat_basic"@,
        bool_text(a.anti_cheat_basic),
    ) + setting("anti_cheat_advanced"@, bool_text(a.anti_cheat_advanced)) + setting(
        "transform_file"@,
        bool_text(a.transform_file),
    ) + setting("multi_instance"@, bool_text(a.multi_instance)) + setting(
        "move_packet_no_encrypt"@,
        bool_text(a.move_packet_no_encrypt),
    ) + setting("lhx_aux_enabled"@, bool_text(a.lhx_aux_enabled)) + setting(
        "hp_mp_limit_enabled"@,
        bool_text(a.hp_mp_limit_enabled),
    ) + setting("inventory_limit_enabled"@, bool_text(a.inventory_limit_enabled)) + setting(
        "equip_ui_enabled"@,
        bool_text(a.equip_ui_enabled),
    ) + setting("img_limit_enabled"@, bool_text(a.img_limit_enabled)) + setting(
        "inventory_limit_value"@,
        decimal(a.inventory_limit_value as nat),
    ) + setting("img_limit_value"@, decimal(a.img_limit_value as nat)) + setting(
        "text_encoding"@,
        mode_name(a.text_encoding),
    ) + setting("dynamic_dialog_enabled"@, bool_text(a.dynamic_dialog_enabled)) + setting(
        "pickup_toast_enabled"@,
        bool_text(a.pickup_toast_enabled),
    ) + setting("exp_drift_enabled"@, bool_text(a.exp_drift_enabled))
}

/// The text of the launcher's configuration.
pub open spec fn launcher_text(l: LauncherModel) -> Seq<char> {
    "\n[launcher]\n"@ + setting("active_skin"@, l.active_skin) + setting(
        "announcement_enabled"@,
        bool_text(l.announcement_enabled),
    ) + setting("announcement_url"@, l.announcement_url) + setting(
        "list_update_enabled"@,
        bool_text(l.list_update_enabled),
    ) + setting("list_update_url"@, l.list_update_url) + setting(
        "auto_update_enabled"@,
        bool_text(l.auto_update_enabled),
    ) + setting("auto_update_url"@, l.auto_update_url) + setting("official_url"@, l.official_url)
        + setting("customer_service_url"@, l.customer_service_url)
}

fn bool_str(b: bool) -> (r: &'static str)
    ensures
        r@ == bool_text(b),
{
    reveal(bool_text);
    if b {
        "true"
    } else {
        "false"
    }
}

fn put(out: &mut Vec<char>, key: &str, value: &str)
    ensures
        final(out)@ == old(out)@ + setting(key@, value@),
{
    let ghost start = out@;
    push_str(out, key);
    push_str(out, "=");
    push_str(out, value);
    push_str(out, "\n");
    assert(out@ == start + setting(key@, value@));
}

fn put_number(out: &mut Vec<char>, key: &str, value: u32)
    ensures
        final(out)@ == old(out)@ + setting(key@, decimal(value as nat)),
{
    let ghost start = out@;
    push_str(out, key);
    push_str(out, "=");
    push_all(out, decimal_chars(value as u64).as_slice());
    push_str(out, "\n");
    assert(out@ == start + setting(key@, decimal(value as nat)));
}

fn put_aux(a: &AuxConfig) -> (r: Vec<char>)
    ensures
        r@ == aux_text(*a),
{
    let mut out = chars_of("[aux]\n");
    put(&mut out, "packet_encrypt", bool_str(a.packet_encrypt));
    put(&mut out, "anti_cheat_basic", bool_str(a.anti_cheat_basic));
    put(&mut out, "anti_cheat_advanced", bool_str(a.anti_cheat_advanced));
    put(&mut out, "transform_file", bool_str(a.transform_file));
    put(&mut out, "multi_instance", bool_str(a.multi_instance));
    put(&mut out, "move_packet_no_encrypt", bool_str(a.move_packet_no_encrypt));
    put(&mut out, "lhx_aux_enabled", bool_str(a.lhx_aux_enabled));
    put(&mut out, "hp_mp_limit_enabled", bool_str(a.hp_mp_limit_enabled));
    put(&mut out, "inventory_limit_enabled", bool_str(a.inventory_limit_enabled));
    put(&mut out, "equip_ui_enabled", bool_str(a.equip_ui_enabled));
    put(&mut out, "img_limit_enabled", bool_str(a.img_limit_enabled));
    put_number(&mut out, "inventory_limit_value", a.inventory_limit_value);
    put_number(&mut out, "img_limit_value", a.img_limit_value);
    put(&mut out, "text_encoding", a.text_encoding.as_config_value());
    put(&mut out, "dynamic_dialog_enabled", bool_str(a.dynamic_dialog_enabled));
    put(&mut out, "pickup_toast_enabled", bool_str(a.pickup_toast_enabled));
    put(&mut out, "exp_drift_enabled", bool_str(a.exp_drift_enabled));
    out
}

fn put_launcher(l: &LauncherConfig) -> (r: Vec<char>)
    ensures
        r@ == launcher_text(l@),
{
    let mut out = chars_of("\n[launcher]\n");
    put(&mut out, "active_skin", l.active_skin.as_str());
    put(&mut out, "announcement_enabled", bool_str(l.announcement_enabled));
    put(&mut out, "announcement_url", l.announcement_url.as_str());
    put(&mut out, "list_update_enabled", bool_str(l.list_update_enabled));
    put(&mut out, "list_update_url", l.list_update_url.as_str());
    put(&mut out, "auto_update_enabled", bool_str(l.auto_update_enabled));
    put(&mut out, "auto_update_url", l.auto_update_url.as_str());
    put(&mut out, "official_url", l.official_url.as_str());
    put(&mut out, "customer_service_url", l.customer_service_url.as_str());
    out
}

/// The text of all settings, without the servers.
pub open spec fn settings_text(aux: AuxConfig, launcher: LauncherModel) -> Seq<char> {
    aux_text(normalized(aux)) + launcher_text(launcher)
}

/// The text of all settings, without the servers.
pub fn build_list_file(file: &ListFile) -> (r: Result<String, ListError>)
    ensures
        r matches Ok(s) && s@ == settings_text(file.aux, file.launcher@),
{
    let a = normalize_aux_config(file.aux);
    let mut out = put_aux(&a);
    let l = put_launcher(&file.launcher);
    push_all(&mut out, l.as_slice());
    Ok(string_of(out.as_slice()))
}

/// Settings as they are stored: `ENC1:`, base64 and a new line.
pub open spec fn sealed_text(s: Seq<char>) -> Seq<char> {
    "ENC1:"@ + base64_of(encrypted(SERVER_LIST_KEY@, encode_utf8(s))) + "\n"@
}

/// Settings as they are stored. They give the settings back, also with white space
/// in front of them or anywhere in the base64.
pub fn encrypt_config_text(plaintext: &str) -> (r: String)
    requires
        encode_utf8(plaintext@).len() <= usize::MAX / 8 * 3,
    ensures
        r@ == sealed_text(plaintext@),
        "ENC1:"@.is_prefix_of(r@),
        decrypted(SERVER_LIST_KEY@, encrypted(SERVER_LIST_KEY@, encode_utf8(plaintext@)))
            == encode_utf8(plaintext@),
        opened(r@) == Ok::<Seq<char>, ListError>(plaintext@),
        forall|front: Seq<char>, loose: Seq<char>|
            solid(front).len() == 0 && solid(loose) == solid(r@.skip(5)) ==> #[trigger] opened(
                front + "ENC1:"@ + loose,
            ) == Ok::<Seq<char>, ListError>(plaintext@),
{
    let mut buf = utf8_bytes(plaintext);
    config_encrypt(&SERVER_LIST_KEY, buf.as_mut_slice());
    let b64 = encode(buf.as_slice());
    let mut out = chars_of("ENC1:");
    push_str(&mut out, b64.as_str());
    push_str(&mut out, "\n");
    proof {
        lemma_opens(plaintext@);
        assert forall|front: Seq<char>, loose: Seq<char>|
            solid(front).len() == 0 && solid(loose) == solid(out@.skip(5)) implies #[trigger] opened(
            front + "ENC1:"@ + loose,
        ) == Ok::<Seq<char>, ListError>(plaintext@) by {
            lemma_opens_loose(plaintext@, front, loose);
        }
    }
    string_of(out.as_slice())
}

/// A text without its white space.
pub open spec fn solid(s: Seq<char>) -> Seq<char>
    decreases s.len(),
{
    if s.len() == 0 {
        seq![]
    } else if is_space(s.last()) {
        solid(s.drop_last())
    } else {
        solid(s.drop_last()).push(s.last())
    }
}

/// Stored settings: decrypted where they begin with `ENC1:`, as they are where
/// they begin with a bracket, and an error otherwise.
pub open spec fn opened(s: Seq<char>) -> Result<Seq<char>, ListError> {
    let t = trim_start_of(s);
    if "ENC1:"@.is_prefix_of(t) {
        match base64_bytes(solid(t.skip(5))) {
            None => Err(ListError::ConfigBase64),
            Some(raw) => {
                let plain = decrypted(SERVER_LIST_KEY@, raw);
                if valid_utf8(plain) {
                    Ok(decode_utf8(plain))
                } else {
                    Err(ListError::ConfigUtf8)
                }
            },
        }
    } else if t.len() > 0 && t[0] == '[' {
        Ok(s)
    } else {
        Err(ListError::ConfigFormat)
    }
}

fn solid_chars(s: &[char]) -> (r: Vec<char>)
    ensures
        r@ == solid(s@),
{
    let mut out: Vec<char> = Vec::new();
    let mut i: usize = 0;
    while i < s.len()
        invariant
            i <= s@.len(),
            s.len() == s@.len(),
            out@ == solid(s@.take(i as int)),
        decreases s@.len() - i,
    {
        proof {
            let done = s@.take(i + 1);
            assert(done.drop_last() == s@.take(i as int));
            assert(done.last() == s@[i as int]);
        }
        if !is_whitespace(s[i]) {
            out.push(s[i]);
        }
        i += 1;
    }
    assert(s@.take(i as int) == s@);
    out
}

/// Stored settings in plain text.
pub fn decrypt_config_text(content: &str) -> (r: Result<String, ListError>)
    ensures
        match opened(content@) {
            Ok(s) => r matches Ok(t) && t@ == s,
            Err(e) => r == Err::<String, ListError>(e),
        },
{
    let cs = chars_of(content);
    let t = trim_start(cs.as_slice());
    let n: usize = t.len();
    if starts_with(t, "ENC1:") {
        proof {
            reveal_strlit("ENC1:");
        }
        let rest = slice_subrange(t, 5, n);
        assert(rest@ == t@.skip(5));
        let b64 = string_of(solid_chars(rest).as_slice());
        match decode(b64.as_str()) {
            None => {
                return Err(ListError::ConfigBase64);
            },
            Some(raw) => {
                proof {
                    lemma_base64_bytes(raw@);
                }
                let mut buf = raw;
                config_decrypt(&SERVER_LIST_KEY, buf.as_mut_slice());
                return match read_utf8(buf.as_slice()) {
                    Some(s) => Ok(s),
                    None => Err(ListError::ConfigUtf8),
                };
            },
        }
    }
    if n > 0 && t[0] == '[' {
        return Ok(own(content));
    }
    Err(ListError::ConfigFormat)
}

proof fn lemma_solid(s: Seq<char>)
    requires
        forall|i: int| 0 <= i < s.len() ==> !is_space(#[trigger] s[i]),
    ensures
        solid(s) == s,
        solid(s + "\n"@) == s,
    decreases s.len(),
{
    reveal_strlit("\n");
    if s.len() > 0 {
        let rest = s.drop_last();
        assert forall|i: int| 0 <= i < rest.len() implies !is_space(#[trigger] rest[i]) by {
            assert(rest[i] == s[i]);
        }
        lemma_solid(rest);
        assert(!is_space(s[s.len() - 1]));
        assert(solid(s) == s);
    } else {
        assert(solid(s) == s);
    }
    let t = s + "\n"@;
    assert(t.last() == '\n');
    assert(t.drop_last() == s);
}

proof fn lemma_no_solid(s: Seq<char>)
    requires
        solid(s).len() == 0,
    ensures
        forall|i: int| 0 <= i < s.len() ==> is_space(#[trigger] s[i]),
    decreases s.len(),
{
    if s.len() > 0 {
        let rest = s.drop_last();
        lemma_no_solid(rest);
        assert forall|i: int| 0 <= i < s.len() implies is_space(#[trigger] s[i]) by {
            if i < rest.len() {
                assert(rest[i] == s[i]);
            }
        }
    }
}

proof fn lemma_trim_front(front: Seq<char>, t: Seq<char>)
    requires
        forall|i: int| 0 <= i < front.len() ==> is_space(#[trigger] front[i]),
        t.len() > 0,
        !is_space(t[0]),
    ensures
        trim_start_of(front + t) == t,
    decreases front.len(),
{
    let all = front + t;
    if front.len() > 0 {
        let rest = front.drop_first();
        assert forall|i: int| 0 <= i < rest.len() implies is_space(#[trigger] rest[i]) by {
            assert(rest[i] == front[i + 1]);
        }
        assert(is_space(front[0]));
        lemma_trim_front(rest, t);
        assert(all.drop_first() == rest + t);
    } else {
        assert(all == t);
    }
}

proof fn lemma_opens_loose(s: Seq<char>, front: Seq<char>, loose: Seq<char>)
    requires
        decrypted(SERVER_LIST_KEY@, encrypted(SERVER_LIST_KEY@, encode_utf8(s))) == encode_utf8(s),
        solid(front).len() == 0,
        solid(loose) == solid(sealed_text(s).skip(5)),
    ensures
        opened(front + "ENC1:"@ + loose) == Ok::<Seq<char>, ListError>(s),
{
    reveal_strlit("ENC1:");
    lemma_opens(s);
    lemma_no_solid(front);
    let t = "ENC1:"@ + loose;
    assert(t[0] == 'E');
    lemma_trim_front(front, t);
    assert(front + "ENC1:"@ + loose == front + t);
    assert("ENC1:"@.is_prefix_of(t)) by {
        assert(t.subrange(0, 5) == "ENC1:"@);
    }
    assert(t.skip(5) == loose);
    let u = sealed_text(s);
    assert(u[0] == 'E');
    assert(trim_start_of(u) == u);
    assert("ENC1:"@.is_prefix_of(u)) by {
        assert(u.subrange(0, 5) == "ENC1:"@);
    }
}

proof fn lemma_opens(s: Seq<char>)
    requires
        decrypted(SERVER_LIST_KEY@, encrypted(SERVER_LIST_KEY@, encode_utf8(s))) == encode_utf8(s),
    ensures
        opened(sealed_text(s)) == Ok::<Seq<char>, ListError>(s),
{
    reveal_strlit("ENC1:");
    let b = encrypted(SERVER_LIST_KEY@, encode_utf8(s));
    let t = sealed_text(s);
    crate::base64_text::lemma_base64_solid(b);
    lemma_solid(base64_of(b));
    assert(t[0] == 'E');
    assert(trim_start_of(t) == t);
    assert("ENC1:"@.is_prefix_of(t)) by {
        assert(t.subrange(0, 5) == "ENC1:"@);
    }
    assert(t.skip(5) == base64_of(b) + "\n"@);
    lemma_base64_bytes(b);
    vstd::utf8::encode_utf8_valid_utf8(s);
    vstd::utf8::encode_utf8_decode_utf8(s);
}

} // verus!

//! How a list and its settings are written, and how a stored text is opened.

use crate::base64_text::base64_of;
use crate::code::{from_le16, le16};
use crate::legacy_text::mode_name;
use crate::server_list::cipher::{decrypted, encrypted, SERVER_LIST_KEY};
use crate::server_list::config::{AuxConfig, LauncherModel};
use crate::server_list::info::{
    info_bytes, narrow_text, plain_server, units_until_zero, wide_text, ListError, ServerModel,
};
use crate::server_list::list::{
    aux_text, bool_text, launcher_text, lemma_base64_bytes, list_text, opened, sealed_text,
    server_line, server_lines, settings_text, solid,
};
use crate::text::{decimal, is_space};
use crate::text_laws::blank;
use crate::unicode::lossy_utf16;
use vstd::prelude::*;
use vstd::utf8::{decode_utf8, encode_utf8, valid_utf8};

verus! {

/// A list begins with its section, and each server has a line: its number, counted from
/// zero, and its encrypted bytes.
pub proof fn law_list_text(servers: Seq<ServerModel>, m: ServerModel)
    ensures
        list_text(Seq::empty()) == "[list]\n"@,
        list_text(servers.push(m)) == list_text(servers) + ("ServerData"@ + decimal(servers.len())
            + "="@ + base64_of(encrypted(SERVER_LIST_KEY@, info_bytes(m))) + "\n"@),
{
    let e = Seq::<ServerModel>::empty();
    assert("[list]\n"@ + server_lines(e, 0) =~= "[list]\n"@);
    lemma_server_lines(servers, m, servers.len());
    assert(servers.push(m)[servers.len() as int] == m);
    let a = server_lines(servers, servers.len());
    let b = server_line(servers.len(), m);
    assert("[list]\n"@ + (a + b) =~= "[list]\n"@ + a + b);
}

proof fn lemma_server_lines(servers: Seq<ServerModel>, m: ServerModel, k: nat)
    requires
        k <= servers.len(),
    ensures
        server_lines(servers.push(m), k) == server_lines(servers, k),
    decreases k,
{
    if k > 0 {
        lemma_server_lines(servers, m, (k - 1) as nat);
        assert(servers.push(m)[k - 1] == servers[k - 1]);
    }
}

/// A line with a key and a value.
pub open spec fn entry_line(key: Seq<char>, value: Seq<char>) -> Seq<char> {
    key + "="@ + value + "\n"@
}

/// A switch in words.
pub open spec fn on_off(b: bool) -> Seq<char> {
    if b {
        "true"@
    } else {
        "false"@
    }
}

/// The switches as they are written, in their order.
pub proof fn law_switches_are_written(a: AuxConfig)
    ensures
        aux_text(a) == "[aux]\n"@ + entry_line("packet_encrypt"@, on_off(a.packet_encrypt))
            + entry_line("anti_cheat_basic"@, on_off(a.anti_cheat_basic)) + entry_line(
            "anti_cheat_advanced"@,
            on_off(a.anti_cheat_advanced),
        ) + entry_line("transform_file"@, on_off(a.transform_file)) + entry_line(
            "multi_instance"@,
            on_off(a.multi_instance),
        ) + entry_line("move_packet_no_encrypt"@, on_off(a.move_packet_no_encrypt)) + entry_line(
            "lhx_aux_enabled"@,
            on_off(a.lhx_aux_enabled),
        ) + entry_line("hp_mp_limit_enabled"@, on_off(a.hp_mp_limit_enabled)) + entry_line(
            "inventory_limit_enabled"@,
            on_off(a.inventory_limit_enabled),
        ) + entry_line("equip_ui_enabled"@, on_off(a.equip_ui_enabled)) + entry_line(
            "img_limit_enabled"@,
            on_off(a.img_limit_enabled),
        ) + entry_line("inventory_limit_value"@, decimal(a.inventory_limit_value as nat))
            + entry_line("img_limit_value"@, decimal(a.img_limit_value as nat)) + entry_line(
            "text_encoding"@,
            mode_name(a.text_encoding),
        ) + entry_line("dynamic_dialog_enabled"@, on_off(a.dynamic_dialog_enabled)) + entry_line(
            "pickup_toast_enabled"@,
            on_off(a.pickup_toast_enabled),
        ) + entry_line("exp_drift_enabled"@, on_off(a.exp_drift_enabled)),
{
    reveal(bool_text);
}

/// The entries of the launcher as they are written, in their order.
pub proof fn law_launcher_is_written(l: LauncherModel)
    ensures
        launcher_text(l) == "\n[launcher]\n"@ + entry_line("active_skin"@, l.active_skin)
            + entry_line("announcement_enabled"@, on_off(l.announcement_enabled)) + entry_line(
            "announcement_url"@,
            l.announcement_url,
        ) + entry_line("list_update_enabled"@, on_off(l.list_update_enabled)) + entry_line(
            "list_update_url"@,
            l.list_update_url,
        ) + entry_line("auto_update_enabled"@, on_off(l.auto_update_enabled)) + entry_line(
            "auto_update_url"@,
            l.auto_update_url,
        ) + entry_line("official_url"@, l.official_url) + entry_line(
            "customer_service_url"@,
            l.customer_service_url,
        ),
{
    reveal(bool_text);
}

/// The settings are the switches, without the two that have no function any more, and the
/// entries of the launcher behind them.
pub proof fn law_settings_are_written(a: AuxConfig, l: LauncherModel)
    ensures
        settings_text(a, l) == aux_text(
            AuxConfig { anti_cheat_basic: false, anti_cheat_advanced: false, ..a },
        ) + launcher_text(l),
{
}

/// A stored text is its mark, the base64 of its encrypted bytes, and a line end.
pub proof fn law_stored_text(s: Seq<char>)
    ensures
        sealed_text(s) == seq!['E', 'N', 'C', '1', ':'] + base64_of(
            encrypted(SERVER_LIST_KEY@, encode_utf8(s)),
        ) + seq!['\n'],
{
    reveal_strlit("ENC1:");
    reveal_strlit("\n");
    assert("ENC1:"@ =~= seq!['E', 'N', 'C', '1', ':']);
    assert("\n"@ =~= seq!['\n']);
}

proof fn lemma_solid_text(s: Seq<char>)
    requires
        forall|i: int| 0 <= i < s.len() ==> !is_space(#[trigger] s[i]),
    ensures
        solid(s) == s,
    decreases s.len(),
{
    if s.len() > 0 {
        assert(!is_space(s[s.len() - 1]));
        assert forall|i: int| 0 <= i < s.drop_last().len() implies !is_space(
            #[trigger] s.drop_last()[i],
        ) by {
            assert(s.drop_last()[i] == s[i]);
        }
        lemma_solid_text(s.drop_last());
        assert(s.drop_last().push(s.last()) =~= s);
    }
}

/// A text with the mark is decrypted, white space in front aside, and has to be UTF-8; one
/// that begins with a section is plain and stays as it is; anything else is refused.
pub proof fn law_opened(front: Seq<char>, raw: Seq<u8>, rest: Seq<char>)
    requires
        blank(front),
    ensures
        ({
            let mark = seq!['E', 'N', 'C', '1', ':'];
            let plain = decrypted(SERVER_LIST_KEY@, raw);
            &&& valid_utf8(plain) ==> opened(front + (mark + base64_of(raw))) == Ok::<_, ListError>(
                decode_utf8(plain),
            )
            &&& !valid_utf8(plain) ==> opened(front + (mark + base64_of(raw))) == Err::<
                Seq<char>,
                _,
            >(ListError::ConfigUtf8)
            &&& opened(front + (seq!['['] + rest)) == Ok::<_, ListError>(
                front + (seq!['['] + rest),
            )
            &&& rest.len() > 0 && !is_space(rest[0]) && rest[0] != '[' && rest[0] != 'E' ==> opened(
                front + rest,
            ) == Err::<Seq<char>, _>(ListError::ConfigFormat)
            &&& opened(Seq::empty()) == Err::<Seq<char>, _>(ListError::ConfigFormat)
        }),
{
    reveal_strlit("ENC1:");
    let mark = seq!['E', 'N', 'C', '1', ':'];
    assert("ENC1:"@ =~= mark);
    let b = base64_of(raw);
    let t = mark + b;
    assert(t[0] == 'E');
    crate::smooth_run::line_laws::law_indent(front, t);
    assert("ENC1:"@.is_prefix_of(t));
    assert(t.skip(5) =~= b);
    crate::base64_text::lemma_base64_solid(raw);
    lemma_solid_text(b);
    lemma_base64_bytes(raw);
    let u = seq!['['] + rest;
    assert(u[0] == '[');
    crate::smooth_run::line_laws::law_indent(front, u);
    if "ENC1:"@.is_prefix_of(u) {
        assert(u[0] == "ENC1:"@[0]);
    }
    if rest.len() > 0 && !is_space(rest[0]) && rest[0] != '[' && rest[0] != 'E' {
        crate::smooth_run::line_laws::law_indent(front, rest);
        if "ENC1:"@.is_prefix_of(rest) {
            assert(rest[0] == "ENC1:"@[0]);
        }
    }
    let e = Seq::<char>::empty();
    crate::text::lemma_trim_start_is(e, 0);
    assert(e.skip(0) =~= e);
    if "ENC1:"@.is_prefix_of(e) {
        assert("ENC1:"@.len() == 5);
    }
}

/// A wide text ends before its first zero; whatever stands behind it does not count.
pub proof fn law_wide_text_ends(u: u16, bytes: Seq<u8>)
    ensures
        u != 0 ==> units_until_zero(le16(u) + bytes) == seq![u] + units_until_zero(bytes),
        units_until_zero(seq![0u8, 0] + bytes).len() == 0,
        bytes.len() < 2 ==> units_until_zero(bytes).len() == 0,
        wide_text(bytes) == lossy_utf16(units_until_zero(bytes)),
{
    let b = le16(u) + bytes;
    assert(b.take(2) =~= le16(u));
    assert(b.skip(2) =~= bytes);
    assert(from_le16(le16(u)) == u);
    let z = seq![0u8, 0] + bytes;
    assert(z.take(2)[0] == 0 && z.take(2)[1] == 0);
}

/// A narrow text ends before its first zero.
pub proof fn law_narrow_text_ends(a: Seq<u8>, b: Seq<u8>)
    requires
        !a.contains(0),
        valid_utf8(a),
    ensures
        narrow_text(a + seq![0u8] + b) == decode_utf8(a),
        narrow_text(a) == decode_utf8(a),
{
    crate::legacy_laws::law_until_zero(a, b);
}

/// A plain server has nothing but its name, its address, its port and whether it is in
/// use.
pub proof fn law_plain_server(name: Seq<char>, ip: Seq<char>, port: int, used: bool)
    ensures
        ({
            let m = plain_server(name, ip, port, used);
            &&& m.name == name && m.ip == ip && m.port == port && m.used == used
            &&& m.key.len() == 16 && forall|i: int| 0 <= i < 16 ==> m.key[i] == 0
            &&& !m.encrypt && !m.usehelper && !m.usebd && !m.randkey
            &&& m.bdfile.len() == 0
            &&& m.rsa_e == 0 && m.rsa_d == 0 && m.rsa_n == 0
        }),
{
}

} // verus!

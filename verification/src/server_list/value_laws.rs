//! What the values of a list mean, line by line and byte by byte.

use crate::base64_text::base64_of;
use crate::block_cipher::aes128_encrypted;
use crate::code::le32;
use crate::server_list::cipher::{
    blocks_encrypted, decrypted, masked, table_byte, SERVER_LIST_KEY, XOR_TABLE,
};
use crate::server_list::config::{
    aux_with, default_aux, default_launcher, launcher_with, limit_of, says_true, AuxConfig,
    LauncherModel, ListModel,
};
use crate::server_list::info::{
    info_bytes, narrow_field, parsed_info, unsigned, wide_field, ServerModel,
};
use crate::server_list::list::{
    after_line, after_lines, lemma_base64_bytes, parsed_list, set_in_section, StateModel,
};
use crate::text::{ascii_lower_of, decimal, is_digit, is_space, lemma_decimal, lines_of};
use crate::text_laws::{
    blank, law_not_a_number, law_number, law_split_once, law_trim, law_trim_empties_blanks, tight,
};
use crate::unicode::utf16_of;
use vstd::prelude::*;
use vstd::utf8::encode_utf8;

verus! {

/// `true`, `1`, `yes` and `on` are a yes, in capitals or small letters and with white
/// space around them; anything else is a no.
pub proof fn law_yes(a: Seq<char>, word: Seq<char>, b: Seq<char>)
    requires
        blank(a) && blank(b),
        tight(word),
    ensures
        ascii_lower_of(word) == seq!['t', 'r', 'u', 'e'] ==> says_true(a + word + b),
        ascii_lower_of(word) == seq!['1'] ==> says_true(a + word + b),
        ascii_lower_of(word) == seq!['y', 'e', 's'] ==> says_true(a + word + b),
        ascii_lower_of(word) == seq!['o', 'n'] ==> says_true(a + word + b),
        says_true(a + word + b) ==> {
            ||| ascii_lower_of(word) == seq!['t', 'r', 'u', 'e']
            ||| ascii_lower_of(word) == seq!['1']
            ||| ascii_lower_of(word) == seq!['y', 'e', 's']
            ||| ascii_lower_of(word) == seq!['o', 'n']
        },
{
    reveal(says_true);
    reveal_strlit("true");
    reveal_strlit("1");
    reveal_strlit("yes");
    reveal_strlit("on");
    assert("true"@ =~= seq!['t', 'r', 'u', 'e']);
    assert("1"@ =~= seq!['1']);
    assert("yes"@ =~= seq!['y', 'e', 's']);
    assert("on"@ =~= seq!['o', 'n']);
    law_trim(a, word, b);
}

/// A limit is the number that is given, brought between its bounds; what is no number of
/// 32 bits leaves the usual one.
pub proof fn law_limit(
    a: Seq<char>,
    n: nat,
    b: Seq<char>,
    word: Seq<char>,
    i: int,
    default: u32,
    min: u32,
    max: u32,
)
    requires
        blank(a) && blank(b),
        min <= max,
        tight(word),
        0 <= i < word.len(),
        !is_digit(word[i]),
        i > 0 || word[0] != '+',
    ensures
        min <= n <= max ==> limit_of(a + decimal(n) + b, default, min, max) == n,
        n < min ==> limit_of(a + decimal(n) + b, default, min, max) == min,
        max < n <= u32::MAX ==> limit_of(a + decimal(n) + b, default, min, max) == max,
        n > u32::MAX ==> limit_of(a + decimal(n) + b, default, min, max) == default,
        limit_of(a + word + b, default, min, max) == default,
        limit_of(a, default, min, max) == default,
{
    reveal(limit_of);
    let d = decimal(n);
    lemma_decimal(n);
    assert(is_digit(d[0]) && is_digit(d[d.len() - 1]));
    law_trim(a, d, b);
    law_number(n, Seq::empty(), u32::MAX as nat);
    law_trim(a, word, b);
    law_not_a_number(word, i, u32::MAX as nat);
    law_trim_empties_blanks(a);
}

proof fn lemma_aux_names()
    ensures
        "packet_encrypt"@.len() == 14 && "packet_encrypt"@[0] == 'p',
        "anti_cheat_basic"@.len() == 16 && "anti_cheat_basic"@[0] == 'a',
        "anti_cheat_advanced"@.len() == 19 && "anti_cheat_advanced"@[0] == 'a',
        "transform_file"@.len() == 14 && "transform_file"@[0] == 't',
        "multi_instance"@.len() == 14 && "multi_instance"@[0] == 'm',
        "move_packet_no_encrypt"@.len() == 22 && "move_packet_no_encrypt"@[0] == 'm',
        "lhx_aux_enabled"@.len() == 15 && "lhx_aux_enabled"@[0] == 'l',
        "hp_mp_limit_enabled"@.len() == 19 && "hp_mp_limit_enabled"@[0] == 'h',
        "inventory_limit_enabled"@.len() == 23 && "inventory_limit_enabled"@[0] == 'i',
        "equip_ui_enabled"@.len() == 16 && "equip_ui_enabled"@[0] == 'e',
        "img_limit_enabled"@.len() == 17 && "img_limit_enabled"@[0] == 'i',
        "dynamic_dialog_enabled"@.len() == 22 && "dynamic_dialog_enabled"@[0] == 'd',
        "pickup_toast_enabled"@.len() == 20 && "pickup_toast_enabled"@[0] == 'p',
        "exp_drift_enabled"@.len() == 17 && "exp_drift_enabled"@[0] == 'e',
        "inventory_limit_value"@.len() == 21 && "inventory_limit_value"@[0] == 'i',
        "img_limit_value"@.len() == 15 && "img_limit_value"@[0] == 'i',
        "text_encoding"@.len() == 13 && "text_encoding"@[0] == 't',
{
    reveal_strlit("packet_encrypt");
    reveal_strlit("anti_cheat_basic");
    reveal_strlit("anti_cheat_advanced");
    reveal_strlit("transform_file");
    reveal_strlit("multi_instance");
    reveal_strlit("move_packet_no_encrypt");
    reveal_strlit("lhx_aux_enabled");
    reveal_strlit("hp_mp_limit_enabled");
    reveal_strlit("inventory_limit_enabled");
    reveal_strlit("equip_ui_enabled");
    reveal_strlit("img_limit_enabled");
    reveal_strlit("dynamic_dialog_enabled");
    reveal_strlit("pickup_toast_enabled");
    reveal_strlit("exp_drift_enabled");
    reveal_strlit("inventory_limit_value");
    reveal_strlit("img_limit_value");
    reveal_strlit("text_encoding");
}

/// Each switch of the section `aux` has its own key, by which it alone is set.
#[verifier::rlimit(60)]
pub proof fn law_aux_switches(a: AuxConfig, v: Seq<char>)
    ensures
        aux_with(a, "packet_encrypt"@, v) == (AuxConfig { packet_encrypt: says_true(v), ..a }),
        aux_with(a, "anti_cheat_basic"@, v) == (AuxConfig { anti_cheat_basic: says_true(v), ..a }),
        aux_with(a, "anti_cheat_advanced"@, v) == (AuxConfig {
            anti_cheat_advanced: says_true(v),
            ..a
        }),
        aux_with(a, "transform_file"@, v) == (AuxConfig { transform_file: says_true(v), ..a }),
        aux_with(a, "multi_instance"@, v) == (AuxConfig { multi_instance: says_true(v), ..a }),
        aux_with(a, "move_packet_no_encrypt"@, v) == (AuxConfig {
            move_packet_no_encrypt: says_true(v),
            ..a
        }),
        aux_with(a, "lhx_aux_enabled"@, v) == (AuxConfig { lhx_aux_enabled: says_true(v), ..a }),
        aux_with(a, "hp_mp_limit_enabled"@, v) == (AuxConfig {
            hp_mp_limit_enabled: says_true(v),
            ..a
        }),
        aux_with(a, "inventory_limit_enabled"@, v) == (AuxConfig {
            inventory_limit_enabled: says_true(v),
            ..a
        }),
        aux_with(a, "equip_ui_enabled"@, v) == (AuxConfig { equip_ui_enabled: says_true(v), ..a }),
        aux_with(a, "img_limit_enabled"@, v) == (AuxConfig { img_limit_enabled: says_true(v), ..a }),
        aux_with(a, "dynamic_dialog_enabled"@, v) == (AuxConfig {
            dynamic_dialog_enabled: says_true(v),
            ..a
        }),
        aux_with(a, "pickup_toast_enabled"@, v) == (AuxConfig {
            pickup_toast_enabled: says_true(v),
            ..a
        }),
        aux_with(a, "exp_drift_enabled"@, v) == (AuxConfig { exp_drift_enabled: says_true(v), ..a }),
{
    assert(aux_with(a, "packet_encrypt"@, v) == (AuxConfig { packet_encrypt: says_true(v), ..a })) by {
        reveal(aux_with);
        lemma_aux_names();
    }
    assert(aux_with(a, "anti_cheat_basic"@, v) == (AuxConfig { anti_cheat_basic: says_true(v), ..a })) by {
        reveal(aux_with);
        lemma_aux_names();
    }
    assert(aux_with(a, "anti_cheat_advanced"@, v) == (AuxConfig { anti_cheat_advanced: says_true(v), ..a })) by {
        reveal(aux_with);
        lemma_aux_names();
    }
    assert(aux_with(a, "transform_file"@, v) == (AuxConfig { transform_file: says_true(v), ..a })) by {
        reveal(aux_with);
        lemma_aux_names();
    }
    assert(aux_with(a, "multi_instance"@, v) == (AuxConfig { multi_instance: says_true(v), ..a })) by {
        reveal(aux_with);
        lemma_aux_names();
    }
    assert(aux_with(a, "move_packet_no_encrypt"@, v) == (AuxConfig { move_packet_no_encrypt: says_true(v), ..a })) by {
        reveal(aux_with);
        lemma_aux_names();
    }
    assert(aux_with(a, "lhx_aux_enabled"@, v) == (AuxConfig { lhx_aux_enabled: says_true(v), ..a })) by {
        reveal(aux_with);
        lemma_aux_names();
    }
    assert(aux_with(a, "hp_mp_limit_enabled"@, v) == (AuxConfig { hp_mp_limit_enabled: says_true(v), ..a })) by {
        reveal(aux_with);
        lemma_aux_names();
    }
    assert(aux_with(a, "inventory_limit_enabled"@, v) == (AuxConfig { inventory_limit_enabled: says_true(v), ..a })) by {
        reveal(aux_with);
        lemma_aux_names();
    }
    assert(aux_with(a, "equip_ui_enabled"@, v) == (AuxConfig { equip_ui_enabled: says_true(v), ..a })) by {
        reveal(aux_with);
        lemma_aux_names();
    }
    assert(aux_with(a, "img_limit_enabled"@, v) == (AuxConfig { img_limit_enabled: says_true(v), ..a })) by {
        reveal(aux_with);
        lemma_aux_names();
    }
    assert(aux_with(a, "dynamic_dialog_enabled"@, v) == (AuxConfig { dynamic_dialog_enabled: says_true(v), ..a })) by {
        reveal(aux_with);
        lemma_aux_names();
    }
    assert(aux_with(a, "pickup_toast_enabled"@, v) == (AuxConfig { pickup_toast_enabled: says_true(v), ..a })) by {
        reveal(aux_with);
        lemma_aux_names();
    }
    assert(aux_with(a, "exp_drift_enabled"@, v) == (AuxConfig { exp_drift_enabled: says_true(v), ..a })) by {
        reveal(aux_with);
        lemma_aux_names();
    }
}

/// The two limits lie between 1 and 999, 255 as a rule, and between 6295 and 500000,
/// 50000 as a rule; the encoding has its own key; and any other key changes nothing.
pub proof fn law_aux_values(a: AuxConfig, v: Seq<char>, key: Seq<char>)
    ensures
        aux_with(a, "inventory_limit_value"@, v) == (AuxConfig {
            inventory_limit_value: limit_of(v, 255, 1, 999),
            ..a
        }),
        aux_with(a, "img_limit_value"@, v) == (AuxConfig {
            img_limit_value: limit_of(v, 50000, 6295, 500000),
            ..a
        }),
        aux_with(a, "text_encoding"@, v) == (AuxConfig {
            text_encoding: crate::legacy_text::mode_named(v),
            ..a
        }),
        key.len() < 13 || key.len() > 23 || key.len() == 18 ==> aux_with(a, key, v) == a,
{
    reveal(aux_with);
    lemma_aux_names();
}

/// Each entry of the section `launcher` has its own key, by which it alone is set; any
/// other key changes nothing.
pub proof fn law_launcher_entries(l: LauncherModel, v: Seq<char>, key: Seq<char>)
    ensures
        launcher_with(l, "active_skin"@, v) == (LauncherModel { active_skin: v, ..l }),
        launcher_with(l, "announcement_enabled"@, v) == (LauncherModel {
            announcement_enabled: says_true(v),
            ..l
        }),
        launcher_with(l, "announcement_url"@, v) == (LauncherModel { announcement_url: v, ..l }),
        launcher_with(l, "list_update_enabled"@, v) == (LauncherModel {
            list_update_enabled: says_true(v),
            ..l
        }),
        launcher_with(l, "list_update_url"@, v) == (LauncherModel { list_update_url: v, ..l }),
        launcher_with(l, "auto_update_enabled"@, v) == (LauncherModel {
            auto_update_enabled: says_true(v),
            ..l
        }),
        launcher_with(l, "auto_update_url"@, v) == (LauncherModel { auto_update_url: v, ..l }),
        launcher_with(l, "official_url"@, v) == (LauncherModel { official_url: v, ..l }),
        launcher_with(l, "customer_service_url"@, v) == (LauncherModel {
            customer_service_url: v,
            ..l
        }),
        key.len() < 11 || key.len() > 20 ==> launcher_with(l, key, v) == l,
{
    reveal_strlit("active_skin");
    reveal_strlit("announcement_enabled");
    reveal_strlit("announcement_url");
    reveal_strlit("list_update_enabled");
    reveal_strlit("list_update_url");
    reveal_strlit("auto_update_enabled");
    reveal_strlit("auto_update_url");
    reveal_strlit("official_url");
    reveal_strlit("customer_service_url");
    assert("active_skin"@.len() == 11);
    assert("announcement_enabled"@.len() == 20 && "announcement_enabled"@[0] == 'a');
    assert("announcement_url"@.len() == 16);
    assert("list_update_enabled"@.len() == 19 && "list_update_enabled"@[0] == 'l');
    assert("list_update_url"@.len() == 15 && "list_update_url"@[0] == 'l');
    assert("auto_update_enabled"@.len() == 19 && "auto_update_enabled"@[0] == 'a');
    assert("auto_update_url"@.len() == 15 && "auto_update_url"@[0] == 'a');
    assert("official_url"@.len() == 12);
    assert("customer_service_url"@.len() == 20 && "customer_service_url"@[0] == 'c');
}

/// A name in square brackets opens a section, in capitals or small letters; a line that
/// begins with `;` or `#`, an empty one and one without an equals sign change nothing.
pub proof fn law_sections(
    st: StateModel,
    a: Seq<char>,
    name: Seq<char>,
    b: Seq<char>,
    s: Seq<char>,
)
    requires
        blank(a) && blank(b),
        tight(s),
        s.len() == 0 || s[0] == ';' || s[0] == '#' || (s[0] != '[' && !s.contains('=')),
    ensures
        after_line(st, a + (seq!['['] + name + seq![']']) + b) == Ok::<_, Seq<char>>(
            StateModel { section: ascii_lower_of(name), ..st },
        ),
        after_line(st, a + s + b) == Ok::<_, Seq<char>>(st),
{
    let t = seq!['['] + name + seq![']'];
    assert(t[0] == '[' && t[t.len() - 1] == ']');
    law_trim(a, t, b);
    assert(t.subrange(1, t.len() - 1) =~= name);
    law_trim(a, s, b);
    if !s.contains('=') {
        s.index_of_first_ensures('=');
    }
}

/// A key, an equals sign and a value set that key in the section that is open; the key
/// counts in small letters, and white space around the two does not.
pub proof fn law_entries(
    st: StateModel,
    a: Seq<char>,
    key: Seq<char>,
    b: Seq<char>,
    c: Seq<char>,
    value: Seq<char>,
    d: Seq<char>,
)
    requires
        blank(a) && blank(b) && blank(c) && blank(d),
        tight(key) && tight(value),
        key.len() > 0,
        key[0] != ';' && key[0] != '#' && key[0] != '[',
        !key.contains('='),
        value.len() > 0,
    ensures
        after_line(st, a + key + b + seq!['='] + c + value + d) == set_in_section(
            st,
            ascii_lower_of(key),
            value,
        ),
{
    let t = key + b + seq!['='] + c + value;
    assert(t[0] == key[0]);
    assert(t[t.len() - 1] == value[value.len() - 1]);
    assert(a + key + b + seq!['='] + c + value + d =~= a + t + d);
    law_trim(a, t, d);
    let k = key + b;
    let v = c + value;
    assert(!k.contains('=')) by {
        if k.contains('=') {
            let i = choose|i: int| 0 <= i < k.len() && k[i] == '=';
            if i < key.len() {
                assert(key[i] == '=');
                assert(key.contains('='));
            } else {
                assert(is_space(b[i - key.len()]));
            }
        }
    }
    assert(t =~= k + seq!['='] + v);
    law_split_once(k, '=', v);
    let none = Seq::<char>::empty();
    law_trim(none, key, b);
    assert(none + key + b =~= k);
    law_trim(c, value, none);
    assert(c + value + none =~= v);
}

/// In the section `list` a key that begins with `serverdata` adds the server of its
/// bytes, where there are as many as a server has; too few are passed over, and so is
/// any other key. What is not base64 there is an error with that key.
pub proof fn law_server_entries(
    st: StateModel,
    rest: Seq<char>,
    raw: Seq<u8>,
    key: Seq<char>,
    value: Seq<char>,
)
    requires
        st.section == seq!['l', 'i', 's', 't'],
    ensures
        raw.len() >= 213 ==> set_in_section(st, "serverdata"@ + rest, base64_of(raw)) == Ok::<
            _,
            Seq<char>,
        >(
            StateModel {
                servers: st.servers.push(parsed_info(decrypted(SERVER_LIST_KEY@, raw))),
                ..st
            },
        ),
        raw.len() < 213 ==> set_in_section(st, "serverdata"@ + rest, base64_of(raw)) == Ok::<
            _,
            Seq<char>,
        >(st),
        key.len() < 10 || key[0] != 's' ==> set_in_section(st, key, value) == Ok::<_, Seq<char>>(st),
        (forall|r: Seq<u8>| value != #[trigger] base64_of(r)) ==> set_in_section(
            st,
            "serverdata"@ + rest,
            value,
        ) == Err::<StateModel, _>("serverdata"@ + rest),
{
    reveal_strlit("list");
    reveal_strlit("serverdata");
    assert("list"@ =~= seq!['l', 'i', 's', 't']);
    assert("serverdata"@.is_prefix_of("serverdata"@ + rest));
    lemma_base64_bytes(raw);
    if "serverdata"@.is_prefix_of(key) {
        assert(key[0] == "serverdata"@[0]);
    }
}

/// The sections `aux` and `launcher` set what they are named after and nothing else; an
/// entry of any other section changes nothing.
pub proof fn law_other_sections(st: StateModel, key: Seq<char>, value: Seq<char>)
    ensures
        st.section == seq!['a', 'u', 'x'] ==> set_in_section(st, key, value) == Ok::<_, Seq<char>>(
            StateModel { aux: aux_with(st.aux, key, value), ..st },
        ),
        st.section == seq!['l', 'a', 'u', 'n', 'c', 'h', 'e', 'r'] ==> set_in_section(
            st,
            key,
            value,
        ) == Ok::<_, Seq<char>>(
            StateModel { launcher: launcher_with(st.launcher, key, value), ..st },
        ),
        st.section != seq!['l', 'i', 's', 't'] && st.section != seq!['a', 'u', 'x'] && st.section
            != seq!['l', 'a', 'u', 'n', 'c', 'h', 'e', 'r'] ==> set_in_section(st, key, value)
            == Ok::<_, Seq<char>>(st),
{
    reveal_strlit("list");
    reveal_strlit("aux");
    reveal_strlit("launcher");
    assert("list"@ =~= seq!['l', 'i', 's', 't']);
    assert("aux"@ =~= seq!['a', 'u', 'x']);
    assert("launcher"@ =~= seq!['l', 'a', 'u', 'n', 'c', 'h', 'e', 'r']);
    assert("list"@.len() == 4 && "aux"@.len() == 3 && "launcher"@.len() == 8);
}

/// The lines of a list count from the first to the last, up to the first error; a list
/// starts outside all sections, without a server and with the usual settings.
pub proof fn law_list_in_order(lines: Seq<Seq<char>>, k: nat)
    requires
        k < lines.len(),
    ensures
        after_lines(lines, 0) == Ok::<_, Seq<char>>(
            StateModel {
                section: Seq::empty(),
                servers: Seq::empty(),
                aux: default_aux(),
                launcher: default_launcher(),
            },
        ),
        after_lines(lines, k) matches Ok(st) ==> after_lines(lines, k + 1) == after_line(
            st,
            lines[k as int],
        ),
        after_lines(lines, k) matches Err(e) ==> after_lines(lines, k + 1) == Err::<StateModel, _>(e),
{
}

/// What a list holds is what its lines left, without the two switches that have no
/// function any more.
pub proof fn law_list_is_what_was_read(content: Seq<char>)
    ensures
        after_lines(lines_of(content), lines_of(content).len()) matches Ok(st) ==> {
            parsed_list(content) matches Ok(m) && {
                &&& m.servers == st.servers
                &&& m.launcher == st.launcher
                &&& m.aux == (AuxConfig {
                    anti_cheat_basic: false,
                    anti_cheat_advanced: false,
                    ..st.aux
                })
            }
        },
        after_lines(lines_of(content), lines_of(content).len()) matches Err(e) ==> parsed_list(
            content,
        ) == Err::<ListModel, _>(e),
{
}

/// A field of a wide text has 64 bytes: the first 31 units at most, each with its low
/// byte first, and zeros behind them.
pub proof fn law_wide_field(s: Seq<char>, k: int)
    requires
        0 <= k < 32,
    ensures
        wide_field(s).len() == 64,
        k < utf16_of(s).len() && k < 31 ==> wide_field(s)[2 * k] == utf16_of(s)[k] % 256 && wide_field(
            s,
        )[2 * k + 1] == utf16_of(s)[k] / 256,
        k >= utf16_of(s).len() || k == 31 ==> wide_field(s)[2 * k] == 0 && wide_field(s)[2 * k + 1]
            == 0,
{
    assert((2 * k) / 2 == k && (2 * k) % 2 == 0);
    assert((2 * k + 1) / 2 == k && (2 * k + 1) % 2 == 1);
}

/// A field of a narrow text has 32 bytes: the first 31 at most, and zeros behind them.
pub proof fn law_narrow_field(s: Seq<char>, k: int)
    requires
        0 <= k < 32,
    ensures
        narrow_field(s).len() == 32,
        k < encode_utf8(s).len() && k < 31 ==> narrow_field(s)[k] == encode_utf8(s)[k],
        k >= encode_utf8(s).len() || k == 31 ==> narrow_field(s)[k] == 0,
{
}

/// Where the parts of a server lie in its 213 bytes.
pub proof fn law_server_layout(m: ServerModel)
    requires
        m.key.len() == 16,
    ensures
        ({
            let d = info_bytes(m);
            &&& d.len() == 213
            &&& d.subrange(0, 64) == wide_field(m.name)
            &&& d.subrange(64, 96) == narrow_field(m.ip)
            &&& d.subrange(96, 100) == le32(unsigned(m.port))
            &&& d[100] == (if m.used {
                1u8
            } else {
                0u8
            })
            &&& d.subrange(101, 117) == m.key
            &&& d[117] == (if m.encrypt {
                1u8
            } else {
                0u8
            })
            &&& d[118] == (if m.usehelper {
                1u8
            } else {
                0u8
            })
            &&& d[119] == (if m.usebd {
                1u8
            } else {
                0u8
            })
            &&& d.subrange(120, 184) == wide_field(m.bdfile)
            &&& d[184] == (if m.randkey {
                1u8
            } else {
                0u8
            })
            &&& d.subrange(185, 189) == le32(m.rsa_e)
            &&& d.subrange(189, 193) == le32(m.rsa_d)
            &&& d.subrange(193, 197) == le32(m.rsa_n)
            &&& forall|i: int| 197 <= i < 213 ==> #[trigger] d[i] == 0
        }),
{
    let d = info_bytes(m);
    assert(d.len() == 213);
    assert(d.subrange(0, 64) =~= wide_field(m.name));
    assert(d.subrange(64, 96) =~= narrow_field(m.ip));
    assert(d.subrange(96, 100) =~= le32(unsigned(m.port)));
    assert(d.subrange(101, 117) =~= m.key);
    assert(d.subrange(120, 184) =~= wide_field(m.bdfile));
    assert(d.subrange(185, 189) =~= le32(m.rsa_e));
    assert(d.subrange(189, 193) =~= le32(m.rsa_d));
    assert(d.subrange(193, 197) =~= le32(m.rsa_n));
}

/// Every byte that is not zero is a yes for a server's switches.
pub proof fn law_switch_bytes(d: Seq<u8>)
    requires
        d.len() >= 213,
    ensures
        parsed_info(d).used <==> d[100] != 0,
        parsed_info(d).encrypt <==> d[117] != 0,
        parsed_info(d).usehelper <==> d[118] != 0,
        parsed_info(d).usebd <==> d[119] != 0,
        parsed_info(d).randkey <==> d[184] != 0,
        parsed_info(d).key.len() == 16,
        forall|i: int| 0 <= i < 16 ==> parsed_info(d).key[i] == d[101 + i],
{
}

/// A negative port is stored as its two's complement.
pub proof fn law_port(p: int)
    requires
        i32::MIN <= p <= i32::MAX,
    ensures
        p >= 0 ==> unsigned(p) == p,
        p < 0 ==> unsigned(p) == p + 0x1_0000_0000,
{
}

/// Each byte is masked by the table's byte for its place and the key's, round and round
/// over both.
pub proof fn law_masked(key: Seq<u8>, s: Seq<u8>, i: int)
    requires
        0 <= i < s.len(),
    ensures
        masked(key, s).len() == s.len(),
        masked(key, s)[i] == s[i] ^ (XOR_TABLE@[i % 256] ^ key[i % 16]),
{
    reveal(table_byte);
}

/// Every whole block of sixteen masked bytes is encrypted by itself; fewer than sixteen
/// bytes at the end are masked alone.
pub proof fn law_blocks_encrypted(key: Seq<u8>, s: Seq<u8>, j: int)
    requires
        0 <= j,
        key.len() == 16,
        forall|b: Seq<u8>| b.len() == 16 ==> (#[trigger] aes128_encrypted(key, b)).len() == 16,
    ensures
        blocks_encrypted(key, s).len() == s.len(),
        16 * j + 16 <= s.len() ==> blocks_encrypted(key, s).subrange(16 * j, 16 * j + 16)
            == aes128_encrypted(key, s.subrange(16 * j, 16 * j + 16)),
        16 * j <= s.len() < 16 * j + 16 ==> blocks_encrypted(key, s).skip(16 * j) == s.skip(16 * j),
    decreases s.len(),
{
    if s.len() >= 16 {
        let head = aes128_encrypted(key, s.take(16));
        let rest = s.skip(16);
        let tail = blocks_encrypted(key, rest);
        let all = blocks_encrypted(key, s);
        assert(s.take(16).len() == 16);
        if j == 0 {
            law_blocks_encrypted(key, rest, 0);
            assert(all.subrange(0, 16) =~= head);
            assert(s.subrange(0, 16) =~= s.take(16));
        } else {
            law_blocks_encrypted(key, rest, j - 1);
            if 16 * j + 16 <= s.len() {
                assert(all.subrange(16 * j, 16 * j + 16) =~= tail.subrange(
                    16 * (j - 1),
                    16 * (j - 1) + 16,
                ));
                assert(rest.subrange(16 * (j - 1), 16 * (j - 1) + 16) =~= s.subrange(
                    16 * j,
                    16 * j + 16,
                ));
            }
            if 16 * j <= s.len() {
                assert(all.skip(16 * j) =~= tail.skip(16 * (j - 1)));
                assert(rest.skip(16 * (j - 1)) =~= s.skip(16 * j));
            }
        }
    } else if j == 0 {
        assert(s.skip(0) =~= s);
    }
}

} // verus!

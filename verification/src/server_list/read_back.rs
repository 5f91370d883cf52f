//! What is read back of settings and servers that were written.

use vstd::prelude::*;
use crate::base64_text::{base64_of, lemma_base64_solid};
use crate::legacy_text::{law_mode_reads_back, mode_name, mode_named};
use crate::server_list::cipher::{encrypted, SERVER_LIST_KEY};
use crate::server_list::config::{
    aux_with, default_aux, default_launcher, launcher_with, limit_of, normalized, relimited,
    says_true, switched, AuxConfig, LauncherModel, ListModel, DEFAULT_IMG_LIMIT_VALUE, DEFAULT_INVENTORY_LIMIT_VALUE,
    MAX_IMG_LIMIT_VALUE, MAX_INVENTORY_LIMIT_VALUE, MIN_IMG_LIMIT_VALUE,
    MIN_INVENTORY_LIMIT_VALUE,
};
use crate::server_list::info::{info_bytes, ServerModel};
use crate::server_list::laws::{fits, law_server_reads_back};
use crate::server_list::list::{
    after_line, after_lines, aux_text, bool_text, launcher_text, lemma_base64_bytes, list_text,
    parsed_list, recoverable, server_line, server_lines, set_in_section, setting, settings_text,
    start_state, StateModel,
};
use crate::text::{
    ascii_lower_of, decimal, is_space, lemma_decimal, lemma_decimal_parses, lemma_trim_fixed,
    lines_of, lower_char, strip_cr,
};

verus! {

/// What is known after some more lines.
pub open spec fn run(st: StateModel, lines: Seq<Seq<char>>) -> Result<StateModel, Seq<char>>
    decreases lines.len(),
{
    if lines.len() == 0 {
        Ok(st)
    } else {
        match after_line(st, lines[0]) {
            Ok(t) => run(t, lines.skip(1)),
            Err(e) => Err(e),
        }
    }
}

proof fn lemma_run(lines: Seq<Seq<char>>, k: nat)
    requires
        k <= lines.len(),
    ensures
        run(start_state(), lines) == (match after_lines(lines, k) {
            Ok(st) => run(st, lines.skip(k as int)),
            Err(e) => Err(e),
        }),
    decreases k,
{
    if k == 0 {
        assert(lines.skip(0) == lines);
    } else {
        lemma_run(lines, (k - 1) as nat);
        let rest = lines.skip(k - 1);
        assert(rest[0] == lines[k - 1]);
        assert(rest.skip(1) == lines.skip(k as int));
    }
}

/// A text leads from one state to another, whatever stands behind it.
#[verifier::opaque]
pub open spec fn leads(st: StateModel, text: Seq<char>, to: StateModel) -> bool {
    forall|rest: Seq<char>|
        run(st, #[trigger] lines_of(text + rest)) == run(to, lines_of(rest))
}

proof fn lemma_then(a: StateModel, s: Seq<char>, b: StateModel, t: Seq<char>, c: StateModel)
    requires
        leads(a, s, b),
        leads(b, t, c),
    ensures
        leads(a, s + t, c),
{
    reveal(leads);
    assert forall|rest: Seq<char>|
        run(a, #[trigger] lines_of((s + t) + rest)) == run(c, lines_of(rest)) by {
        assert((s + t) + rest == s + (t + rest));
        assert(run(b, lines_of(t + rest)) == run(c, lines_of(rest)));
    }
}

proof fn lemma_all(s: Seq<char>, to: StateModel)
    requires
        leads(start_state(), s, to),
    ensures
        parsed_list(s) == Ok::<ListModel, Seq<char>>(
            ListModel { servers: to.servers, aux: normalized(to.aux), launcher: to.launcher },
        ),
{
    reveal(leads);
    let lines = lines_of(s);
    lemma_run(lines, lines.len());
    assert(s + Seq::<char>::empty() == s);
    assert(run(to, lines_of(Seq::<char>::empty())) == Ok::<StateModel, Seq<char>>(to));
    assert(lines.skip(lines.len() as int) == Seq::<Seq<char>>::empty());
    assert(run(start_state(), lines_of(s + Seq::<char>::empty())) == run(
        to,
        lines_of(Seq::<char>::empty()),
    ));
}

/// A line that ends with its last character that counts leads to what the line
/// says.
proof fn lemma_line(st: StateModel, line: Seq<char>, to: StateModel)
    requires
        !line.contains('\n'),
        line.len() > 0 ==> line.last() != '\r',
        after_line(st, line) == Ok::<StateModel, Seq<char>>(to),
    ensures
        leads(st, line + "\n"@, to),
{
    reveal(leads);
    reveal_strlit("\n");
    assert forall|rest: Seq<char>|
        run(st, #[trigger] lines_of((line + "\n"@) + rest)) == run(to, lines_of(rest)) by {
        let t = (line + "\n"@) + rest;
        assert(t[line.len() as int] == '\n');
        assert forall|i: int| 0 <= i < line.len() implies t[i] != '\n' by {
            assert(t[i] == line[i]);
            assert(line.contains(line[i]));
        }
        t.index_of_first_ensures('\n');
        assert(t.contains('\n'));
        let k = t.index_of_first('\n')->0;
        assert(k == line.len()) by {
            if k > line.len() {
                assert(t.take(k)[line.len() as int] == '\n');
            }
        }
        assert(t.take(k) == line);
        assert(t.skip(k + 1) == rest);
        assert(strip_cr(line) == line);
        let all = lines_of(t);
        assert(all[0] == line);
        assert(all.skip(1) == lines_of(rest));
    }
}

/// A key as the settings have them.
pub open spec fn plain_key(key: Seq<char>) -> bool {
    &&& key.len() > 0
    &&& key[0] != ';' && key[0] != '#' && key[0] != '['
    &&& forall|i: int|
        0 <= i < key.len() ==> !is_space(#[trigger] key[i]) && key[i] != '=' && key[i] != '\n'
}

/// A value that a line can hold and that reading leaves as it is.
#[verifier::opaque]
pub open spec fn plain_value(v: Seq<char>) -> bool {
    &&& v.len() > 0 ==> !is_space(v[0]) && !is_space(v.last())
    &&& !v.contains('\n')
}

proof fn lemma_setting(st: StateModel, key: Seq<char>, value: Seq<char>, to: StateModel)
    requires
        plain_key(key),
        plain_value(value),
        set_in_section(st, ascii_lower_of(key), value) == Ok::<StateModel, Seq<char>>(to),
    ensures
        leads(st, setting(key, value), to),
{
    reveal(plain_value);
    reveal_strlit("=");
    let line = key + "="@ + value;
    let n = key.len() as int;
    assert(line[n] == '=');
    assert forall|i: int| 0 <= i < n implies line[i] == key[i] by {}
    assert(line.len() == n + 1 + value.len());
    assert(value.len() > 0 ==> line.last() == value.last());
    assert(value.len() == 0 ==> line.last() == '=');
    assert(!line.contains('\n')) by {
        if line.contains('\n') {
            let k = choose|k: int| 0 <= k < line.len() && line[k] == '\n';
            if k < n {
                assert(key[k] == '\n');
            } else if k > n {
                assert(value[k - n - 1] == '\n');
            }
        }
    }
    assert(line[0] == key[0] && !is_space(key[0]));
    lemma_trim_fixed(line);
    line.index_of_first_ensures('=');
    assert(line.contains('='));
    let k = line.index_of_first('=')->0;
    assert(k == n) by {
        if k > n {
            assert(line.take(k)[n] == '=');
        }
        if k < n {
            assert(key[k] == '=');
        }
    }
    assert(line.take(n) == key);
    assert(line.skip(n + 1) == value);
    assert(!is_space(key[n - 1]));
    lemma_trim_fixed(key);
    lemma_trim_fixed(value);
    lemma_line(st, line, to);
    assert(setting(key, value) == line + "\n"@);
}

proof fn lemma_names()
    ensures
        "packet_encrypt"@.len() == 14 && "packet_encrypt"@[0] == 'p',
        "anti_cheat_basic"@.len() == 16 && "anti_cheat_basic"@[0] == 'a',
        "anti_cheat_advanced"@.len() == 19 && "anti_cheat_advanced"@[0] == 'a',
        "transform_file"@.len() == 14 && "transform_file"@[0] == 't',
        "multi_instance"@.len() == 14 && "multi_instance"@[0] == 'm',
        "move_packet_no_encrypt"@.len() == 22 && "move_packet_no_encrypt"@[0] == 'm',
        "lhx_aux_enabled"@.len() == 15 && "lhx_aux_enabled"@[0] == 'l',
        "hp_mp_limit_enabled"@.len() == 19 && "hp_mp_limit_enabled"@[0] == 'h',
        "inventory_limit_enabled"@.len() == 23 && "inventory_limit_enabled"@[0] == 'i',
        "equip_ui_enabled"@.len() == 16 && "equip_ui_enabled"@[0] == 'e',
        "img_limit_enabled"@.len() == 17 && "img_limit_enabled"@[0] == 'i',
        "dynamic_dialog_enabled"@.len() == 22 && "dynamic_dialog_enabled"@[0] == 'd',
        "pickup_toast_enabled"@.len() == 20 && "pickup_toast_enabled"@[0] == 'p',
        "exp_drift_enabled"@.len() == 17 && "exp_drift_enabled"@[0] == 'e',
        "inventory_limit_value"@.len() == 21 && "inventory_limit_value"@[0] == 'i',
        "img_limit_value"@.len() == 15 && "img_limit_value"@[0] == 'i',
        "text_encoding"@.len() == 13 && "text_encoding"@[0] == 't',
{
    reveal_strlit("packet_encrypt");
    reveal_strlit("anti_cheat_basic");
    reveal_strlit("anti_cheat_advanced");
    reveal_strlit("transform_file");
    reveal_strlit("multi_instance");
    reveal_strlit("move_packet_no_encrypt");
    reveal_strlit("lhx_aux_enabled");
    reveal_strlit("hp_mp_limit_enabled");
    reveal_strlit("inventory_limit_enabled");
    reveal_strlit("equip_ui_enabled");
    reveal_strlit("img_limit_enabled");
    reveal_strlit("dynamic_dialog_enabled");
    reveal_strlit("pickup_toast_enabled");
    reveal_strlit("exp_drift_enabled");
    reveal_strlit("inventory_limit_value");
    reveal_strlit("img_limit_value");
    reveal_strlit("text_encoding");
}

/// A character of the keys: a lower case letter, a digit or an underscore.
pub open spec fn key_char(c: char) -> bool {
    'a' <= c <= 'z' || '0' <= c <= '9' || c == '_'
}

/// A text of such characters.
#[verifier::opaque]
pub open spec fn is_key(key: Seq<char>) -> bool {
    key.len() > 0 && forall|i: int| 0 <= i < key.len() ==> key_char(#[trigger] key[i])
}

proof fn lemma_key(key: Seq<char>)
    requires
        is_key(key),
    ensures
        plain_key(key),
        ascii_lower_of(key) == key,
{
    reveal(is_key);
    assert forall|i: int| 0 <= i < key.len() implies !is_space(#[trigger] key[i]) && key[i] != '='
        && key[i] != '\n' by {
        assert(key_char(key[i]));
    }
    assert(key_char(key[0]));
    assert forall|i: int| 0 <= i < key.len() implies lower_char(#[trigger] key[i]) == key[i] by {
        assert(key_char(key[i]));
    }
    assert(ascii_lower_of(key) =~= key);
}

proof fn lemma_bool(b: bool)
    ensures
        says_true(bool_text(b)) == b,
        plain_value(bool_text(b)),
{
    reveal(plain_value);
    reveal(says_true);
    reveal(bool_text);
    reveal_strlit("true");
    reveal_strlit("false");
    reveal_strlit("1");
    reveal_strlit("yes");
    reveal_strlit("on");
    let s = bool_text(b);
    lemma_trim_fixed(s);
    assert(ascii_lower_of(s) =~= s);
    assert(s[0] == 't' || s[0] == 'f');
    assert(b ==> s == "true"@);
    assert(!b ==> s.len() == 5);
    assert(!s.contains('\n')) by {
        if s.contains('\n') {
            let k = choose|k: int| 0 <= k < s.len() && s[k] == '\n';
            assert(0 <= k < 5);
        }
    }
}

pub proof fn lemma_number(n: u32, default: u32, min: u32, max: u32)
    requires
        min <= n <= max,
    ensures
        limit_of(decimal(n as nat), default, min, max) == n,
        plain_value(decimal(n as nat)),
{
    reveal(plain_value);
    reveal(limit_of);
    let s = decimal(n as nat);
    lemma_decimal(n as nat);
    lemma_decimal_parses(n as nat, u32::MAX as nat);
    assert(!is_space(s[0]) && !is_space(s.last()));
    lemma_trim_fixed(s);
    assert(!s.contains('\n')) by {
        if s.contains('\n') {
            let k = choose|k: int| 0 <= k < s.len() && s[k] == '\n';
            assert(crate::text::is_digit(s[k]));
        }
    }
}

/// The state with the given switches, in their section.
pub open spec fn in_aux(st: StateModel, a: AuxConfig) -> StateModel {
    StateModel { section: "aux"@, aux: a, ..st }
}

/// A setting of the switches leads to the switches with it.
proof fn lemma_aux(
    st: StateModel,
    text: Seq<char>,
    b: AuxConfig,
    key: Seq<char>,
    value: Seq<char>,
)
    requires
        leads(st, text, in_aux(st, b)),
        plain_value(value),
        is_key(key),
    ensures
        leads(st, text + setting(key, value), in_aux(st, aux_with(b, key, value))),
{
    let mid = in_aux(st, b);
    let to = in_aux(st, aux_with(b, key, value));
    lemma_key(key);
    reveal_strlit("aux");
    reveal_strlit("list");
    assert("aux"@.len() == 3 && "list"@.len() == 4);
    lemma_setting(mid, key, value, to);
    lemma_then(st, text, mid, setting(key, value), to);
}

proof fn lemma_aux_keys()
    ensures
        is_key("packet_encrypt"@),
        is_key("anti_cheat_basic"@),
        is_key("anti_cheat_advanced"@),
        is_key("transform_file"@),
        is_key("multi_instance"@),
        is_key("move_packet_no_encrypt"@),
        is_key("lhx_aux_enabled"@),
        is_key("hp_mp_limit_enabled"@),
        is_key("inventory_limit_enabled"@),
        is_key("equip_ui_enabled"@),
        is_key("img_limit_enabled"@),
        is_key("inventory_limit_value"@),
        is_key("img_limit_value"@),
        is_key("text_encoding"@),
        is_key("dynamic_dialog_enabled"@),
        is_key("pickup_toast_enabled"@),
        is_key("exp_drift_enabled"@),
{
    assert(is_key("packet_encrypt"@)) by {
        reveal(is_key);
        reveal_strlit("packet_encrypt");
    }
    assert(is_key("anti_cheat_basic"@)) by {
        reveal(is_key);
        reveal_strlit("anti_cheat_basic");
    }
    assert(is_key("anti_cheat_advanced"@)) by {
        reveal(is_key);
        reveal_strlit("anti_cheat_advanced");
    }
    assert(is_key("transform_file"@)) by {
        reveal(is_key);
        reveal_strlit("transform_file");
    }
    assert(is_key("multi_instance"@)) by {
        reveal(is_key);
        reveal_strlit("multi_instance");
    }
    assert(is_key("move_packet_no_encrypt"@)) by {
        reveal(is_key);
        reveal_strlit("move_packet_no_encrypt");
    }
    assert(is_key("lhx_aux_enabled"@)) by {
        reveal(is_key);
        reveal_strlit("lhx_aux_enabled");
    }
    assert(is_key("hp_mp_limit_enabled"@)) by {
        reveal(is_key);
        reveal_strlit("hp_mp_limit_enabled");
    }
    assert(is_key("inventory_limit_enabled"@)) by {
        reveal(is_key);
        reveal_strlit("inventory_limit_enabled");
    }
    assert(is_key("equip_ui_enabled"@)) by {
        reveal(is_key);
        reveal_strlit("equip_ui_enabled");
    }
    assert(is_key("img_limit_enabled"@)) by {
        reveal(is_key);
        reveal_strlit("img_limit_enabled");
    }
    assert(is_key("inventory_limit_value"@)) by {
        reveal(is_key);
        reveal_strlit("inventory_limit_value");
    }
    assert(is_key("img_limit_value"@)) by {
        reveal(is_key);
        reveal_strlit("img_limit_value");
    }
    assert(is_key("text_encoding"@)) by {
        reveal(is_key);
        reveal_strlit("text_encoding");
    }
    assert(is_key("dynamic_dialog_enabled"@)) by {
        reveal(is_key);
        reveal_strlit("dynamic_dialog_enabled");
    }
    assert(is_key("pickup_toast_enabled"@)) by {
        reveal(is_key);
        reveal_strlit("pickup_toast_enabled");
    }
    assert(is_key("exp_drift_enabled"@)) by {
        reveal(is_key);
        reveal_strlit("exp_drift_enabled");
    }
}

proof fn lemma_launcher_keys()
    ensures
        is_key("active_skin"@),
        is_key("announcement_enabled"@),
        is_key("announcement_url"@),
        is_key("list_update_enabled"@),
        is_key("list_update_url"@),
        is_key("auto_update_enabled"@),
        is_key("auto_update_url"@),
        is_key("official_url"@),
        is_key("customer_service_url"@),
{
    assert(is_key("active_skin"@)) by {
        reveal(is_key);
        reveal_strlit("active_skin");
    }
    assert(is_key("announcement_enabled"@)) by {
        reveal(is_key);
        reveal_strlit("announcement_enabled");
    }
    assert(is_key("announcement_url"@)) by {
        reveal(is_key);
        reveal_strlit("announcement_url");
    }
    assert(is_key("list_update_enabled"@)) by {
        reveal(is_key);
        reveal_strlit("list_update_enabled");
    }
    assert(is_key("list_update_url"@)) by {
        reveal(is_key);
        reveal_strlit("list_update_url");
    }
    assert(is_key("auto_update_enabled"@)) by {
        reveal(is_key);
        reveal_strlit("auto_update_enabled");
    }
    assert(is_key("auto_update_url"@)) by {
        reveal(is_key);
        reveal_strlit("auto_update_url");
    }
    assert(is_key("official_url"@)) by {
        reveal(is_key);
        reveal_strlit("official_url");
    }
    assert(is_key("customer_service_url"@)) by {
        reveal(is_key);
        reveal_strlit("customer_service_url");
    }
}

/// The numbers of the switches are within their bounds.
pub open spec fn in_bounds(a: AuxConfig) -> bool {
    &&& MIN_INVENTORY_LIMIT_VALUE <= a.inventory_limit_value <= MAX_INVENTORY_LIMIT_VALUE
    &&& MIN_IMG_LIMIT_VALUE <= a.img_limit_value <= MAX_IMG_LIMIT_VALUE
}

proof fn lemma_values(a: AuxConfig)
    requires
        in_bounds(a),
    ensures
        plain_value(bool_text(a.packet_encrypt)),
        says_true(bool_text(a.packet_encrypt)) == a.packet_encrypt,
        plain_value(bool_text(a.anti_cheat_basic)),
        says_true(bool_text(a.anti_cheat_basic)) == a.anti_cheat_basic,
        plain_value(bool_text(a.anti_cheat_advanced)),
        says_true(bool_text(a.anti_cheat_advanced)) == a.anti_cheat_advanced,
        plain_value(bool_text(a.transform_file)),
        says_true(bool_text(a.transform_file)) == a.transform_file,
        plain_value(bool_text(a.multi_instance)),
        says_true(bool_text(a.multi_instance)) == a.multi_instance,
        plain_value(bool_text(a.move_packet_no_encrypt)),
        says_true(bool_text(a.move_packet_no_encrypt)) == a.move_packet_no_encrypt,
        plain_value(bool_text(a.lhx_aux_enabled)),
        says_true(bool_text(a.lhx_aux_enabled)) == a.lhx_aux_enabled,
        plain_value(bool_text(a.hp_mp_limit_enabled)),
        says_true(bool_text(a.hp_mp_limit_enabled)) == a.hp_mp_limit_enabled,
        plain_value(bool_text(a.inventory_limit_enabled)),
        says_true(bool_text(a.inventory_limit_enabled)) == a.inventory_limit_enabled,
        plain_value(bool_text(a.equip_ui_enabled)),
        says_true(bool_text(a.equip_ui_enabled)) == a.equip_ui_enabled,
        plain_value(bool_text(a.img_limit_enabled)),
        says_true(bool_text(a.img_limit_enabled)) == a.img_limit_enabled,
        plain_value(decimal(a.inventory_limit_value as nat)),
        limit_of(decimal(a.inventory_limit_value as nat), DEFAULT_INVENTORY_LIMIT_VALUE, MIN_INVENTORY_LIMIT_VALUE, MAX_INVENTORY_LIMIT_VALUE) == a.inventory_limit_value,
        plain_value(decimal(a.img_limit_value as nat)),
        limit_of(decimal(a.img_limit_value as nat), DEFAULT_IMG_LIMIT_VALUE, MIN_IMG_LIMIT_VALUE, MAX_IMG_LIMIT_VALUE) == a.img_limit_value,
        plain_value(mode_name(a.text_encoding)),
        mode_named(mode_name(a.text_encoding)) == a.text_encoding,
        plain_value(bool_text(a.dynamic_dialog_enabled)),
        says_true(bool_text(a.dynamic_dialog_enabled)) == a.dynamic_dialog_enabled,
        plain_value(bool_text(a.pickup_toast_enabled)),
        says_true(bool_text(a.pickup_toast_enabled)) == a.pickup_toast_enabled,
        plain_value(bool_text(a.exp_drift_enabled)),
        says_true(bool_text(a.exp_drift_enabled)) == a.exp_drift_enabled,
{
    lemma_bool(true);
    lemma_bool(false);
    lemma_number(
        a.inventory_limit_value,
        DEFAULT_INVENTORY_LIMIT_VALUE,
        MIN_INVENTORY_LIMIT_VALUE,
        MAX_INVENTORY_LIMIT_VALUE,
    );
    lemma_number(
        a.img_limit_value,
        DEFAULT_IMG_LIMIT_VALUE,
        MIN_IMG_LIMIT_VALUE,
        MAX_IMG_LIMIT_VALUE,
    );
    law_mode_reads_back(a.text_encoding);
    reveal(plain_value);
    let s = mode_name(a.text_encoding);
    reveal_strlit("auto");
    reveal_strlit("big5");
    reveal_strlit("gbk");
    assert(!s.contains('\n')) by {
        if s.contains('\n') {
            let k = choose|k: int| 0 <= k < s.len() && s[k] == '\n';
            assert(0 <= k < 4);
        }
    }
}

/// The switches after the lines of all of them.
#[verifier::opaque]
pub open spec fn aux_read(b: AuxConfig, a: AuxConfig) -> AuxConfig {
    let b = aux_with(b, "packet_encrypt"@, bool_text(a.packet_encrypt));
    let b = aux_with(b, "anti_cheat_basic"@, bool_text(a.anti_cheat_basic));
    let b = aux_with(b, "anti_cheat_advanced"@, bool_text(a.anti_cheat_advanced));
    let b = aux_with(b, "transform_file"@, bool_text(a.transform_file));
    let b = aux_with(b, "multi_instance"@, bool_text(a.multi_instance));
    let b = aux_with(b, "move_packet_no_encrypt"@, bool_text(a.move_packet_no_encrypt));
    let b = aux_with(b, "lhx_aux_enabled"@, bool_text(a.lhx_aux_enabled));
    let b = aux_with(b, "hp_mp_limit_enabled"@, bool_text(a.hp_mp_limit_enabled));
    let b = aux_with(b, "inventory_limit_enabled"@, bool_text(a.inventory_limit_enabled));
    let b = aux_with(b, "equip_ui_enabled"@, bool_text(a.equip_ui_enabled));
    let b = aux_with(b, "img_limit_enabled"@, bool_text(a.img_limit_enabled));
    let b = aux_with(b, "inventory_limit_value"@, decimal(a.inventory_limit_value as nat));
    let b = aux_with(b, "img_limit_value"@, decimal(a.img_limit_value as nat));
    let b = aux_with(b, "text_encoding"@, mode_name(a.text_encoding));
    let b = aux_with(b, "dynamic_dialog_enabled"@, bool_text(a.dynamic_dialog_enabled));
    let b = aux_with(b, "pickup_toast_enabled"@, bool_text(a.pickup_toast_enabled));
    let b = aux_with(b, "exp_drift_enabled"@, bool_text(a.exp_drift_enabled));
    b
}

proof fn lemma_packet_encrypt(b: AuxConfig, a: AuxConfig)
    ensures
        aux_read(b, a).packet_encrypt == a.packet_encrypt,
{
    reveal(aux_read);
    lemma_names();
    lemma_bool(a.packet_encrypt);
    assert forall|b: AuxConfig, key: Seq<char>, value: Seq<char>|
        (#[trigger] aux_with(b, key, value)).packet_encrypt == switched(b.packet_encrypt, "packet_encrypt"@, key, value) by {
        reveal(aux_with);
    }
}

proof fn lemma_anti_cheat_basic(b: AuxConfig, a: AuxConfig)
    ensures
        aux_read(b, a).anti_cheat_basic == a.anti_cheat_basic,
{
    reveal(aux_read);
    lemma_names();
    lemma_bool(a.anti_cheat_basic);
    assert forall|b: AuxConfig, key: Seq<char>, value: Seq<char>|
        (#[trigger] aux_with(b, key, value)).anti_cheat_basic == switched(b.anti_cheat_basic, "anti_cheat_basic"@, key, value) by {
        reveal(aux_with);
    }
}

proof fn lemma_anti_cheat_advanced(b: AuxConfig, a: AuxConfig)
    ensures
        aux_read(b, a).anti_cheat_advanced == a.anti_cheat_advanced,
{
    reveal(aux_read);
    lemma_names();
    lemma_bool(a.anti_cheat_advanced);
    assert forall|b: AuxConfig, key: Seq<char>, value: Seq<char>|
        (#[trigger] aux_with(b, key, value)).anti_cheat_advanced == switched(b.anti_cheat_advanced, "anti_cheat_advanced"@, key, value) by {
        reveal(aux_with);
    }
}

proof fn lemma_transform_file(b: AuxConfig, a: AuxConfig)
    ensures
        aux_read(b, a).transform_file == a.transform_file,
{
    reveal(aux_read);
    lemma_names();
    lemma_bool(a.transform_file);
    assert forall|b: AuxConfig, key: Seq<char>, value: Seq<char>|
        (#[trigger] aux_with(b, key, value)).transform_file == switched(b.transform_file, "transform_file"@, key, value) by {
        reveal(aux_with);
    }
}

proof fn lemma_multi_instance(b: AuxConfig, a: AuxConfig)
    ensures
        aux_read(b, a).multi_instance == a.multi_instance,
{
    reveal(aux_read);
    lemma_names();
    lemma_bool(a.multi_instance);
    assert forall|b: AuxConfig, key: Seq<char>, value: Seq<char>|
        (#[trigger] aux_with(b, key, value)).multi_instance == switched(b.multi_instance, "multi_instance"@, key, value) by {
        reveal(aux_with);
    }
}

proof fn lemma_move_packet_no_encrypt(b: AuxConfig, a: AuxConfig)
    ensures
        aux_read(b, a).move_packet_no_encrypt == a.move_packet_no_encrypt,
{
    reveal(aux_read);
    lemma_names();
    lemma_bool(a.move_packet_no_encrypt);
    assert forall|b: AuxConfig, key: Seq<char>, value: Seq<char>|
        (#[trigger] aux_with(b, key, value)).move_packet_no_encrypt == switched(b.move_packet_no_encrypt, "move_packet_no_encrypt"@, key, value) by {
        reveal(aux_with);
    }
}

proof fn lemma_lhx_aux_enabled(b: AuxConfig, a: AuxConfig)
    ensures
        aux_read(b, a).lhx_aux_enabled == a.lhx_aux_enabled,
{
    reveal(aux_read);
    lemma_names();
    lemma_bool(a.lhx_aux_enabled);
    assert forall|b: AuxConfig, key: Seq<char>, value: Seq<char>|
        (#[trigger] aux_with(b, key, value)).lhx_aux_enabled == switched(b.lhx_aux_enabled, "lhx_aux_enabled"@, key, value) by {
        reveal(aux_with);
    }
}

proof fn lemma_hp_mp_limit_enabled(b: AuxConfig, a: AuxConfig)
    ensures
        aux_read(b, a).hp_mp_limit_enabled == a.hp_mp_limit_enabled,
{
    reveal(aux_read);
    lemma_names();
    lemma_bool(a.hp_mp_limit_enabled);
    assert forall|b: AuxConfig, key: Seq<char>, value: Seq<char>|
        (#[trigger] aux_with(b, key, value)).hp_mp_limit_enabled == switched(b.hp_mp_limit_enabled, "hp_mp_limit_enabled"@, key, value) by {
        reveal(aux_with);
    }
}

proof fn lemma_inventory_limit_enabled(b: AuxConfig, a: AuxConfig)
    ensures
        aux_read(b, a).inventory_limit_enabled == a.inventory_limit_enabled,
{
    reveal(aux_read);
    lemma_names();
    lemma_bool(a.inventory_limit_enabled);
    assert forall|b: AuxConfig, key: Seq<char>, value: Seq<char>|
        (#[trigger] aux_with(b, key, value)).inventory_limit_enabled == switched(b.inventory_limit_enabled, "inventory_limit_enabled"@, key, value) by {
        reveal(aux_with);
    }
}

proof fn lemma_equip_ui_enabled(b: AuxConfig, a: AuxConfig)
    ensures
        aux_read(b, a).equip_ui_enabled == a.equip_ui_enabled,
{
    reveal(aux_read);
    lemma_names();
    lemma_bool(a.equip_ui_enabled);
    assert forall|b: AuxConfig, key: Seq<char>, value: Seq<char>|
        (#[trigger] aux_with(b, key, value)).equip_ui_enabled == switched(b.equip_ui_enabled, "equip_ui_enabled"@, key, value) by {
        reveal(aux_with);
    }
}

proof fn lemma_img_limit_enabled(b: AuxConfig, a: AuxConfig)
    ensures
        aux_read(b, a).img_limit_enabled == a.img_limit_enabled,
{
    reveal(aux_read);
    lemma_names();
    lemma_bool(a.img_limit_enabled);
    assert forall|b: AuxConfig, key: Seq<char>, value: Seq<char>|
        (#[trigger] aux_with(b, key, value)).img_limit_enabled == switched(b.img_limit_enabled, "img_limit_enabled"@, key, value) by {
        reveal(aux_with);
    }
}

proof fn lemma_inventory_limit_value(b: AuxConfig, a: AuxConfig)
    requires
        in_bounds(a),
    ensures
        aux_read(b, a).inventory_limit_value == a.inventory_limit_value,
{
    reveal(aux_read);
    lemma_names();
    lemma_number(
        a.inventory_limit_value,
        DEFAULT_INVENTORY_LIMIT_VALUE,
        MIN_INVENTORY_LIMIT_VALUE,
        MAX_INVENTORY_LIMIT_VALUE,
    );
    assert forall|b: AuxConfig, key: Seq<char>, value: Seq<char>|
        (#[trigger] aux_with(b, key, value)).inventory_limit_value == relimited(
            b.inventory_limit_value,
            "inventory_limit_value"@,
            key,
            value,
            DEFAULT_INVENTORY_LIMIT_VALUE,
            MIN_INVENTORY_LIMIT_VALUE,
            MAX_INVENTORY_LIMIT_VALUE,
        ) by {
        reveal(aux_with);
    }
}

proof fn lemma_img_limit_value(b: AuxConfig, a: AuxConfig)
    requires
        in_bounds(a),
    ensures
        aux_read(b, a).img_limit_value == a.img_limit_value,
{
    reveal(aux_read);
    lemma_names();
    lemma_number(
        a.img_limit_value,
        DEFAULT_IMG_LIMIT_VALUE,
        MIN_IMG_LIMIT_VALUE,
        MAX_IMG_LIMIT_VALUE,
    );
    assert forall|b: AuxConfig, key: Seq<char>, value: Seq<char>|
        (#[trigger] aux_with(b, key, value)).img_limit_value == relimited(
            b.img_limit_value,
            "img_limit_value"@,
            key,
            value,
            DEFAULT_IMG_LIMIT_VALUE,
            MIN_IMG_LIMIT_VALUE,
            MAX_IMG_LIMIT_VALUE,
        ) by {
        reveal(aux_with);
    }
}

proof fn lemma_text_encoding(b: AuxConfig, a: AuxConfig)
    ensures
        aux_read(b, a).text_encoding == a.text_encoding,
{
    reveal(aux_read);
    lemma_names();
    law_mode_reads_back(a.text_encoding);
    assert forall|b: AuxConfig, key: Seq<char>, value: Seq<char>|
        (#[trigger] aux_with(b, key, value)).text_encoding == (if key == "text_encoding"@ {
            mode_named(value)
        } else {
            b.text_encoding
        }) by {
        reveal(aux_with);
    }
}

proof fn lemma_dynamic_dialog_enabled(b: AuxConfig, a: AuxConfig)
    ensures
        aux_read(b, a).dynamic_dialog_enabled == a.dynamic_dialog_enabled,
{
    reveal(aux_read);
    lemma_names();
    lemma_bool(a.dynamic_dialog_enabled);
    assert forall|b: AuxConfig, key: Seq<char>, value: Seq<char>|
        (#[trigger] aux_with(b, key, value)).dynamic_dialog_enabled == switched(b.dynamic_dialog_enabled, "dynamic_dialog_enabled"@, key, value) by {
        reveal(aux_with);
    }
}

proof fn lemma_pickup_toast_enabled(b: AuxConfig, a: AuxConfig)
    ensures
        aux_read(b, a).pickup_toast_enabled == a.pickup_toast_enabled,
{
    reveal(aux_read);
    lemma_names();
    lemma_bool(a.pickup_toast_enabled);
    assert forall|b: AuxConfig, key: Seq<char>, value: Seq<char>|
        (#[trigger] aux_with(b, key, value)).pickup_toast_enabled == switched(b.pickup_toast_enabled, "pickup_toast_enabled"@, key, value) by {
        reveal(aux_with);
    }
}

proof fn lemma_exp_drift_enabled(b: AuxConfig, a: AuxConfig)
    ensures
        aux_read(b, a).exp_drift_enabled == a.exp_drift_enabled,
{
    reveal(aux_read);
    lemma_names();
    lemma_bool(a.exp_drift_enabled);
    assert forall|b: AuxConfig, key: Seq<char>, value: Seq<char>|
        (#[trigger] aux_with(b, key, value)).exp_drift_enabled == switched(b.exp_drift_enabled, "exp_drift_enabled"@, key, value) by {
        reveal(aux_with);
    }
}

/// The switches after the lines of all of them are those of the lines.
proof fn lemma_aux_read(b: AuxConfig, a: AuxConfig)
    requires
        in_bounds(a),
    ensures
        aux_read(b, a) == a,
{
    lemma_packet_encrypt(b, a);
    lemma_anti_cheat_basic(b, a);
    lemma_anti_cheat_advanced(b, a);
    lemma_transform_file(b, a);
    lemma_multi_instance(b, a);
    lemma_move_packet_no_encrypt(b, a);
    lemma_lhx_aux_enabled(b, a);
    lemma_hp_mp_limit_enabled(b, a);
    lemma_inventory_limit_enabled(b, a);
    lemma_equip_ui_enabled(b, a);
    lemma_img_limit_enabled(b, a);
    lemma_inventory_limit_value(b, a);
    lemma_img_limit_value(b, a);
    lemma_text_encoding(b, a);
    lemma_dynamic_dialog_enabled(b, a);
    lemma_pickup_toast_enabled(b, a);
    lemma_exp_drift_enabled(b, a);
}

proof fn lemma_aux_head(st: StateModel)
    ensures
        leads(st, "[aux]\n"@, in_aux(st, st.aux)),
{
    reveal_strlit("[aux]\n");
    reveal_strlit("[aux]");
    reveal_strlit("aux");
    reveal_strlit("\n");
    let h = "[aux]"@;
    lemma_trim_fixed(h);
    assert(h.subrange(1, 4) =~= "aux"@);
    assert(ascii_lower_of("aux"@) =~= "aux"@);
    lemma_line(st, h, in_aux(st, st.aux));
    assert(h + "\n"@ =~= "[aux]\n"@);
}

proof fn lemma_aux_text(st: StateModel, a: AuxConfig)
    requires
        in_bounds(a),
    ensures
        leads(st, aux_text(a), in_aux(st, a)),
{
    lemma_aux_keys();
    lemma_values(a);
    lemma_aux_read(st.aux, a);
    let b0 = st.aux;
    let t0 = "[aux]\n"@;
    lemma_aux_head(st);
    lemma_aux(st, t0, b0, "packet_encrypt"@, bool_text(a.packet_encrypt));
    let t1 = t0 + setting("packet_encrypt"@, bool_text(a.packet_encrypt));
    let b1 = aux_with(b0, "packet_encrypt"@, bool_text(a.packet_encrypt));
    lemma_aux(st, t1, b1, "anti_cheat_basic"@, bool_text(a.anti_cheat_basic));
    let t2 = t1 + setting("anti_cheat_basic"@, bool_text(a.anti_cheat_basic));
    let b2 = aux_with(b1, "anti_cheat_basic"@, bool_text(a.anti_cheat_basic));
    lemma_aux(st, t2, b2, "anti_cheat_advanced"@, bool_text(a.anti_cheat_advanced));
    let t3 = t2 + setting("anti_cheat_advanced"@, bool_text(a.anti_cheat_advanced));
    let b3 = aux_with(b2, "anti_cheat_advanced"@, bool_text(a.anti_cheat_advanced));
    lemma_aux(st, t3, b3, "transform_file"@, bool_text(a.transform_file));
    let t4 = t3 + setting("transform_file"@, bool_text(a.transform_file));
    let b4 = aux_with(b3, "transform_file"@, bool_text(a.transform_file));
    lemma_aux(st, t4, b4, "multi_instance"@, bool_text(a.multi_instance));
    let t5 = t4 + setting("multi_instance"@, bool_text(a.multi_instance));
    let b5 = aux_with(b4, "multi_instance"@, bool_text(a.multi_instance));
    lemma_aux(st, t5, b5, "move_packet_no_encrypt"@, bool_text(a.move_packet_no_encrypt));
    let t6 = t5 + setting("move_packet_no_encrypt"@, bool_text(a.move_packet_no_encrypt));
    let b6 = aux_with(b5, "move_packet_no_encrypt"@, bool_text(a.move_packet_no_encrypt));
    lemma_aux(st, t6, b6, "lhx_aux_enabled"@, bool_text(a.lhx_aux_enabled));
    let t7 = t6 + setting("lhx_aux_enabled"@, bool_text(a.lhx_aux_enabled));
    let b7 = aux_with(b6, "lhx_aux_enabled"@, bool_text(a.lhx_aux_enabled));
    lemma_aux(st, t7, b7, "hp_mp_limit_enabled"@, bool_text(a.hp_mp_limit_enabled));
    let t8 = t7 + setting("hp_mp_limit_enabled"@, bool_text(a.hp_mp_limit_enabled));
    let b8 = aux_with(b7, "hp_mp_limit_enabled"@, bool_text(a.hp_mp_limit_enabled));
    lemma_aux(st, t8, b8, "inventory_limit_enabled"@, bool_text(a.inventory_limit_enabled));
    let t9 = t8 + setting("inventory_limit_enabled"@, bool_text(a.inventory_limit_enabled));
    let b9 = aux_with(b8, "inventory_limit_enabled"@, bool_text(a.inventory_limit_enabled));
    lemma_aux(st, t9, b9, "equip_ui_enabled"@, bool_text(a.equip_ui_enabled));
    let t10 = t9 + setting("equip_ui_enabled"@, bool_text(a.equip_ui_enabled));
    let b10 = aux_with(b9, "equip_ui_enabled"@, bool_text(a.equip_ui_enabled));
    lemma_aux(st, t10, b10, "img_limit_enabled"@, bool_text(a.img_limit_enabled));
    let t11 = t10 + setting("img_limit_enabled"@, bool_text(a.img_limit_enabled));
    let b11 = aux_with(b10, "img_limit_enabled"@, bool_text(a.img_limit_enabled));
    lemma_aux(st, t11, b11, "inventory_limit_value"@, decimal(a.inventory_limit_value as nat));
    let t12 = t11 + setting("inventory_limit_value"@, decimal(a.inventory_limit_value as nat));
    let b12 = aux_with(b11, "inventory_limit_value"@, decimal(a.inventory_limit_value as nat));
    lemma_aux(st, t12, b12, "img_limit_value"@, decimal(a.img_limit_value as nat));
    let t13 = t12 + setting("img_limit_value"@, decimal(a.img_limit_value as nat));
    let b13 = aux_with(b12, "img_limit_value"@, decimal(a.img_limit_value as nat));
    lemma_aux(st, t13, b13, "text_encoding"@, mode_name(a.text_encoding));
    let t14 = t13 + setting("text_encoding"@, mode_name(a.text_encoding));
    let b14 = aux_with(b13, "text_encoding"@, mode_name(a.text_encoding));
    lemma_aux(st, t14, b14, "dynamic_dialog_enabled"@, bool_text(a.dynamic_dialog_enabled));
    let t15 = t14 + setting("dynamic_dialog_enabled"@, bool_text(a.dynamic_dialog_enabled));
    let b15 = aux_with(b14, "dynamic_dialog_enabled"@, bool_text(a.dynamic_dialog_enabled));
    lemma_aux(st, t15, b15, "pickup_toast_enabled"@, bool_text(a.pickup_toast_enabled));
    let t16 = t15 + setting("pickup_toast_enabled"@, bool_text(a.pickup_toast_enabled));
    let b16 = aux_with(b15, "pickup_toast_enabled"@, bool_text(a.pickup_toast_enabled));
    lemma_aux(st, t16, b16, "exp_drift_enabled"@, bool_text(a.exp_drift_enabled));
    let t17 = t16 + setting("exp_drift_enabled"@, bool_text(a.exp_drift_enabled));
    let b17 = aux_with(b16, "exp_drift_enabled"@, bool_text(a.exp_drift_enabled));
    assert(b17 == aux_read(st.aux, a)) by {
        reveal(aux_read);
    }
}

/// A text of the launcher's configuration that a line can hold.
pub open spec fn plain_launcher(l: LauncherModel) -> bool {
    &&& plain_value(l.active_skin)
    &&& plain_value(l.announcement_url)
    &&& plain_value(l.list_update_url)
    &&& plain_value(l.auto_update_url)
    &&& plain_value(l.official_url)
    &&& plain_value(l.customer_service_url)
}

proof fn lemma_launcher(
    st: StateModel,
    text: Seq<char>,
    mid: StateModel,
    key: Seq<char>,
    value: Seq<char>,
    to: StateModel,
)
    requires
        leads(st, text, mid),
        mid.section == "launcher"@,
        plain_value(value),
        is_key(key),
        to == (StateModel { launcher: launcher_with(mid.launcher, key, value), ..mid }),
    ensures
        leads(st, text + setting(key, value), to),
{
    lemma_key(key);
    reveal_strlit("aux");
    reveal_strlit("list");
    reveal_strlit("launcher");
    assert("aux"@.len() == 3 && "list"@.len() == 4 && "launcher"@.len() == 8);
    lemma_setting(mid, key, value, to);
    lemma_then(st, text, mid, setting(key, value), to);
}

proof fn lemma_launcher_names()
    ensures
        "active_skin"@.len() == 11 && "active_skin"@[0] == 'a',
        "announcement_enabled"@.len() == 20 && "announcement_enabled"@[0] == 'a',
        "announcement_url"@.len() == 16 && "announcement_url"@[0] == 'a',
        "list_update_enabled"@.len() == 19 && "list_update_enabled"@[0] == 'l',
        "list_update_url"@.len() == 15 && "list_update_url"@[0] == 'l',
        "auto_update_enabled"@.len() == 19 && "auto_update_enabled"@[0] == 'a',
        "auto_update_url"@.len() == 15 && "auto_update_url"@[0] == 'a',
        "official_url"@.len() == 12 && "official_url"@[0] == 'o',
        "customer_service_url"@.len() == 20 && "customer_service_url"@[0] == 'c',
{
    reveal_strlit("active_skin");
    reveal_strlit("announcement_enabled");
    reveal_strlit("announcement_url");
    reveal_strlit("list_update_enabled");
    reveal_strlit("list_update_url");
    reveal_strlit("auto_update_enabled");
    reveal_strlit("auto_update_url");
    reveal_strlit("official_url");
    reveal_strlit("customer_service_url");
}

proof fn lemma_launcher_text(st: StateModel, l: LauncherModel)
    requires
        plain_launcher(l),
    ensures
        leads(st, launcher_text(l), (StateModel { section: "launcher"@, launcher: l, ..st })),
{
    lemma_launcher_keys();
    lemma_launcher_names();
    lemma_bool(true);
    lemma_bool(false);
    reveal_strlit("\n[launcher]\n");
    reveal_strlit("[launcher]");
    reveal_strlit("launcher");
    reveal_strlit("\n");
    let m0 = StateModel { section: "launcher"@, ..st };
    let t0 = "\n[launcher]\n"@;
    let h = "[launcher]"@;
    let empty = Seq::<char>::empty();
    lemma_trim_fixed(empty);
    lemma_line(st, empty, st);
    lemma_trim_fixed(h);
    assert(h.subrange(1, 9) =~= "launcher"@);
    assert(ascii_lower_of("launcher"@) =~= "launcher"@);
    lemma_line(st, h, m0);
    lemma_then(st, empty + "\n"@, st, h + "\n"@, m0);
    assert((empty + "\n"@) + (h + "\n"@) =~= t0);
    let m1 = StateModel { launcher: launcher_with(m0.launcher, "active_skin"@, l.active_skin), ..m0 };
    let t1 = t0 + setting("active_skin"@, l.active_skin);
    lemma_launcher(st, t0, m0, "active_skin"@, l.active_skin, m1);
    let m2 = StateModel { launcher: launcher_with(m1.launcher, "announcement_enabled"@, bool_text(l.announcement_enabled)), ..m1 };
    let t2 = t1 + setting("announcement_enabled"@, bool_text(l.announcement_enabled));
    lemma_launcher(st, t1, m1, "announcement_enabled"@, bool_text(l.announcement_enabled), m2);
    let m3 = StateModel { launcher: launcher_with(m2.launcher, "announcement_url"@, l.announcement_url), ..m2 };
    let t3 = t2 + setting("announcement_url"@, l.announcement_url);
    lemma_launcher(st, t2, m2, "announcement_url"@, l.announcement_url, m3);
    let m4 = StateModel { launcher: launcher_with(m3.launcher, "list_update_enabled"@, bool_text(l.list_update_enabled)), ..m3 };
    let t4 = t3 + setting("list_update_enabled"@, bool_text(l.list_update_enabled));
    lemma_launcher(st, t3, m3, "list_update_enabled"@, bool_text(l.list_update_enabled), m4);
    let m5 = StateModel { launcher: launcher_with(m4.launcher, "list_update_url"@, l.list_update_url), ..m4 };
    let t5 = t4 + setting("list_update_url"@, l.list_update_url);
    lemma_launcher(st, t4, m4, "list_update_url"@, l.list_update_url, m5);
    let m6 = StateModel { launcher: launcher_with(m5.launcher, "auto_update_enabled"@, bool_text(l.auto_update_enabled)), ..m5 };
    let t6 = t5 + setting("auto_update_enabled"@, bool_text(l.auto_update_enabled));
    lemma_launcher(st, t5, m5, "auto_update_enabled"@, bool_text(l.auto_update_enabled), m6);
    let m7 = StateModel { launcher: launcher_with(m6.launcher, "auto_update_url"@, l.auto_update_url), ..m6 };
    let t7 = t6 + setting("auto_update_url"@, l.auto_update_url);
    lemma_launcher(st, t6, m6, "auto_update_url"@, l.auto_update_url, m7);
    let m8 = StateModel { launcher: launcher_with(m7.launcher, "official_url"@, l.official_url), ..m7 };
    let t8 = t7 + setting("official_url"@, l.official_url);
    lemma_launcher(st, t7, m7, "official_url"@, l.official_url, m8);
    let m9 = StateModel { launcher: launcher_with(m8.launcher, "customer_service_url"@, l.customer_service_url), ..m8 };
    let t9 = t8 + setting("customer_service_url"@, l.customer_service_url);
    lemma_launcher(st, t8, m8, "customer_service_url"@, l.customer_service_url, m9);
    assert(m9.launcher == l);
}

/// Settings that were written are read back as they were, without the two
/// switches that have no function any more, where their numbers are within
/// bounds and their texts have no white space at their ends and no line break.
pub proof fn law_settings_read_back(aux: AuxConfig, launcher: LauncherModel)
    requires
        in_bounds(aux),
        plain_launcher(launcher),
    ensures
        parsed_list(settings_text(aux, launcher)) == Ok::<ListModel, Seq<char>>(
            ListModel { servers: seq![], aux: normalized(aux), launcher },
        ),
{
    let a = normalized(aux);
    let st = start_state();
    let mid = in_aux(st, a);
    let to = StateModel { section: "launcher"@, launcher, ..mid };
    lemma_aux_text(st, a);
    lemma_launcher_text(mid, launcher);
    lemma_then(st, aux_text(a), mid, launcher_text(launcher), to);
    lemma_all(settings_text(aux, launcher), to);
}

/// The two switches that have no function any more are off, whatever a text says.
pub proof fn law_retired_switches_stay_off(content: Seq<char>)
    ensures
        parsed_list(content) matches Ok(m) ==> !m.aux.anti_cheat_basic
            && !m.aux.anti_cheat_advanced,
{
}

/// The state after the lines of the first `k` servers.
pub open spec fn listed(servers: Seq<ServerModel>, k: int) -> StateModel {
    StateModel { section: "list"@, servers: servers.take(k), ..start_state() }
}

proof fn lemma_list_head(servers: Seq<ServerModel>)
    ensures
        leads(start_state(), "[list]\n"@, listed(servers, 0)),
{
    reveal_strlit("[list]\n");
    reveal_strlit("[list]");
    reveal_strlit("list");
    reveal_strlit("\n");
    let h = "[list]"@;
    let to = listed(servers, 0);
    lemma_trim_fixed(h);
    assert(h.subrange(1, 5) =~= "list"@);
    assert(ascii_lower_of("list"@) =~= "list"@);
    assert(servers.take(0) =~= Seq::<ServerModel>::empty());
    lemma_line(start_state(), h, to);
    assert(h + "\n"@ =~= "[list]\n"@);
}

proof fn lemma_server_key(i: nat)
    ensures
        plain_key("ServerData"@ + decimal(i)),
        "serverdata"@.is_prefix_of(ascii_lower_of("ServerData"@ + decimal(i))),
{
    reveal_strlit("ServerData");
    reveal_strlit("serverdata");
    lemma_decimal(i);
    let d = decimal(i);
    let key = "ServerData"@ + d;
    assert forall|j: int| 0 <= j < key.len() implies !is_space(#[trigger] key[j]) && key[j] != '='
        && key[j] != '\n' by {
        if j >= 10 {
            assert(crate::text::is_digit(d[j - 10]));
        }
    }
    assert(ascii_lower_of(key).subrange(0, 10) =~= "serverdata"@);
}

proof fn lemma_servers(servers: Seq<ServerModel>, k: nat)
    requires
        k <= servers.len(),
        recoverable(servers),
        forall|i: int| 0 <= i < servers.len() ==> fits(#[trigger] servers[i]),
    ensures
        leads(
            start_state(),
            "[list]\n"@ + server_lines(servers, k),
            listed(servers, k as int),
        ),
    decreases k,
{
    if k == 0 {
        lemma_list_head(servers);
        assert("[list]\n"@ + server_lines(servers, 0) =~= "[list]\n"@);
    } else {
        let i = (k - 1) as nat;
        let m = servers[i as int];
        let stored = encrypted(SERVER_LIST_KEY@, info_bytes(m));
        let key = "ServerData"@ + decimal(i);
        let value = base64_of(stored);
        let mid = listed(servers, i as int);
        let to = listed(servers, k as int);
        lemma_servers(servers, i);
        lemma_server_key(i);
        lemma_base64_solid(stored);
        lemma_base64_bytes(stored);
        law_server_reads_back(m);
        assert(plain_value(value)) by {
            reveal(plain_value);
            if value.contains('\n') {
                let j = choose|j: int| 0 <= j < value.len() && value[j] == '\n';
                assert(!is_space(value[j]));
            }
        }
        assert(servers.take(k as int) =~= servers.take(i as int).push(m));
        lemma_setting(mid, key, value, to);
        lemma_then(
            start_state(),
            "[list]\n"@ + server_lines(servers, i),
            mid,
            setting(key, value),
            to,
        );
        assert(server_line(i, m) =~= setting(key, value));
        assert(("[list]\n"@ + server_lines(servers, i)) + setting(key, value)
            =~= "[list]\n"@ + server_lines(servers, k));
    }
}

/// A server list that was written is read back as it was.
pub(crate) proof fn lemma_servers_read_back(servers: Seq<ServerModel>)
    requires
        recoverable(servers),
        forall|i: int| 0 <= i < servers.len() ==> fits(#[trigger] servers[i]),
    ensures
        parsed_list(list_text(servers)) == Ok::<ListModel, Seq<char>>(
            ListModel { servers, aux: default_aux(), launcher: default_launcher() },
        ),
{
    lemma_servers(servers, servers.len());
    assert(servers.take(servers.len() as int) =~= servers);
    lemma_all(list_text(servers), listed(servers, servers.len() as int));
}

} // verus!

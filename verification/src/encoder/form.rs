//! The encoder's form: eight slots for servers, and the settings.

use vstd::prelude::*;
use crate::encoder::options::{
    lock_encoder_server_options, selected_text_encoding_mode, text_encoding_mode_index,
};
#[allow(unused_imports)]
use crate::encoder::options::{locked, mode_at, mode_index};
#[allow(unused_imports)]
use crate::legacy_text::TextEncodingMode;
use crate::rsa32::Rsa32;
use crate::server_list::config::{
    normalize_aux_config, parse_u32_clamped, AuxConfig, DEFAULT_IMG_LIMIT_VALUE,
    DEFAULT_INVENTORY_LIMIT_VALUE, MAX_IMG_LIMIT_VALUE, MAX_INVENTORY_LIMIT_VALUE,
    MIN_IMG_LIMIT_VALUE, MIN_INVENTORY_LIMIT_VALUE,
};
#[allow(unused_imports)]
use crate::server_list::config::{limit_of, normalized, server_models};
use crate::server_list::info::{server_with, ServerInfo};
#[allow(unused_imports)]
use crate::server_list::info::{plain_server, ServerModel};
use crate::server_list::list::MAX_SERVERS;
#[allow(unused_imports)]
use crate::server_list::read_back::in_bounds;
use crate::text::{
    chars_of, decimal_chars, own, parse_i32, push_all, push_str, signed_decimal_chars, string_of,
    trim,
};
#[allow(unused_imports)]
use crate::text::{
    decimal, lemma_signed_decimal_parses, parse_signed, signed_decimal, trim_of,
};
#[allow(unused_imports)]
use crate::text_laws::{blank, law_trim_empties_blanks};

verus! {

/// The server of an empty slot.
pub open spec fn slot(number: nat, used: bool) -> ServerModel {
    plain_server("Server"@ + decimal(number), "127.0.0.1"@, 7001, used)
}

fn make_slot(number: usize, used: bool) -> (r: ServerInfo)
    ensures
        r@ == slot(number as nat, used),
{
    let mut name = chars_of("Server");
    push_all(&mut name, decimal_chars(number as u64).as_slice());
    server_with(string_of(name.as_slice()), own("127.0.0.1"), 7001, used)
}

/// Eight empty slots, of which the first is in use.
pub fn init_servers() -> (r: Vec<ServerInfo>)
    ensures
        r@.len() == MAX_SERVERS,
        forall|i: int|
            0 <= i < MAX_SERVERS ==> (#[trigger] r@[i])@ == slot((i + 1) as nat, i == 0),
{
    let mut v: Vec<ServerInfo> = Vec::new();
    let mut i: usize = 0;
    while i < MAX_SERVERS
        invariant
            i <= MAX_SERVERS,
            v@.len() == i,
            forall|k: int| 0 <= k < i ==> (#[trigger] v@[k])@ == slot((k + 1) as nat, k == 0),
        decreases MAX_SERVERS - i,
    {
        v.push(make_slot(i + 1, i == 0));
        i += 1;
    }
    v
}

/// A server after the form's fields were taken over: a port that is no number
/// stays, and a server without a name is not in use.
pub open spec fn flushed(
    m: ServerModel,
    name: Seq<char>,
    ip: Seq<char>,
    port: Seq<char>,
) -> ServerModel {
    ServerModel {
        name,
        ip,
        port: match parse_signed(port) {
            Some(p) => p,
            None => m.port,
        },
        used: trim_of(name).len() > 0,
        ..m
    }
}

/// Takes the form's fields over to a server.
pub fn flush_form(server: ServerInfo, name: &str, ip: &str, port: &str) -> (r: ServerInfo)
    ensures
        r@ == flushed(server@, name@, ip@, port@),
{
    let mut s = server;
    s.name = own(name);
    s.ip = own(ip);
    match parse_i32(chars_of(port).as_slice()) {
        Some(p) => {
            s.port = p;
        },
        None => {},
    }
    s.used = trim(chars_of(name).as_slice()).len() > 0;
    s
}

/// What the form shows of a server.
#[derive(Debug, Clone)]
pub struct FormFields {
    pub name: String,
    pub ip: String,
    pub port: String,
    pub rsa_e: String,
    pub rsa_d: String,
    pub rsa_n: String,
}

/// A part of a key as the form shows it: nothing for zero.
pub open spec fn key_text(v: u32) -> Seq<char> {
    if v == 0 {
        seq![]
    } else {
        decimal(v as nat)
    }
}

fn show_key(v: u32) -> (r: String)
    ensures
        r@ == key_text(v),
{
    if v == 0 {
        String::new()
    } else {
        string_of(decimal_chars(v as u64).as_slice())
    }
}

/// What the form shows of a server.
pub fn fill_form(server: &ServerInfo) -> (r: FormFields)
    ensures
        r.name@ == server.name@,
        r.ip@ == server.ip@,
        r.port@ == signed_decimal(server.port as int),
        r.rsa_e@ == key_text(server.rsa_e),
        r.rsa_d@ == key_text(server.rsa_d),
        r.rsa_n@ == key_text(server.rsa_n),
{
    FormFields {
        name: own(server.name.as_str()),
        ip: own(server.ip.as_str()),
        port: string_of(signed_decimal_chars(server.port).as_slice()),
        rsa_e: show_key(server.rsa_e),
        rsa_d: show_key(server.rsa_d),
        rsa_n: show_key(server.rsa_n),
    }
}

/// Taking over what the form shows of a server changes nothing of it but whether
/// it is in use.
pub proof fn law_form_keeps_server(m: ServerModel)
    requires
        i32::MIN <= m.port <= i32::MAX,
    ensures
        flushed(m, m.name, m.ip, signed_decimal(m.port)) == (ServerModel {
            used: trim_of(m.name).len() > 0,
            ..m
        }),
{
    lemma_signed_decimal_parses(m.port);
}

/// The switches as the form has them.
pub open spec fn collected(
    checked: AuxConfig,
    inventory: Seq<char>,
    img: Seq<char>,
    selection: Option<usize>,
    multi_instance: bool,
) -> AuxConfig {
    normalized(
        AuxConfig {
            inventory_limit_value: limit_of(
                inventory,
                DEFAULT_INVENTORY_LIMIT_VALUE,
                MIN_INVENTORY_LIMIT_VALUE,
                MAX_INVENTORY_LIMIT_VALUE,
            ),
            img_limit_value: limit_of(
                img,
                DEFAULT_IMG_LIMIT_VALUE,
                MIN_IMG_LIMIT_VALUE,
                MAX_IMG_LIMIT_VALUE,
            ),
            text_encoding: mode_at(selection),
            multi_instance,
            ..checked
        },
    )
}

/// The switches as the form has them: what is checked, the two numbers, the
/// encoding that was chosen, and the switch that the form does not show.
pub fn collect_aux(
    checked: AuxConfig,
    inventory: &str,
    img: &str,
    selection: Option<usize>,
    multi_instance: bool,
) -> (r: AuxConfig)
    ensures
        r == collected(checked, inventory@, img@, selection, multi_instance),
{
    let inventory_limit_value: u32 = parse_u32_clamped(
        inventory,
        DEFAULT_INVENTORY_LIMIT_VALUE,
        MIN_INVENTORY_LIMIT_VALUE,
        MAX_INVENTORY_LIMIT_VALUE,
    );
    let img_limit_value: u32 = parse_u32_clamped(
        img,
        DEFAULT_IMG_LIMIT_VALUE,
        MIN_IMG_LIMIT_VALUE,
        MAX_IMG_LIMIT_VALUE,
    );
    let text_encoding = selected_text_encoding_mode(selection);
    normalize_aux_config(
        AuxConfig {
            inventory_limit_value,
            img_limit_value,
            text_encoding,
            multi_instance,
            ..checked
        },
    )
}

/// What the form shows of the switches: what is checked, the two numbers, and
/// the index of the encoding.
pub fn apply_aux(a: &AuxConfig) -> (r: (AuxConfig, String, String, usize))
    ensures
        r.0 == normalized(*a),
        r.1@ == decimal(a.inventory_limit_value as nat),
        r.2@ == decimal(a.img_limit_value as nat),
        r.3 == mode_index(a.text_encoding),
{
    (
        normalize_aux_config(*a),
        string_of(decimal_chars(a.inventory_limit_value as u64).as_slice()),
        string_of(decimal_chars(a.img_limit_value as u64).as_slice()),
        text_encoding_mode_index(a.text_encoding),
    )
}

/// Collecting what the form shows of some switches gives them back, without those
/// that have no function any more, where their numbers are within bounds and
/// their encoding is one that the form offers.
pub proof fn law_form_keeps_aux(a: AuxConfig)
    requires
        in_bounds(a),
        a.text_encoding != TextEncodingMode::Auto,
    ensures
        collected(
            normalized(a),
            decimal(a.inventory_limit_value as nat),
            decimal(a.img_limit_value as nat),
            Some(mode_index(a.text_encoding)),
            a.multi_instance,
        ) == normalized(a),
{
    crate::server_list::read_back::lemma_number(
        a.inventory_limit_value,
        DEFAULT_INVENTORY_LIMIT_VALUE,
        MIN_INVENTORY_LIMIT_VALUE,
        MAX_INVENTORY_LIMIT_VALUE,
    );
    crate::server_list::read_back::lemma_number(
        a.img_limit_value,
        DEFAULT_IMG_LIMIT_VALUE,
        MIN_IMG_LIMIT_VALUE,
        MAX_IMG_LIMIT_VALUE,
    );
}

/// The slots after a list was loaded: its servers without the options that
/// clients no longer have, and empty slots behind them up to eight.
pub fn fill_slots(loaded: Vec<ServerInfo>) -> (r: Vec<ServerInfo>)
    ensures
        r@.len() == (if loaded@.len() < MAX_SERVERS {
            MAX_SERVERS as int
        } else {
            loaded@.len() as int
        }),
        forall|i: int|
            0 <= i < r@.len() ==> (#[trigger] r@[i])@ == (if i < loaded@.len() {
                locked(loaded@[i]@)
            } else {
                slot((i + 1) as nat, false)
            }),
{
    let mut v = lock_all(loaded);
    let ghost n = v@.len();
    let ghost head = v@;
    while v.len() < MAX_SERVERS
        invariant
            n == head.len(),
            n <= v@.len(),
            v@.len() <= MAX_SERVERS || v@.len() == n,
            forall|i: int|
                0 <= i < v@.len() ==> (#[trigger] v@[i])@ == (if i < n {
                    head[i]@
                } else {
                    slot((i + 1) as nat, false)
                }),
        decreases MAX_SERVERS - v@.len(),
    {
        let number: usize = v.len() + 1;
        v.push(make_slot(number, false));
    }
    v
}

fn lock_all(servers: Vec<ServerInfo>) -> (r: Vec<ServerInfo>)
    ensures
        r@.len() == servers@.len(),
        forall|i: int| 0 <= i < r@.len() ==> (#[trigger] r@[i])@ == locked(servers@[i]@),
{
    let mut v = servers;
    let ghost all = v@;
    let mut i: usize = 0;
    while i < v.len()
        invariant
            i <= v@.len(),
            v@.len() == all.len(),
            forall|k: int| 0 <= k < i ==> (#[trigger] v@[k])@ == locked(all[k]@),
            forall|k: int| i <= k < v@.len() ==> #[trigger] v@[k] == all[k],
        decreases v@.len() - i,
    {
        let mut s = ServerInfo::default();
        std::mem::swap(&mut s, &mut v[i]);
        let s = lock_encoder_server_options(s);
        v[i] = s;
        i += 1;
    }
    v
}

/// A list with a server put into a slot: empty places in front of the slot are
/// filled.
pub open spec fn placed(existing: Seq<ServerModel>, idx: int, current: ServerModel) -> Seq<
    ServerModel,
> {
    let len = if existing.len() <= idx {
        idx + 1
    } else {
        existing.len() as int
    };
    Seq::new(
        len as nat,
        |i: int|
            if i == idx {
                current
            } else if i < existing.len() {
                existing[i]
            } else {
                plain_server(seq![], seq![], 0, false)
            },
    )
}

/// The servers of a list that have a name, without the options that clients no
/// longer have.
pub open spec fn active(servers: Seq<ServerModel>) -> Seq<ServerModel>
    decreases servers.len(),
{
    if servers.len() == 0 {
        seq![]
    } else {
        let rest = active(servers.drop_last());
        if trim_of(servers.last().name).len() > 0 {
            rest.push(locked(servers.last()))
        } else {
            rest
        }
    }
}

/// The list to be written after the server of a slot was encoded; nothing, where
/// the server has no name. The other servers of the list stay.
pub fn save_list(existing: Vec<ServerInfo>, idx: usize, current: ServerInfo) -> (r: Option<
    Vec<ServerInfo>,
>)
    requires
        idx < usize::MAX,
    ensures
        match r {
            Some(v) => trim_of(current.name@).len() > 0 && server_models(v@) == active(
                placed(server_models(existing@), idx as int, locked(current@)),
            ),
            None => trim_of(current.name@).len() == 0,
        },
{
    if trim(chars_of(current.name.as_str()).as_slice()).len() == 0 {
        return None;
    }
    let ghost name = current.name@;
    let ghost wanted = placed(server_models(existing@), idx as int, locked(current@));
    let ghost given = server_models(existing@);
    let current = lock_encoder_server_options(current);
    let mut all = existing;
    while all.len() < idx
        invariant
            idx < usize::MAX,
            given.len() <= all@.len(),
            all@.len() <= idx || all@.len() == given.len(),
            forall|i: int|
                0 <= i < all@.len() ==> (#[trigger] all@[i])@ == (if i < given.len() {
                    given[i]
                } else {
                    plain_server(seq![], seq![], 0, false)
                }),
        decreases idx - all@.len(),
    {
        all.push(ServerInfo::default());
    }
    if all.len() == idx {
        all.push(current);
    } else {
        all[idx] = current;
    }
    assert(server_models(all@) == wanted);
    Some(keep_named(all))
}

fn keep_named(servers: Vec<ServerInfo>) -> (r: Vec<ServerInfo>)
    ensures
        server_models(r@) == active(server_models(servers@)),
{
    let mut v = servers;
    let ghost all = server_models(v@);
    let mut out: Vec<ServerInfo> = Vec::new();
    let mut i: usize = 0;
    proof {
        assert(server_models(out@) == Seq::<ServerModel>::empty());
        assert(all.take(0) == Seq::<ServerModel>::empty());
    }
    while i < v.len()
        invariant
            i <= v@.len(),
            v@.len() == all.len(),
            forall|k: int| i <= k < v@.len() ==> (#[trigger] v@[k])@ == all[k],
            server_models(out@) == active(all.take(i as int)),
        decreases v@.len() - i,
    {
        proof {
            let done = all.take(i + 1);
            assert(done.drop_last() == all.take(i as int));
            assert(done.last() == all[i as int]);
        }
        let mut s = ServerInfo::default();
        std::mem::swap(&mut s, &mut v[i]);
        let ghost before = server_models(out@);
        if trim(chars_of(s.name.as_str()).as_slice()).len() > 0 {
            out.push(lock_encoder_server_options(s));
            assert(server_models(out@) == before.push(locked(all[i as int])));
        }
        i += 1;
    }
    assert(all.take(i as int) == all);
    out
}

/// The servers of the list, or those of the settings where the list has none.
pub fn choose_servers(listed: Vec<ServerInfo>, in_settings: Vec<ServerInfo>) -> (r: Vec<ServerInfo>)
    ensures
        r == (if listed@.len() == 0 {
            in_settings
        } else {
            listed
        }),
{
    if listed.len() == 0 {
        in_settings
    } else {
        listed
    }
}

/// Gives a server a key.
pub fn apply_key(server: ServerInfo, key: &Rsa32) -> (r: ServerInfo)
    ensures
        r@ == (ServerModel { rsa_e: key.e, rsa_d: key.d, rsa_n: key.n, ..server@ }),
{
    let mut s = server;
    s.rsa_e = key.e;
    s.rsa_d = key.d;
    s.rsa_n = key.n;
    s
}

/// The file that carries a key to the server.
pub fn pack_properties(key: &Rsa32) -> (r: String)
    ensures
        r@
            == "; 由 encoder.exe 產生 — 伺服器綑綁金鑰\n; 把這個檔案放到伺服器的 ./config/pack.properties\n; 客戶端的 D/N 已經寫進 ServerInfo（list.txt），不需要客戶端讀這個檔\nAutoentication=True\nRSA_KEY_E="@
            + decimal(key.e as nat) + "\nRSA_KEY_D="@ + decimal(key.d as nat) + "\nRSA_KEY_N="@
            + decimal(key.n as nat) + "\n"@,
{
    let mut out = chars_of(
        "; 由 encoder.exe 產生 — 伺服器綑綁金鑰\n; 把這個檔案放到伺服器的 ./config/pack.properties\n; 客戶端的 D/N 已經寫進 ServerInfo（list.txt），不需要客戶端讀這個檔\nAutoentication=True\nRSA_KEY_E=",
    );
    push_all(&mut out, decimal_chars(key.e as u64).as_slice());
    push_str(&mut out, "\nRSA_KEY_D=");
    push_all(&mut out, decimal_chars(key.d as u64).as_slice());
    push_str(&mut out, "\nRSA_KEY_N=");
    push_all(&mut out, decimal_chars(key.n as u64).as_slice());
    push_str(&mut out, "\n");
    string_of(out.as_slice())
}

/// The place of a list that a written list has a server of: the one that was edited,
/// and those of the others that have a name.
pub open spec fn is_written(existing: Seq<ServerModel>, idx: int, i: int) -> bool {
    i == idx || (0 <= i < existing.len() && !blank(existing[i].name))
}

/// How many servers of the first places of a list are written.
pub open spec fn written_before(existing: Seq<ServerModel>, idx: int, i: int) -> nat
    decreases i,
{
    if i <= 0 {
        0
    } else {
        written_before(existing, idx, i - 1) + (if is_written(existing, idx, i - 1) {
            1nat
        } else {
            0nat
        })
    }
}

proof fn lemma_active(
    all: Seq<ServerModel>,
    existing: Seq<ServerModel>,
    idx: int,
    k: int,
)
    requires
        0 <= k <= all.len(),
        forall|i: int|
            0 <= i < all.len() ==> (trim_of((#[trigger] all[i]).name).len() > 0 <==> is_written(
                existing,
                idx,
                i,
            )),
    ensures
        active(all.take(k)).len() == written_before(existing, idx, k),
        forall|i: int|
            0 <= i < k && #[trigger] is_written(existing, idx, i) ==> {
                &&& written_before(existing, idx, i) < active(all.take(k)).len()
                &&& active(all.take(k))[written_before(existing, idx, i) as int] == locked(all[i])
            },
    decreases k,
{
    if k > 0 {
        lemma_active(all, existing, idx, k - 1);
        let done = all.take(k);
        assert(done.drop_last() == all.take(k - 1));
        assert(done.last() == all[k - 1]);
        assert forall|i: int| 0 <= i < k && #[trigger] is_written(existing, idx, i) implies {
            &&& written_before(existing, idx, i) < active(done).len()
            &&& active(done)[written_before(existing, idx, i) as int] == locked(all[i])
        } by {
            if i < k - 1 {
                assert(written_before(existing, idx, i) < active(all.take(k - 1)).len());
            }
        }
    }
}

/// What is written after the server of a slot was edited: that server, and in front of
/// it and behind it every other server of the list that has a name, in the list's
/// order and each with all it had but the options that clients no longer have.
pub proof fn law_the_other_servers_stay(
    existing: Seq<ServerModel>,
    idx: int,
    current: ServerModel,
)
    requires
        0 <= idx,
        !blank(current.name),
    ensures
        ({
            let saved = active(placed(existing, idx, locked(current)));
            &&& saved.len() == written_before(
                existing,
                idx,
                if idx < existing.len() {
                    existing.len() as int
                } else {
                    idx + 1
                },
            )
            &&& written_before(existing, idx, idx) < saved.len()
            &&& saved[written_before(existing, idx, idx) as int] == (ServerModel {
                usehelper: false,
                usebd: false,
                bdfile: Seq::empty(),
                ..current
            })
            &&& forall|i: int|
                0 <= i < existing.len() && i != idx && !blank((#[trigger] existing[i]).name) ==> {
                    &&& written_before(existing, idx, i) < saved.len()
                    &&& saved[written_before(existing, idx, i) as int] == (ServerModel {
                        usehelper: false,
                        usebd: false,
                        bdfile: Seq::empty(),
                        ..existing[i]
                    })
                }
        }),
{
    let all = placed(existing, idx, locked(current));
    let n = all.len() as int;
    assert forall|i: int| 0 <= i < all.len() implies (trim_of((#[trigger] all[i]).name).len() > 0
        <==> is_written(existing, idx, i)) by {
        law_trim_empties_blanks(all[i].name);
        assert(!blank(current.name));
    }
    lemma_active(all, existing, idx, n);
    assert(all.take(n) == all);
    assert(is_written(existing, idx, idx));
    assert forall|i: int|
        0 <= i < existing.len() && i != idx && !blank((#[trigger] existing[i]).name) implies {
        &&& written_before(existing, idx, i) < active(all).len()
        &&& active(all)[written_before(existing, idx, i) as int] == (ServerModel {
            usehelper: false,
            usebd: false,
            bdfile: Seq::empty(),
            ..existing[i]
        })
    } by {
        assert(is_written(existing, idx, i));
    }
}

proof fn lemma_all_written(existing: Seq<ServerModel>, idx: int, i: int)
    requires
        0 <= i <= existing.len(),
        forall|k: int| 0 <= k < existing.len() ==> !blank((#[trigger] existing[k]).name),
    ensures
        written_before(existing, idx, i) == i,
    decreases i,
{
    if i > 0 {
        lemma_all_written(existing, idx, i - 1);
        assert(!blank(existing[i - 1].name));
    }
}

/// Where every server of a list has a name, editing one writes a list of as many
/// servers that differs in that one alone.
pub proof fn law_one_server_changes(existing: Seq<ServerModel>, idx: int, current: ServerModel)
    requires
        0 <= idx < existing.len(),
        !blank(current.name),
        forall|k: int| 0 <= k < existing.len() ==> !blank((#[trigger] existing[k]).name),
    ensures
        ({
            let saved = active(placed(existing, idx, locked(current)));
            &&& saved.len() == existing.len()
            &&& saved[idx] == (ServerModel {
                usehelper: false,
                usebd: false,
                bdfile: Seq::empty(),
                ..current
            })
            &&& forall|i: int|
                0 <= i < existing.len() && i != idx ==> #[trigger] saved[i] == (ServerModel {
                    usehelper: false,
                    usebd: false,
                    bdfile: Seq::empty(),
                    ..existing[i]
                })
        }),
{
    law_the_other_servers_stay(existing, idx, current);
    lemma_all_written(existing, idx, existing.len() as int);
    lemma_all_written(existing, idx, idx);
    let saved = active(placed(existing, idx, locked(current)));
    assert forall|i: int| 0 <= i < existing.len() && i != idx implies #[trigger] saved[i] == (
    ServerModel {
        usehelper: false,
        usebd: false,
        bdfile: Seq::empty(),
        ..existing[i]
    }) by {
        lemma_all_written(existing, idx, i);
        assert(!blank(existing[i].name));
    }
}

/// Taking the form's fields over changes a server's name, its address, its port where
/// a number is given, and whether it is in use, which is whether it has a name;
/// nothing else.
pub proof fn law_form_is_taken_over(
    m: ServerModel,
    name: Seq<char>,
    ip: Seq<char>,
    port: Seq<char>,
    n: int,
)
    requires
        i32::MIN <= n <= i32::MAX,
    ensures
        flushed(m, name, ip, port) == (ServerModel {
            name,
            ip,
            port: flushed(m, name, ip, port).port,
            used: !blank(name),
            ..m
        }),
        flushed(m, name, ip, signed_decimal(n)).port == n,
        flushed(m, name, ip, Seq::empty()).port == m.port,
        parse_signed(port) is None ==> flushed(m, name, ip, port).port == m.port,
{
    law_trim_empties_blanks(name);
    lemma_signed_decimal_parses(n);
}

/// A part of a key is shown as its digits, and as nothing where there is none.
pub proof fn law_key_is_shown(v: u32)
    ensures
        v == 0 ==> key_text(v).len() == 0,
        v != 0 ==> crate::text::parse_dec(key_text(v), u32::MAX as nat) == Some(v as nat),
{
    crate::text::lemma_decimal_parses(v as nat, u32::MAX as nat);
}

/// A free slot has a name made of its number, the machine's own address and the port
/// of a login server.
pub proof fn law_free_slot(number: nat, used: bool)
    ensures
        slot(number, used).name == "Server"@ + decimal(number),
        slot(number, used).ip == "127.0.0.1"@,
        slot(number, used).port == 7001,
        slot(number, used).used == used,
        !slot(number, used).usehelper && !slot(number, used).usebd,
        slot(number, used).rsa_e == 0 && slot(number, used).rsa_d == 0 && slot(number, used).rsa_n
            == 0,
{
}

} // verus!

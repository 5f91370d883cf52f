//! What the encoder makes of its arguments, its choices and its tables.

use crate::code::{from_le32, law_le32_reads_back, le32};
use crate::encoder::commands::{
    described, descriptions, gen_default, gen_from, morph_default, morph_from, GenModel, MorphFault,
    MorphModel,
};
use crate::encoder::form::collected;
use crate::encoder::options::{locked, mode_at, mode_index, packed_name};
use crate::encoder::pak::{is_ours, lettered, pak_body, pak_of, payload_of};
use crate::legacy_text::TextEncodingMode;
use crate::morph_auth::{is_tagged, mac_of};
use crate::server_list::cipher::encrypted;
use crate::server_list::config::{limit_of, AuxConfig};
use crate::server_list::info::ServerModel;
use crate::text::{decimal, lemma_signed_decimal_parses, parse_signed, signed_decimal};
use crate::text_laws::law_number;
use vstd::prelude::*;

verus! {

/// Without arguments a list is made of a server `Server`, into `config.ini`.
pub proof fn law_list_defaults(i: int, args: Seq<Seq<char>>)
    requires
        i >= args.len(),
    ensures
        gen_default().ip is None && gen_default().port is None,
        gen_default().name == "Server"@,
        gen_default().output == "config.ini"@,
        gen_from(args, i, gen_default()) == Ok::<_, Seq<char>>(gen_default()),
{
}

/// Each option of a list takes the argument behind it and sets that one thing; what is
/// no option is an error with that argument.
pub proof fn law_list_options(args: Seq<Seq<char>>, i: int, m: GenModel, v: Seq<char>, n: int)
    requires
        0 <= i,
        i + 1 < args.len(),
        args[i + 1] == v,
        i32::MIN <= n <= i32::MAX,
    ensures
        args[i] == "--ip"@ ==> gen_from(args, i, m) == gen_from(
            args,
            i + 2,
            GenModel { ip: Some(v), ..m },
        ),
        args[i] == "--port"@ && v == signed_decimal(n) ==> gen_from(args, i, m) == gen_from(
            args,
            i + 2,
            GenModel { port: Some(n), ..m },
        ),
        args[i] == "--port"@ && parse_signed(v) is None ==> gen_from(args, i, m) == gen_from(
            args,
            i + 2,
            GenModel { port: None, ..m },
        ),
        args[i] == "--name"@ ==> gen_from(args, i, m) == gen_from(
            args,
            i + 2,
            GenModel { name: v, ..m },
        ),
        args[i] == "-o"@ || args[i] == "--output"@ ==> gen_from(args, i, m) == gen_from(
            args,
            i + 2,
            GenModel { output: v, ..m },
        ),
        args[i].len() == 0 || args[i][0] != '-' ==> gen_from(args, i, m) == Err::<GenModel, _>(
            args[i],
        ),
{
    reveal_strlit("--ip");
    reveal_strlit("--port");
    reveal_strlit("--name");
    reveal_strlit("-o");
    reveal_strlit("--output");
    assert("--ip"@.len() == 4 && "--port"@.len() == 6 && "--name"@.len() == 6 && "-o"@.len() == 2
        && "--output"@.len() == 8);
    assert("--port"@[2] == 'p' && "--name"@[2] == 'n');
    assert("--ip"@[0] == '-' && "--port"@[0] == '-' && "--name"@[0] == '-' && "-o"@[0] == '-'
        && "--output"@[0] == '-');
    lemma_signed_decimal_parses(n);
}

/// A table is packed, on the level 1, where nothing else is asked for.
pub proof fn law_table_defaults(i: int, args: Seq<Seq<char>>, m: MorphModel)
    requires
        i >= args.len(),
    ensures
        morph_default().input is None && morph_default().output is None,
        morph_default().compress,
        morph_default().level == 1,
        morph_from(args, i, m) == Ok::<_, MorphFault>(m),
{
}

/// The options of a table: where it goes, whether it is packed, and how hard, from 0 to 9;
/// the first argument that is no option is the table itself, and a second one, or an
/// option that is unknown, is an error with that argument.
pub proof fn law_table_options(args: Seq<Seq<char>>, i: int, m: MorphModel, n: nat)
    requires
        0 <= i < args.len(),
    ensures
        (args[i] == "-o"@ || args[i] == "--output"@) && i + 1 < args.len() ==> morph_from(args, i, m)
            == morph_from(args, i + 2, MorphModel { output: Some(args[i + 1]), ..m }),
        args[i] == "--no-compress"@ ==> morph_from(args, i, m) == morph_from(
            args,
            i + 1,
            MorphModel { compress: false, ..m },
        ),
        args[i] == "--compress"@ ==> morph_from(args, i, m) == morph_from(
            args,
            i + 1,
            MorphModel { compress: true, ..m },
        ),
        (args[i] == "-l"@ || args[i] == "--level"@) && i + 1 < args.len() && args[i + 1] == decimal(n)
            && n <= 9 ==> morph_from(args, i, m) == morph_from(
            args,
            i + 2,
            MorphModel { level: n, ..m },
        ),
        (args[i] == "-l"@ || args[i] == "--level"@) && i + 1 < args.len() && args[i + 1] == decimal(n)
            && n > 9 ==> morph_from(args, i, m) == Err::<MorphModel, _>(MorphFault::BadLevel),
        (args[i] == "-l"@ || args[i] == "--level"@) && i + 1 == args.len() ==> morph_from(args, i, m)
            == Err::<MorphModel, _>(MorphFault::BadLevel),
        (args[i].len() == 0 || args[i][0] != '-') && m.input is None ==> morph_from(args, i, m)
            == morph_from(args, i + 1, MorphModel { input: Some(args[i]), ..m }),
        (args[i].len() == 0 || args[i][0] != '-') && m.input is Some ==> morph_from(args, i, m)
            == Err::<MorphModel, _>(MorphFault::Unknown(args[i])),
        args[i].len() > 13 && args[i][0] == '-' ==> morph_from(args, i, m) == Err::<MorphModel, _>(
            MorphFault::Unknown(args[i]),
        ),
{
    reveal_strlit("-o");
    reveal_strlit("--output");
    reveal_strlit("--no-compress");
    reveal_strlit("--compress");
    reveal_strlit("-l");
    reveal_strlit("--level");
    reveal_strlit("-");
    assert("-o"@.len() == 2 && "--output"@.len() == 8 && "--no-compress"@.len() == 13
        && "--compress"@.len() == 10 && "-l"@.len() == 2 && "--level"@.len() == 7 && "-"@.len() == 1);
    assert("-o"@[1] == 'o' && "-l"@[1] == 'l');
    assert("-o"@[0] == '-' && "--output"@[0] == '-' && "--no-compress"@[0] == '-'
        && "--compress"@[0] == '-' && "-l"@[0] == '-' && "--level"@[0] == '-' && "-"@[0] == '-');
    law_number(n, Seq::empty(), 9);
    if "-"@.is_prefix_of(args[i]) {
        assert(args[i][0] == "-"@[0]);
    }
    if args[i].len() > 13 && args[i][0] == '-' {
        assert("-"@.is_prefix_of(args[i]));
    }
}

/// The servers of a list are described in their order, each with its number.
pub proof fn law_descriptions(servers: Seq<ServerModel>, k: nat)
    requires
        k < servers.len(),
    ensures
        descriptions(servers, 0).len() == 0,
        descriptions(servers, k + 1) == descriptions(servers, k) + ("\n=== 伺服器 "@ + decimal(k)
            + " ===\n  名稱:     "@ + servers[k as int].name + "\n  IP:       "@
            + servers[k as int].ip + "\n  端口:     "@ + signed_decimal(servers[k as int].port)
            + "\n  啟用:     "@ + (if servers[k as int].used {
            "true"@
        } else {
            "false"@
        }) + "\n"@),
{
}

/// A server loses the options that clients no longer have, and nothing else.
pub proof fn law_locked(m: ServerModel)
    ensures
        !locked(m).usehelper && !locked(m).usebd && locked(m).bdfile.len() == 0,
        locked(m).name == m.name && locked(m).ip == m.ip && locked(m).port == m.port && locked(
            m,
        ).used == m.used,
        locked(m).key == m.key && locked(m).encrypt == m.encrypt && locked(m).randkey == m.randkey,
        locked(m).rsa_e == m.rsa_e && locked(m).rsa_d == m.rsa_d && locked(m).rsa_n == m.rsa_n,
        locked(locked(m)) == locked(m),
{
}

/// The two choices of an encoding: Big5 first, and GBK behind it; none is Big5.
pub proof fn law_encoding_choices(i: usize)
    ensures
        mode_at(Some(0)) == TextEncodingMode::Big5,
        i > 0 ==> mode_at(Some(i)) == TextEncodingMode::Gbk,
        mode_at(None) == TextEncodingMode::Big5,
        mode_index(TextEncodingMode::Big5) == 0,
        mode_index(TextEncodingMode::Gbk) == 1,
        mode_index(TextEncodingMode::Auto) == 1,
{
}

/// What the form collects: the two limits between their bounds, the encoding that was
/// chosen and the switch that it does not show; the two switches without a function are
/// off, and the others stay as they were checked.
pub proof fn law_collected(
    checked: AuxConfig,
    inventory: Seq<char>,
    img: Seq<char>,
    selection: Option<usize>,
    multi: bool,
)
    ensures
        collected(checked, inventory, img, selection, multi) == (AuxConfig {
            anti_cheat_basic: false,
            anti_cheat_advanced: false,
            inventory_limit_value: limit_of(inventory, 255, 1, 999),
            img_limit_value: limit_of(img, 50000, 6295, 500000),
            text_encoding: mode_at(selection),
            multi_instance: multi,
            ..checked
        }),
{
}

/// A packed table begins with the length of the table, then comes its key, then the
/// encrypted table, and the code that shows a change at the end.
pub proof fn law_packed_table(len: u32, key: Seq<u8>, payload: Seq<u8>)
    requires
        key.len() == 16,
        mac_of(pak_body(len as nat, key, payload)).len() == 16,
    ensures
        ({
            let p = pak_of(len as nat, key, payload);
            &&& p.len() == 36 + encrypted(key, payload).len()
            &&& p.subrange(0, 4) == le32(len)
            &&& p.subrange(4, 20) == key
            &&& p.subrange(20, p.len() - 16) == encrypted(key, payload)
            &&& p.skip(p.len() - 16) == mac_of(p.take(p.len() - 16))
            &&& is_tagged(p)
        }),
{
    let body = pak_body(len as nat, key, payload);
    let p = pak_of(len as nat, key, payload);
    law_le32_reads_back(len);
    assert(p.subrange(0, 4) =~= le32(len));
    assert(p.subrange(4, 20) =~= key);
    assert(p.subrange(20, p.len() - 16) =~= encrypted(key, payload));
    assert(p.take(p.len() - 16) =~= body);
    assert(p.skip(p.len() - 16) =~= mac_of(body));
}

/// A table is marked with a letter in front before it is packed.
pub proof fn law_marked_table(raw: Seq<u8>, level: u32)
    ensures
        lettered(raw).len() == raw.len() + 1,
        lettered(raw)[0] == 0x53,
        lettered(raw).skip(1) == raw,
        payload_of(raw, false, level) == Some(lettered(raw)),
{
    assert(lettered(raw).skip(1) =~= raw);
}

/// A file is a packed table already where it has its 52 bytes at least, a length from 1
/// to a hundred million, and its code is right.
pub proof fn law_own_tables(raw: Seq<u8>)
    ensures
        raw.len() < 52 ==> !is_ours(raw),
        !is_tagged(raw) ==> !is_ours(raw),
        raw.len() >= 52 && is_tagged(raw) && 1 <= from_le32(raw.subrange(0, 4)) <= 100000000
            ==> is_ours(raw),
        from_le32(raw.subrange(0, 4)) == 0 || from_le32(raw.subrange(0, 4)) > 100000000 ==> !is_ours(
            raw,
        ),
{
}

/// A packed table has the name of its source, with the ending `.pak`.
pub proof fn law_packed_name(dir: Seq<char>, c: char, stem: Seq<char>, ext: Seq<char>)
    requires
        c == '/' || c == '\\',
        stem.len() > 0,
        !ext.contains('.'),
        crate::paths_laws::plain_name(stem + seq!['.'] + ext),
    ensures
        packed_name(dir + seq![c] + (stem + seq!['.'] + ext)) == stem + seq!['.', 'p', 'a', 'k'],
{
    reveal_strlit(".pak");
    assert(".pak"@ =~= seq!['.', 'p', 'a', 'k']);
    crate::paths_laws::law_file_name(dir, c, stem + seq!['.'] + ext);
    crate::paths_laws::law_ending(stem, ext);
}

} // verus!

//! What is decided before and while a game is changed.

use crate::code::{from_le32, le32, offset};
use crate::inject::{
    hex8, injected, is_pak, prepared, prepares, unpacked, valid_pak, InjectError,
};
use crate::logger::says_no;
use crate::morph_auth::is_tagged;
use crate::packet_proxy::{masked, xor_of};
use crate::patch::{
    ends_wait, expectations, four_times, img_limit, is_comparison, is_hit, is_sample_second,
    last_seen, limit_digits, marker_of, new_hits, probe_names, same_writes, sample_part,
    sample_parts, settled, DecryptMarkerState, WaitStep,
};
use crate::paths_laws::{law_ending, law_file_name, plain_name};
use crate::process::{command_text, dword, word, ExportSearch};
use crate::server_list::cipher::decrypted;
use crate::startup_hook::{hook_places, keeps_away, names_in, path_bytes};
use crate::text::{
    ascii_lower_of, decimal, is_digit, lemma_decimal, lower_of, parse_dec, split_of,
};
use crate::text_laws::{blank, law_number, law_split, law_trim_empties_blanks};
use crate::unicode::utf16_of;
use crate::zlib::zlib_inflated;
use vstd::arithmetic::power::pow;
use vstd::prelude::*;

verus! {

proof fn lemma_no_dot(n: nat)
    ensures
        !decimal(n).contains('.'),
{
    let d = decimal(n);
    lemma_decimal(n);
    if d.contains('.') {
        let i = choose|i: int| 0 <= i < d.len() && d[i] == '.';
        assert(is_digit(d[i]));
    }
}

/// An address in dotted form has four parts that read as its four bytes.
pub proof fn law_dotted_address(a: u8, b: u8, c: u8, d: u8)
    ensures
        ({
            let s = decimal(a as nat) + seq!['.'] + (decimal(b as nat) + seq!['.'] + (decimal(
                c as nat,
            ) + seq!['.'] + decimal(d as nat)));
            let parts = split_of(s, '.');
            &&& parts.len() == 4
            &&& parse_dec(parts[0], 255) == Some(a as nat)
            &&& parse_dec(parts[1], 255) == Some(b as nat)
            &&& parse_dec(parts[2], 255) == Some(c as nat)
            &&& parse_dec(parts[3], 255) == Some(d as nat)
        }),
{
    let e = Seq::<char>::empty();
    lemma_no_dot(a as nat);
    lemma_no_dot(b as nat);
    lemma_no_dot(c as nat);
    lemma_no_dot(d as nat);
    let z = decimal(d as nat);
    let y = decimal(c as nat) + seq!['.'] + z;
    let x = decimal(b as nat) + seq!['.'] + y;
    law_split(z, '.', e);
    law_split(decimal(c as nat), '.', z);
    law_split(decimal(b as nat), '.', y);
    law_split(decimal(a as nat), '.', x);
    law_number(a as nat, e, 255);
    law_number(b as nat, e, 255);
    law_number(c as nat, e, 255);
    law_number(d as nat, e, 255);
}

/// A packed table is refused where it is too short, where its code is wrong, and where it
/// is said to be too long, in this order; one that holds its letter is there already, and
/// any other is inflated.
pub proof fn law_unpacked(raw: Seq<u8>)
    ensures
        raw.len() < 36 ==> unpacked(raw) == Err::<Seq<u8>, _>(
            InjectError::TooSmall(raw.len() as usize),
        ),
        raw.len() >= 36 && !is_tagged(raw) ==> unpacked(raw) == Err::<Seq<u8>, _>(
            InjectError::BadMac,
        ),
        raw.len() >= 36 && is_tagged(raw) && from_le32(raw.subrange(0, 4)) > 100000000 ==> unpacked(
            raw,
        ) == Err::<Seq<u8>, _>(InjectError::BadLength(from_le32(raw.subrange(0, 4)))),
        raw.len() >= 36 && is_tagged(raw) && from_le32(raw.subrange(0, 4)) <= 100000000 ==> {
            let table = decrypted(raw.subrange(4, 20), raw.subrange(20, raw.len() - 16));
            &&& table.len() > 0 && table[0] == 0x53 ==> unpacked(raw) == Ok::<_, InjectError>(table)
            &&& table.len() == 0 || table[0] != 0x53 ==> match zlib_inflated(table) {
                Some(t) => unpacked(raw) == Ok::<_, InjectError>(t),
                None => unpacked(raw) == Err::<Seq<u8>, _>(InjectError::Zlib),
            }
        },
{
}

/// A packed table is valid exactly where it is neither too short nor said to be too long,
/// and its code is right.
pub proof fn law_valid_table(raw: Seq<u8>)
    ensures
        raw.len() < 36 || !is_tagged(raw) ==> !valid_pak(raw),
        raw.len() >= 36 && is_tagged(raw) ==> (valid_pak(raw) <==> from_le32(raw.subrange(0, 4))
            <= 100000000),
{
}

/// A table is given as it is where nothing is to be prepared, where it has no letter in
/// front, and where there is nothing behind the letter; a prepared one keeps its letter.
pub proof fn law_prepared(table: Seq<u8>, prepare: bool)
    ensures
        prepared(table, false) == table,
        table.len() <= 1 ==> prepared(table, prepare) == table,
        table.len() > 1 && table[0] != 0x53 ==> prepared(table, prepare) == table,
        table.len() > 1 && table[0] == 0x53 ==> prepared(table, true).len() > 0 && prepared(
            table,
            true,
        )[0] == 0x53,
{
}

/// A file with the ending `pak`, in capitals or small letters, is unpacked and prepared;
/// any other is given as it is, behind the letter.
pub proof fn law_injected(
    dir: Seq<char>,
    c: char,
    stem: Seq<char>,
    ext: Seq<char>,
    raw: Seq<u8>,
    prepare: bool,
)
    requires
        c == '/' || c == '\\',
        stem.len() > 0,
        !ext.contains('.'),
        vstd::utf8::is_ascii_chars(ext),
        plain_name(stem + seq!['.'] + ext),
    ensures
        ({
            let path = dir + seq![c] + (stem + seq!['.'] + ext);
            &&& is_pak(path) <==> ascii_lower_of(ext) == seq!['p', 'a', 'k']
            &&& ascii_lower_of(ext) != seq!['p', 'a', 'k'] ==> injected(path, raw, prepare) == Ok::<
                _,
                InjectError,
            >(seq![0x53u8] + raw)
            &&& ascii_lower_of(ext) == seq!['p', 'a', 'k'] ==> match unpacked(raw) {
                Ok(t) => injected(path, raw, prepare) == Ok::<_, InjectError>(
                    prepared(t, prepare),
                ),
                Err(e) => injected(path, raw, prepare) == Err::<Seq<u8>, _>(e),
            }
        }),
{
    reveal_strlit("pak");
    assert("pak"@ =~= seq!['p', 'a', 'k']);
    law_file_name(dir, c, stem + seq!['.'] + ext);
    law_ending(stem, ext);
    assert(lower_of(ext) == ascii_lower_of(ext));
}

/// Tables are prepared unless the environment says no.
pub proof fn law_prepares(v: Seq<char>)
    ensures
        prepares(None),
        prepares(Some(v)) <==> !says_no(v),
{
}

/// The hook stays away where `0` or `false` is asked for, the word in capitals or small
/// letters; nothing else keeps it away.
pub proof fn law_keeps_away(v: Seq<char>)
    ensures
        !keeps_away(None),
        v == seq!['0'] ==> keeps_away(Some(v)),
        ascii_lower_of(v) == seq!['f', 'a', 'l', 's', 'e'] ==> keeps_away(Some(v)),
        v.len() != 1 && v.len() != 5 ==> !keeps_away(Some(v)),
        v == seq!['1'] ==> !keeps_away(Some(v)),
{
    reveal_strlit("0");
    reveal_strlit("false");
    assert("0"@ =~= seq!['0']);
    assert("false"@ =~= seq!['f', 'a', 'l', 's', 'e']);
    assert(ascii_lower_of(v).len() == v.len());
    if v == seq!['1'] {
        assert(v[0] != "0"@[0]);
    }
}

/// The library of the hook is looked for beside the program, in the working directory and
/// beside the game, in this order, and in each under its three names.
pub proof fn law_hook_places(dir: Seq<char>, c: char, name: Seq<char>, cwd: Seq<char>, game: Seq<char>)
    requires
        c == '/' || c == '\\',
        plain_name(name),
        crate::paths_laws::plain_dir(dir),
    ensures
        hook_places(Some(dir + seq![c] + name), Some(cwd), game) == names_in(dir) + names_in(cwd)
            + names_in(game),
        hook_places(None, Some(cwd), game) == names_in(cwd) + names_in(game),
        hook_places(None, None, game) == names_in(game),
        names_in(game).len() == 3,
        names_in(dir)[0] == dir + seq!['\\'] + "L38Hook.dll"@,
        names_in(dir)[1] == dir + seq!['\\'] + "startup_hook_probe.dll"@,
        names_in(dir)[2] == dir + seq!['\\'] + "startup_hook.dll"@,
{
    reveal_strlit("\\");
    assert("\\"@ =~= seq!['\\']);
    crate::paths_laws::law_directory(dir, c, name);
    let e = Seq::<Seq<char>>::empty();
    assert(e + names_in(cwd) + names_in(game) =~= names_in(cwd) + names_in(game));
    assert(e + e + names_in(game) =~= names_in(game));
    assert(dir.last() == dir[dir.len() - 1]);
}

/// A path is handed over as its units, the low byte of each first, with a zero behind
/// them.
pub proof fn law_path_bytes(path: Seq<char>, i: int)
    requires
        0 <= i < utf16_of(path).len(),
    ensures
        path_bytes(path).len() == 2 * utf16_of(path).len() + 2,
        path_bytes(path)[2 * i] == utf16_of(path)[i] % 256,
        path_bytes(path)[2 * i + 1] == utf16_of(path)[i] / 256,
        path_bytes(path)[path_bytes(path).len() - 2] == 0,
        path_bytes(path)[path_bytes(path).len() - 1] == 0,
{
    let u = utf16_of(path).push(0);
    let n = utf16_of(path).len() as int;
    assert((2 * i) / 2 == i && (2 * i) % 2 == 0);
    assert((2 * i + 1) / 2 == i && (2 * i + 1) % 2 == 1);
    assert((2 * n) / 2 == n && (2 * n) % 2 == 0);
    assert((2 * n + 1) / 2 == n && (2 * n + 1) % 2 == 1);
    assert(u[n] == 0);
}

/// A program stands in quotes in front of its arguments, and alone where there are none.
pub proof fn law_command_line(exe: Seq<char>, a: Seq<char>)
    ensures
        !blank(a) ==> command_text(exe, Some(a)) == seq!['"'] + exe + seq!['"', ' '] + a,
        blank(a) ==> command_text(exe, Some(a)) == exe,
        command_text(exe, None) == exe,
{
    reveal_strlit("\"");
    reveal_strlit("\" ");
    assert("\""@ =~= seq!['"']);
    assert("\" "@ =~= seq!['"', ' ']);
    law_trim_empties_blanks(a);
}

/// Numbers in memory have their low byte first.
pub proof fn law_numbers_in_memory(d: Seq<u8>, at: int)
    requires
        0 <= at,
        at + 4 <= d.len(),
    ensures
        dword(d, at) == d[at] + 256 * d[at + 1] + 65536 * d[at + 2] + 16777216 * d[at + 3],
        word(d, at) == d[at] + 256 * d[at + 1],
{
    assert(d.subrange(at, at + 4)[0] == d[at]);
    assert(d.subrange(at, at + 2)[0] == d[at]);
}

/// The byte of a session is the decrypted number's remainder by 255 and one, and so never
/// zero.
pub proof fn law_session_byte(cipher: u32, d: u32, n: u32)
    ensures
        1 <= xor_of(cipher, d, n) <= 255,
        n > 0 ==> xor_of(cipher, d, n) == pow(cipher as int, d as nat) % (n as int) % 255 + 1,
        xor_of(cipher, d, 0) == 1,
{
}

/// Every byte is masked with the same one.
pub proof fn law_masked_bytes(s: Seq<u8>, x: u8, i: int)
    requires
        0 <= i < s.len(),
    ensures
        masked(s, x).len() == s.len(),
        masked(s, x)[i] == s[i] ^ x,
{
}

/// What the marker of the game says: it is ready, it was changed before, or it is not
/// ready; what cannot be read ends no wait.
pub proof fn law_marker(v: u32, last: u32)
    ensures
        ends_wait(Some(0x0097850F)) == Some(WaitStep::Patch { already: false }),
        ends_wait(Some(0x0097E990)) == Some(WaitStep::Patch { already: true }),
        v != 0x0097850F && v != 0x0097E990 ==> ends_wait(Some(v)) is None && marker_of(v)
            == DecryptMarkerState::NotReady(v),
        ends_wait(None) is None,
        last_seen(last, Some(v)) == v,
        last_seen(last, None) == last,
{
}

/// The limit of pictures lies between 6295 and 500000, and four bytes are reserved for
/// each.
pub proof fn law_picture_limit(n: u32)
    ensures
        n < 6295 ==> img_limit(n) == 6295,
        6295 <= n <= 500000 ==> img_limit(n) == n,
        n > 500000 ==> img_limit(n) == 500000,
        n <= 0x3fff_ffff ==> four_times(n) == 4 * n,
        n > 0x3fff_ffff ==> four_times(n) == u32::MAX,
{
}

/// A limit of things takes three bytes: its digits, and zeros behind them.
pub proof fn law_limit_digits(n: u32)
    requires
        n <= 999,
    ensures
        limit_digits(n).len() == 3,
        forall|i: int|
            0 <= i < decimal(n as nat).len() ==> limit_digits(n)[i] as int == #[trigger] decimal(
                n as nat,
            )[i] as int,
        forall|i: int| decimal(n as nat).len() <= i < 3 ==> #[trigger] limit_digits(n)[i] == 0,
        decimal(n as nat).len() <= 3,
{
    let m = n as nat;
    let d = decimal(m);
    if n < 10 {
        assert(d.len() == 1);
        assert(d[0] as int == 48 + m);
    } else if n < 100 {
        assert(m / 10 < 10);
        assert(decimal(m / 10).len() == 1);
        assert(d.len() == 2);
        assert(d[0] as int == 48 + m / 10);
        assert(d[1] as int == 48 + m % 10);
    } else {
        assert(m / 100 < 10);
        assert(m / 10 / 10 == m / 100);
        assert(decimal(m / 100).len() == 1);
        assert(decimal(m / 10).len() == 2);
        assert(d.len() == 3);
        assert(d[0] as int == 48 + m / 100);
        assert(d[1] as int == 48 + m / 10 % 10);
        assert(d[2] as int == 48 + m % 10);
    }
}

/// What stands in front of a comparison with a bound: an opcode and one of five operands
/// right in front, or an opcode with a wide operand six bytes in front.
pub proof fn law_comparisons(a: Seq<u8>, x: u8, b: u8)
    ensures
        x == 0x79 || x == 0x7B || x == 0x7D || x == 0x7E || x == 0x7F ==> is_comparison(
            a + seq![0x81u8, x, b],
        ),
        a.len() == 4 ==> is_comparison(seq![0x81u8, 0xBD] + a),
        a.len() < 3 ==> !is_comparison(a),
        x != 0x79 && x != 0x7B && x != 0x7D && x != 0x7E && x != 0x7F && a.len() < 3
            ==> !is_comparison(a + seq![0x81u8, x, b]),
{
    let p = a + seq![0x81u8, x, b];
    let n = p.len() as int;
    assert(p[n - 3] == 0x81 && p[n - 2] == x && p[n - 1] == b);
    let q = seq![0x81u8, 0xBD] + a;
    assert(q[0] == 0x81 && q[1] == 0xBD);
}

/// The seconds at which the game is looked at.
pub proof fn law_sample_seconds(s: u64)
    ensures
        is_sample_second(s) <==> seq![0u64, 1, 2, 5, 10, 20, 30, 45, 60, 75, 90].contains(s),
{
    let v = seq![0u64, 1, 2, 5, 10, 20, 30, 45, 60, 75, 90];
    assert(v.len() == 11);
    assert(v[0] == 0 && v[1] == 1 && v[2] == 2 && v[3] == 5 && v[4] == 10 && v[5] == 20 && v[6] == 30
        && v[7] == 45 && v[8] == 60 && v[9] == 75 && v[10] == 90);
}

/// A place counts as new where it holds what is expected there and did not before; the
/// new ones stand in their order.
pub proof fn law_new_hits(matched: Seq<bool>, values: Seq<Option<u32>>, k: nat, i: int)
    requires
        k <= 6,
        0 <= i < k,
    ensures
        new_hits(matched, values, k).contains(i as usize) <==> !matched[i] && is_hit(values, i),
    decreases k,
{
    let rest = new_hits(matched, values, (k - 1) as nat);
    let all = new_hits(matched, values, k);
    lemma_new_hits(matched, values, (k - 1) as nat);
    if i < k - 1 {
        law_new_hits(matched, values, (k - 1) as nat, i);
        if rest.contains(i as usize) {
            let j = choose|j: int| 0 <= j < rest.len() && rest[j] == i as usize;
            assert(all[j] == i as usize);
        }
        if all.contains(i as usize) {
            let j = choose|j: int| 0 <= j < all.len() && all[j] == i as usize;
            assert(j < rest.len());
            assert(rest[j] == i as usize);
        }
    } else {
        if !matched[i] && is_hit(values, i) {
            assert(all[all.len() - 1] == i as usize);
        } else if all.contains(i as usize) {
            let j = choose|j: int| 0 <= j < rest.len() && rest[j] == i as usize;
            assert(rest[j] < k - 1);
        }
    }
}

proof fn lemma_new_hits(matched: Seq<bool>, values: Seq<Option<u32>>, k: nat)
    requires
        k <= 6,
    ensures
        forall|j: int|
            0 <= j < new_hits(matched, values, k).len() ==> (#[trigger] new_hits(
                matched,
                values,
                k,
            )[j]) < k,
    decreases k,
{
    if k > 0 {
        lemma_new_hits(matched, values, (k - 1) as nat);
        let rest = new_hits(matched, values, (k - 1) as nat);
        let all = new_hits(matched, values, k);
        assert forall|j: int| 0 <= j < all.len() implies (#[trigger] all[j]) < k by {
            if j < rest.len() {
                assert(all[j] == rest[j]);
                assert(rest[j] < k - 1);
            }
        }
    }
}

/// Nothing more is looked for once every place that something is expected at has held it.
pub proof fn law_settled(matched: Seq<bool>)
    ensures
        settled(matched, 6) <==> matched[0] && matched[1] && matched[2] && matched[3],
{
    reveal_with_fuel(settled, 7);
    let e = expectations();
    assert(e[0] is Some && e[1] is Some && e[2] is Some && e[3] is Some && e[4] is None
        && e[5] is None);
}

/// The function of a name is found by the name's ordinal, where the table of functions is
/// long enough; its place, and that of a name, counts from the start of the module.
pub proof fn law_exported_function(s: ExportSearch, i: int, n: int)
    requires
        0 <= i,
        2 * i + 2 <= s.ordinals@.len(),
        n == s.ordinals@[2 * i] + 256 * s.ordinals@[2 * i + 1],
    ensures
        4 * n + 4 <= s.addrs@.len() ==> s.function(i) == Some(
            offset(s.base, from_le32(s.addrs@.subrange(4 * n, 4 * n + 4)) as int),
        ),
        4 * n + 4 > s.addrs@.len() ==> s.function(i) is None,
        s.name_addr(i) == offset(
            s.base,
            from_le32(s.name_ptrs@.subrange(4 * i, 4 * i + 4)) as int,
        ),
{
    assert(s.ordinals@.subrange(2 * i, 2 * i + 2)[0] == s.ordinals@[2 * i]);
    assert(word(s.ordinals@, 2 * i) == n);
}

/// The same bytes are written at each place that was found, so many bytes on.
pub proof fn law_same_writes(hits: Seq<u32>, on: int, bytes: Seq<u8>, i: int)
    requires
        0 <= i < hits.len(),
    ensures
        same_writes(hits, on, bytes).len() == hits.len(),
        same_writes(hits, on, bytes)[i].addr == offset(hits[i], on),
        same_writes(hits, on, bytes)[i].bytes == bytes,
{
}

/// A number of 32 bits is shown as eight capital hexadecimal digits, the highest first.
pub proof fn law_hex8(v: u32)
    ensures
        hex8(v).len() == 8,
        hex8(v)[0] == "0123456789ABCDEF"@[v as int / 0x1000_0000],
        hex8(v)[6] == "0123456789ABCDEF"@[v as int % 0x100 / 0x10],
        hex8(v)[7] == "0123456789ABCDEF"@[v as int % 0x10],
{
    let le = le32(v);
    let b = seq![le[3], le[2], le[1], le[0]];
    crate::text_laws::law_hex(b, true, 0);
    crate::text_laws::law_hex(b, true, 3);
    assert(b[0] as int == v as int / 0x100_0000);
    assert(b[3] as int == v as int % 0x100);
    assert(b[0] as int / 16 == v as int / 0x1000_0000);
    assert(b[3] as int % 16 == v as int % 0x10);
}

/// What is seen at a place is shown by the place's name: its number, or that it cannot be
/// read; the places stand in their order.
pub proof fn law_samples(values: Seq<Option<u32>>, k: nat)
    requires
        1 <= k < 6,
        values.len() == 6,
    ensures
        sample_parts(values, 1) == sample_part(0, values[0]),
        sample_parts(values, k + 1) == sample_parts(values, k) + ", "@ + sample_part(
            k as int,
            values[k as int],
        ),
        values[k as int] matches Some(v) ==> sample_part(k as int, values[k as int])
            == probe_names()[k as int] + "=0x"@ + hex8(v),
        values[k as int] is None ==> sample_part(k as int, values[k as int])
            == probe_names()[k as int] + "=<unreadable>"@,
{
}

} // verus!

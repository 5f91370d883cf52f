//! The update manifest, and what a download decides.

use vstd::prelude::*;
use vstd::slice::slice_subrange;
use crate::code::emit;
use crate::text::{
    ascii_lower, chars_of, decimal_chars, eq_str, joined, lines, own, parse_u32, push_all,
    push_str, rfind_char, split_once, starts_with, string_of, trim,
};
#[allow(unused_imports)]
use crate::text::{
    ascii_lower_of, decimal, is_digit, is_space, lemma_decimal, lines_of, parse_dec, rows,
    split_once_of, trim_of,
};
#[allow(unused_imports)]
use crate::text_laws::{blank, law_not_a_number, law_number, law_split_once, law_trim, tight};

verus! {

/// How long connecting, sending and receiving may take, in milliseconds.
pub const TIMEOUT_MS: u32 = 8000;

/// How many bytes a download may have without another bound.
pub const DEFAULT_MAX_BYTES: u64 = 268435456;

/// How many bytes are read at a time.
pub const READ_SIZE: usize = 16384;

/// What a manifest offers.
#[derive(Debug, Clone)]
pub struct UpdateInfo {
    /// The newest version.
    pub server_version: u32,
    /// The archive of each version, by version.
    pub zips: Vec<(u32, String)>,
    /// Where the manifest came from.
    pub source_url: String,
}

/// What a line of a manifest says.
pub enum Entry {
    Version(u32),
    Zip(u32, Seq<char>),
    Nothing,
}

/// What a line of a manifest says.
pub open spec fn entry_of(line: Seq<char>) -> Entry {
    let t = trim_of(line);
    if t.len() == 0 || t[0] == ';' || t[0] == '#' || t[0] == '[' {
        Entry::Nothing
    } else {
        match split_once_of(t, '=') {
            None => Entry::Nothing,
            Some(kv) => {
                let key = trim_of(kv.0);
                let value = trim_of(kv.1);
                let name = ascii_lower_of(key);
                if name == "version"@ || name == "ver"@ {
                    match parse_dec(value, u32::MAX as nat) {
                        Some(n) => Entry::Version(n as u32),
                        None => Entry::Nothing,
                    }
                } else {
                    match parse_dec(key, u32::MAX as nat) {
                        Some(n) => if value.len() == 0 {
                            Entry::Nothing
                        } else {
                            Entry::Zip(n as u32, value)
                        },
                        None => Entry::Nothing,
                    }
                }
            },
        }
    }
}

/// The version that some lines name: that of the last line that names one.
pub open spec fn version_in(lines: Seq<Seq<char>>) -> Option<u32>
    decreases lines.len(),
{
    if lines.len() == 0 {
        None
    } else {
        match entry_of(lines.last()) {
            Entry::Version(n) => Some(n),
            _ => version_in(lines.drop_last()),
        }
    }
}

/// The archive that some lines name for a version: that of the first line that
/// names one.
pub open spec fn archive_in(lines: Seq<Seq<char>>, n: u32) -> Option<Seq<char>>
    decreases lines.len(),
{
    if lines.len() == 0 {
        None
    } else {
        match archive_in(lines.drop_last(), n) {
            Some(v) => Some(v),
            None => match entry_of(lines.last()) {
                Entry::Zip(m, v) => if m == n {
                    Some(v)
                } else {
                    None
                },
                _ => None,
            },
        }
    }
}

/// A list of archives holds exactly those that some lines name, by version.
pub open spec fn lists(zips: Seq<(u32, String)>, lines: Seq<Seq<char>>) -> bool {
    &&& forall|i: int, j: int| 0 <= i < j < zips.len() ==> #[trigger] zips[i].0 < #[trigger] zips[j].0
    &&& forall|i: int|
        0 <= i < zips.len() ==> archive_in(lines, (#[trigger] zips[i]).0) == Some(zips[i].1@)
    &&& forall|n: u32|
        #[trigger] archive_in(lines, n) is Some ==> exists|i: int|
            0 <= i < zips.len() && (#[trigger] zips[i]).0 == n
}

/// Adds what one more line says of an archive.
fn add_zip(zips: &mut Vec<(u32, String)>, n: u32, value: &[char], Ghost(lines): Ghost<
    Seq<Seq<char>>,
>)
    requires
        lines.len() > 0,
        lists(old(zips)@, lines.drop_last()),
        entry_of(lines.last()) == Entry::Zip(n, value@),
    ensures
        lists(final(zips)@, lines),
{
    let ghost before = zips@;
    let ghost prior = lines.drop_last();
    let mut i: usize = 0;
    while i < zips.len() && zips[i].0 < n
        invariant
            i <= zips@.len(),
            zips@ == before,
            forall|k: int| 0 <= k < i ==> (#[trigger] before[k]).0 < n,
        decreases zips@.len() - i,
    {
        i += 1;
    }
    if i < zips.len() && zips[i].0 == n {
        proof {
            assert(archive_in(prior, before[i as int].0) is Some);
            assert forall|m: u32| archive_in(lines, m) == archive_in(prior, m) by {}
        }
        return;
    }
    zips.insert(i, (n, string_of(value)));
    proof {
        let after = zips@;
        assert(archive_in(prior, n) is None) by {
            if archive_in(prior, n) is Some {
                let k = choose|k: int| 0 <= k < before.len() && (#[trigger] before[k]).0 == n;
                if k > i {
                    assert(before[i as int].0 < before[k].0);
                }
            }
        }
        assert forall|k: int| 0 <= k < after.len() implies after[k] == (if k < i {
            before[k]
        } else if k == i {
            after[i as int]
        } else {
            before[k - 1]
        }) by {}
        assert forall|a: int, b: int| 0 <= a < b < after.len() implies #[trigger] after[a].0
            < #[trigger] after[b].0 by {
            if i < before.len() {
                assert(n < before[i as int].0);
            }
            if a == i {
                assert(before[i as int].0 <= before[b - 1].0);
            }
        }
        assert forall|k: int| 0 <= k < after.len() implies archive_in(
            lines,
            (#[trigger] after[k]).0,
        ) == Some(after[k].1@) by {
            if k < i {
                assert(archive_in(prior, before[k].0) == Some(before[k].1@));
            } else if k > i {
                assert(archive_in(prior, before[k - 1].0) == Some(before[k - 1].1@));
            }
        }
        assert forall|m: u32| #[trigger] archive_in(lines, m) is Some implies exists|k: int|
            0 <= k < after.len() && (#[trigger] after[k]).0 == m by {
            if m == n {
                assert(after[i as int].0 == m);
            } else {
                assert(archive_in(prior, m) is Some);
                let k = choose|k: int| 0 <= k < before.len() && (#[trigger] before[k]).0 == m;
                if k < i {
                    assert(after[k].0 == m);
                } else {
                    assert(after[k + 1].0 == m);
                }
            }
        }
    }
}

/// A line of a manifest, taken apart: the version or the archive that it names.
enum Line {
    Version(u32),
    Zip(u32, Vec<char>),
    Nothing,
}

fn read_line(line: &[char]) -> (r: Line)
    ensures
        entry_of(line@) == (match r {
            Line::Version(n) => Entry::Version(n),
            Line::Zip(n, v) => Entry::Zip(n, v@),
            Line::Nothing => Entry::Nothing,
        }),
{
    let t = trim(line);
    if t.len() == 0 || t[0] == ';' || t[0] == '#' || t[0] == '[' {
        return Line::Nothing;
    }
    match split_once(t, '=') {
        None => Line::Nothing,
        Some(kv) => {
            let key = trim(kv.0);
            let value = trim(kv.1);
            let name = ascii_lower(key);
            if eq_str(name.as_slice(), "version") || eq_str(name.as_slice(), "ver") {
                return match parse_u32(value) {
                    Some(n) => Line::Version(n),
                    None => Line::Nothing,
                };
            }
            match parse_u32(key) {
                Some(n) => if value.len() == 0 {
                    Line::Nothing
                } else {
                    Line::Zip(n, crate::text::to_chars(value))
                },
                None => Line::Nothing,
            }
        },
    }
}

/// The version that a line names.
pub fn line_version(line: &[char]) -> (r: Option<u32>)
    ensures
        match entry_of(line@) {
            Entry::Version(n) => r == Some(n),
            _ => r is None,
        },
{
    match read_line(line) {
        Line::Version(n) => Some(n),
        _ => None,
    }
}

/// What a manifest offers: the version of the last line that names one, and of
/// each version the archive of the first line that names one. Nothing, where no
/// line names a version.
pub fn parse_update_ini(content: &str, source_url: &str) -> (r: Option<UpdateInfo>)
    ensures
        match r {
            Some(u) => {
                &&& version_in(lines_of(content@)) == Some(u.server_version)
                &&& lists(u.zips@, lines_of(content@))
                &&& u.source_url@ == source_url@
            },
            None => version_in(lines_of(content@)) is None,
        },
{
    let text = lines(chars_of(content).as_slice());
    let ghost all = rows(text@);
    let mut version: Option<u32> = None;
    let mut zips: Vec<(u32, String)> = Vec::new();
    let mut i: usize = 0;
    assert(all.take(0) == Seq::<Seq<char>>::empty());
    while i < text.len()
        invariant
            i <= text@.len(),
            all == rows(text@),
            version == version_in(all.take(i as int)),
            lists(zips@, all.take(i as int)),
        decreases text@.len() - i,
    {
        let ghost done = all.take(i + 1);
        proof {
            assert(done.drop_last() == all.take(i as int));
            assert(done.last() == text@[i as int]@);
        }
        match read_line(text[i].as_slice()) {
            Line::Version(n) => {
                version = Some(n);
                assert forall|m: u32| archive_in(done, m) == archive_in(done.drop_last(), m) by {}
            },
            Line::Zip(n, v) => {
                add_zip(&mut zips, n, v.as_slice(), Ghost(done));
            },
            Line::Nothing => {
                assert forall|m: u32| archive_in(done, m) == archive_in(done.drop_last(), m) by {}
            },
        }
        i += 1;
    }
    assert(all.take(i as int) == all);
    match version {
        None => None,
        Some(server_version) => Some(
            UpdateInfo { server_version, zips, source_url: own(source_url) },
        ),
    }
}

/// What some lines offer leaves one list of archives.
pub proof fn law_list_is_determined(
    a: Seq<(u32, String)>,
    b: Seq<(u32, String)>,
    lines: Seq<Seq<char>>,
)
    requires
        lists(a, lines),
        lists(b, lines),
    ensures
        a.len() == b.len(),
        forall|i: int| 0 <= i < a.len() ==> (#[trigger] a[i]).0 == b[i].0 && a[i].1@ == b[i].1@,
{
    lemma_prefix(a, b, lines, a.len());
    lemma_prefix(b, a, lines, b.len());
}

proof fn lemma_prefix(
    a: Seq<(u32, String)>,
    b: Seq<(u32, String)>,
    lines: Seq<Seq<char>>,
    k: nat,
)
    requires
        lists(a, lines),
        lists(b, lines),
        k <= a.len(),
    ensures
        k <= b.len(),
        forall|i: int| 0 <= i < k ==> (#[trigger] a[i]).0 == b[i].0 && a[i].1@ == b[i].1@,
    decreases k,
{
    if k > 0 {
        lemma_prefix(a, b, lines, (k - 1) as nat);
        let n = a[k - 1].0;
        assert(archive_in(lines, n) is Some);
        let j = choose|j: int| 0 <= j < b.len() && (#[trigger] b[j]).0 == n;
        if j < k - 1 {
            assert(a[j].0 == b[j].0);
            assert(a[j].0 < a[k - 1].0);
        }
        assert(j >= k - 1);
        if j > k - 1 {
            let m = b[k - 1].0;
            assert(m < b[j].0);
            assert(archive_in(lines, m) is Some);
            let i = choose|i: int| 0 <= i < a.len() && (#[trigger] a[i]).0 == m;
            if i < k - 1 {
                assert(b[i].0 == a[i].0);
                assert(b[i].0 < b[k - 1].0);
            } else if i >= k {
                assert(a[k - 1].0 < a[i].0);
            }
        }
        assert(archive_in(lines, b[j].0) == Some(b[j].1@));
        assert(archive_in(lines, a[k - 1].0) == Some(a[k - 1].1@));
    }
}

/// The address of a manifest up to its last slash.
pub open spec fn base_of(url: Seq<char>) -> Seq<char> {
    match url.index_of_last('/') {
        Some(i) => url.take(i + 1),
        None => seq![],
    }
}

/// The address of a manifest up to its last slash; empty without one.
pub fn base_url_of(update_ini_url: &str) -> (r: String)
    ensures
        r@ == base_of(update_ini_url@),
{
    let cs = chars_of(update_ini_url);
    match rfind_char(cs.as_slice(), '/') {
        Some(i) => {
            let head = slice_subrange(cs.as_slice(), 0, i + 1);
            assert(head@ == cs@.take(i + 1));
            string_of(head)
        },
        None => {
            proof {
                reveal_strlit("");
            }
            own("")
        },
    }
}

/// The address of an archive: itself where it is one, else the name behind the
/// base.
pub open spec fn zip_url(base: Seq<char>, entry: Seq<char>) -> Seq<char> {
    if "http://"@.is_prefix_of(entry) || "https://"@.is_prefix_of(entry) {
        entry
    } else {
        base + entry
    }
}

/// The address of an archive.
pub fn resolve_zip_url(base_url: &str, entry: &str) -> (r: String)
    ensures
        r@ == zip_url(base_url@, entry@),
{
    let cs = chars_of(entry);
    if starts_with(cs.as_slice(), "http://") || starts_with(cs.as_slice(), "https://") {
        own(entry)
    } else {
        joined(base_url, entry)
    }
}

/// Why a download failed.
#[derive(Debug, Clone)]
pub enum HttpError {
    /// The network could not be opened.
    Open,
    /// That address could not be opened.
    OpenUrl(String),
    /// Reading failed.
    Read,
    /// There were more bytes than that.
    TooLarge(u64),
}

impl HttpError {
    /// The error in words.
    pub fn to_string(&self) -> (r: String)
        ensures
            r@ == (match *self {
                HttpError::Open => "InternetOpenW 失敗"@,
                HttpError::OpenUrl(u) => "InternetOpenUrlW 失敗："@ + u@,
                HttpError::Read => "InternetReadFile 失敗"@,
                HttpError::TooLarge(n) => "response 超過 "@ + decimal(n as nat) + " bytes 上限"@,
            }),
    {
        match self {
            HttpError::Open => own("InternetOpenW 失敗"),
            HttpError::OpenUrl(u) => joined("InternetOpenUrlW 失敗：", u.as_str()),
            HttpError::Read => own("InternetReadFile 失敗"),
            HttpError::TooLarge(n) => {
                let mut out = chars_of("response 超過 ");
                push_all(&mut out, decimal_chars(*n).as_slice());
                push_str(&mut out, " bytes 上限");
                string_of(out.as_slice())
            },
        }
    }
}

/// How many bytes are to come: what the server says, zero where it says nothing.
pub fn content_length(header: Option<u32>) -> (r: u64)
    ensures
        r == (match header {
            Some(n) => n as int,
            None => 0,
        }),
{
    match header {
        Some(n) => n as u64,
        None => 0,
    }
}

/// What comes after a chunk of a download.
#[derive(Debug, Clone, Copy, PartialEq, Eq, Structural)]
pub enum Received {
    /// The download is complete.
    All,
    /// So many bytes are here; more may come.
    SoFar(u64),
    /// So many bytes are here, which are too many.
    TooMany(u64),
}

/// Takes a chunk of a download: an empty one ends it, and one that brings it over
/// its bound fails it.
pub fn receive(data: &mut Vec<u8>, chunk: &[u8], max_bytes: u64) -> (r: Received)
    requires
        old(data)@.len() + chunk@.len() <= usize::MAX,
    ensures
        final(data)@ == old(data)@ + chunk@,
        r == (if chunk@.len() == 0 {
            Received::All
        } else if final(data)@.len() > max_bytes {
            Received::TooMany(final(data)@.len() as u64)
        } else {
            Received::SoFar(final(data)@.len() as u64)
        }),
{
    if chunk.len() == 0 {
        assert(data@ == data@ + chunk@);
        return Received::All;
    }
    emit(data, chunk);
    let n: u64 = data.len() as u64;
    if n > max_bytes {
        Received::TooMany(n)
    } else {
        Received::SoFar(n)
    }
}

/// A key, an equals sign and a value, with white space around each.
pub open spec fn manifest_line(
    a: Seq<char>,
    key: Seq<char>,
    b: Seq<char>,
    c: Seq<char>,
    value: Seq<char>,
    d: Seq<char>,
) -> Seq<char> {
    a + key + b + seq!['='] + c + value + d
}

proof fn lemma_manifest_line(
    a: Seq<char>,
    key: Seq<char>,
    b: Seq<char>,
    c: Seq<char>,
    value: Seq<char>,
    d: Seq<char>,
)
    requires
        blank(a) && blank(b) && blank(c) && blank(d),
        tight(key) && tight(value),
        key.len() > 0,
        !key.contains('='),
        value.len() > 0,
    ensures
        ({
            let t = trim_of(manifest_line(a, key, b, c, value, d));
            &&& t.len() > 0
            &&& t[0] == key[0]
            &&& split_once_of(t, '=') matches Some(kv) && trim_of(kv.0) == key && trim_of(kv.1)
                == value
        }),
{
    let t = key + b + seq!['='] + c + value;
    assert(t[0] == key[0]);
    assert(t[t.len() - 1] == value[value.len() - 1]);
    assert(manifest_line(a, key, b, c, value, d) =~= a + t + d);
    law_trim(a, t, d);
    let k = key + b;
    let v = c + value;
    assert(!k.contains('=')) by {
        if k.contains('=') {
            let i = choose|i: int| 0 <= i < k.len() && k[i] == '=';
            if i < key.len() {
                assert(key[i] == '=');
                assert(key.contains('='));
            } else {
                assert(is_space(b[i - key.len()]));
            }
        }
    }
    assert(t =~= k + seq!['='] + v);
    law_split_once(k, '=', v);
    let none = Seq::<char>::empty();
    law_trim(none, key, b);
    assert(none + key + b =~= k);
    law_trim(c, value, none);
    assert(c + value + none =~= v);
}

proof fn lemma_digits_key(n: nat)
    ensures
        decimal(n).len() > 0,
        tight(decimal(n)),
        !decimal(n).contains('='),
        is_digit(decimal(n)[0]),
        ascii_lower_of(decimal(n)) != "version"@,
        ascii_lower_of(decimal(n)) != "ver"@,
{
    reveal_strlit("version");
    reveal_strlit("ver");
    let k = decimal(n);
    lemma_decimal(n);
    assert(is_digit(k[0]) && is_digit(k[k.len() - 1]));
    assert(!k.contains('=')) by {
        if k.contains('=') {
            let i = choose|i: int| 0 <= i < k.len() && k[i] == '=';
            assert(is_digit(k[i]));
        }
    }
    assert(ascii_lower_of(k)[0] == k[0]);
    assert("version"@[0] == 'v' && "ver"@[0] == 'v');
}

/// A number, an equals sign and a name give the archive of that version: the very
/// name, character for character, without the white space around it.
pub proof fn law_archive_line(
    n: u32,
    v: Seq<char>,
    a: Seq<char>,
    b: Seq<char>,
    c: Seq<char>,
    d: Seq<char>,
)
    requires
        blank(a) && blank(b) && blank(c) && blank(d),
        tight(v),
        v.len() > 0,
    ensures
        entry_of(decimal(n as nat) + seq!['='] + v) == Entry::Zip(n, v),
        entry_of(manifest_line(a, decimal(n as nat), b, c, v, d)) == Entry::Zip(n, v),
{
    let k = decimal(n as nat);
    lemma_digits_key(n as nat);
    law_number(n as nat, Seq::empty(), u32::MAX as nat);
    let e = Seq::<char>::empty();
    lemma_manifest_line(e, k, e, e, v, e);
    assert(k + seq!['='] + v =~= manifest_line(e, k, e, e, v, e));
    lemma_manifest_line(a, k, b, c, v, d);
}

/// `version=` and `ver=` name the newest version, in capitals or small letters; what
/// is no number of 32 bits there names nothing.
pub proof fn law_version_line(
    key: Seq<char>,
    n: nat,
    a: Seq<char>,
    b: Seq<char>,
    c: Seq<char>,
    d: Seq<char>,
)
    requires
        blank(a) && blank(b) && blank(c) && blank(d),
        key.len() == 3 || key.len() == 7,
        key[0] == 'v' || key[0] == 'V',
        key[1] == 'e' || key[1] == 'E',
        key[2] == 'r' || key[2] == 'R',
        key.len() == 7 ==> {
            &&& key[3] == 's' || key[3] == 'S'
            &&& key[4] == 'i' || key[4] == 'I'
            &&& key[5] == 'o' || key[5] == 'O'
            &&& key[6] == 'n' || key[6] == 'N'
        },
    ensures
        entry_of(manifest_line(a, key, b, c, decimal(n), d)) == (if n <= u32::MAX {
            Entry::Version(n as u32)
        } else {
            Entry::Nothing
        }),
{
    reveal_strlit("version");
    reveal_strlit("ver");
    lemma_digits_key(n);
    law_number(n, Seq::empty(), u32::MAX as nat);
    assert(!key.contains('=')) by {
        if key.contains('=') {
            let i = choose|i: int| 0 <= i < key.len() && key[i] == '=';
            assert(i < 7);
        }
    }
    lemma_manifest_line(a, key, b, c, decimal(n), d);
    if key.len() == 3 {
        assert(ascii_lower_of(key) =~= "ver"@);
    } else {
        assert(ascii_lower_of(key) =~= "version"@);
    }
}

/// A line that begins with `;`, `#` or `[`, one without an equals sign, an empty one
/// and one with neither a number nor the word for the version before it say nothing.
pub proof fn law_other_lines_say_nothing(
    a: Seq<char>,
    s: Seq<char>,
    b: Seq<char>,
    key: Seq<char>,
    v: Seq<char>,
    i: int,
)
    requires
        blank(a) && blank(b),
        tight(s),
        s.len() == 0 || s[0] == ';' || s[0] == '#' || s[0] == '[' || !s.contains('='),
        tight(key) && tight(v),
        !key.contains('='),
        v.len() > 0,
        0 <= i < key.len(),
        !is_digit(key[i]),
        i > 0 || key[0] != '+',
        key.len() != 3 && key.len() != 7,
    ensures
        entry_of(a + s + b) == Entry::Nothing,
        entry_of(key + seq!['='] + v) == Entry::Nothing,
{
    reveal_strlit("version");
    reveal_strlit("ver");
    law_trim(a, s, b);
    if !s.contains('=') {
        s.index_of_first_ensures('=');
    }
    let e = Seq::<char>::empty();
    lemma_manifest_line(e, key, e, e, v, e);
    assert(key + seq!['='] + v =~= manifest_line(e, key, e, e, v, e));
    law_not_a_number(key, i, u32::MAX as nat);
    assert(ascii_lower_of(key).len() == key.len());
}

/// A number without a name behind its equals sign says nothing.
pub proof fn law_archive_has_a_name(n: nat, c: Seq<char>)
    requires
        blank(c),
    ensures
        entry_of(decimal(n) + seq!['='] + c) == Entry::Nothing,
{
    let k = decimal(n);
    lemma_digits_key(n);
    let e = Seq::<char>::empty();
    let t = k + seq!['='];
    assert(t[0] == k[0]);
    assert(t[t.len() - 1] == '=');
    law_trim(e, t, c);
    assert(e + t + c =~= k + seq!['='] + c);
    law_split_once(k, '=', e);
    assert(k + seq!['='] + e =~= t);
    law_trim(e, k, e);
    assert(e + k + e =~= k);
    law_trim(e, e, e);
    assert(e + e + e =~= e);
}

/// The archive of a version is the one of the first line that names it.
pub proof fn law_first_archive_counts(lines: Seq<Seq<char>>, n: u32, i: int, v: Seq<char>)
    requires
        0 <= i < lines.len(),
        entry_of(lines[i]) == Entry::Zip(n, v),
        forall|j: int| 0 <= j < i ==> !(entry_of(#[trigger] lines[j]) matches Entry::Zip(m, _) && m == n),
    ensures
        archive_in(lines, n) == Some(v),
    decreases lines.len(),
{
    if i == lines.len() - 1 {
        assert forall|j: int| 0 <= j < lines.len() - 1 implies !(entry_of(
            #[trigger] lines.drop_last()[j],
        ) matches Entry::Zip(m, _) && m == n) by {
            assert(lines.drop_last()[j] == lines[j]);
        }
        law_unnamed_version_has_no_archive(lines.drop_last(), n);
    } else {
        assert(lines.drop_last()[i] == lines[i]);
        assert forall|j: int| 0 <= j < i implies !(entry_of(
            #[trigger] lines.drop_last()[j],
        ) matches Entry::Zip(m, _) && m == n) by {
            assert(lines.drop_last()[j] == lines[j]);
        }
        law_first_archive_counts(lines.drop_last(), n, i, v);
    }
}

/// A version that no line names has no archive.
pub proof fn law_unnamed_version_has_no_archive(lines: Seq<Seq<char>>, n: u32)
    requires
        forall|j: int|
            0 <= j < lines.len() ==> !(entry_of(#[trigger] lines[j]) matches Entry::Zip(m, _) && m == n),
    ensures
        archive_in(lines, n) is None,
    decreases lines.len(),
{
    if lines.len() > 0 {
        assert forall|j: int| 0 <= j < lines.len() - 1 implies !(entry_of(
            #[trigger] lines.drop_last()[j],
        ) matches Entry::Zip(m, _) && m == n) by {
            assert(lines.drop_last()[j] == lines[j]);
        }
        law_unnamed_version_has_no_archive(lines.drop_last(), n);
        assert(lines[lines.len() - 1] == lines.last());
    }
}

/// The newest version is the one of the last line that names one.
pub proof fn law_last_version_counts(lines: Seq<Seq<char>>, i: int, n: u32)
    requires
        0 <= i < lines.len(),
        entry_of(lines[i]) == Entry::Version(n),
        forall|j: int| i < j < lines.len() ==> !(entry_of(#[trigger] lines[j]) is Version),
    ensures
        version_in(lines) == Some(n),
    decreases lines.len(),
{
    if i < lines.len() - 1 {
        assert(!(entry_of(lines[lines.len() - 1]) is Version));
        assert(lines.drop_last()[i] == lines[i]);
        assert forall|j: int| i < j < lines.len() - 1 implies !(entry_of(
            #[trigger] lines.drop_last()[j],
        ) is Version) by {
            assert(lines.drop_last()[j] == lines[j]);
        }
        law_last_version_counts(lines.drop_last(), i, n);
    }
}

/// Lines that name no version leave it open.
pub proof fn law_no_version_without_a_line(lines: Seq<Seq<char>>)
    requires
        forall|j: int| 0 <= j < lines.len() ==> !(entry_of(#[trigger] lines[j]) is Version),
    ensures
        version_in(lines) is None,
    decreases lines.len(),
{
    if lines.len() > 0 {
        assert(!(entry_of(lines[lines.len() - 1]) is Version));
        assert forall|j: int| 0 <= j < lines.len() - 1 implies !(entry_of(
            #[trigger] lines.drop_last()[j],
        ) is Version) by {
            assert(lines.drop_last()[j] == lines[j]);
        }
        law_no_version_without_a_line(lines.drop_last());
    }
}

/// An archive without an address of its own lies beside the manifest: its address is
/// that of the manifest with the name in place of what stands behind the last slash.
pub proof fn law_archives_lie_beside(dir: Seq<char>, name: Seq<char>, entry: Seq<char>)
    requires
        !name.contains('/'),
    ensures
        base_of(dir + seq!['/'] + name) == dir + seq!['/'],
        base_of(name) == Seq::<char>::empty(),
        !("http://"@.is_prefix_of(entry)) && !("https://"@.is_prefix_of(entry)) ==> zip_url(
            base_of(dir + seq!['/'] + name),
            entry,
        ) == dir + seq!['/'] + entry,
        zip_url(dir, "http://"@ + entry) == "http://"@ + entry,
        zip_url(dir, "https://"@ + entry) == "https://"@ + entry,
{
    let url = dir + seq!['/'] + name;
    let n = dir.len() as int;
    assert(url[n] == '/');
    assert(url.contains('/'));
    url.index_of_last_ensures('/');
    let k = url.index_of_last('/')->0;
    if k > n {
        assert(name[k - n - 1] == '/');
        assert(name.contains('/'));
    }
    assert(k == n);
    assert(url.take(n + 1) =~= dir + seq!['/']);
    name.index_of_last_ensures('/');
    let h = "http://"@;
    let t = "https://"@;
    assert((h + entry).take(h.len() as int) =~= h);
    assert((t + entry).take(t.len() as int) =~= t);
}

/// What is listed of a manifest: every archive that a line is the first to name, and
/// no other.
pub proof fn law_listed_archives(
    zips: Seq<(u32, String)>,
    lines: Seq<Seq<char>>,
    i: int,
    n: u32,
    v: Seq<char>,
)
    requires
        lists(zips, lines),
        0 <= i < lines.len(),
        entry_of(lines[i]) == Entry::Zip(n, v),
        forall|j: int| 0 <= j < i ==> !(entry_of(#[trigger] lines[j]) matches Entry::Zip(m, _) && m == n),
    ensures
        exists|k: int| 0 <= k < zips.len() && (#[trigger] zips[k]).0 == n && zips[k].1@ == v,
        forall|k: int| 0 <= k < zips.len() && (#[trigger] zips[k]).0 == n ==> zips[k].1@ == v,
        forall|k: int, l: int|
            0 <= k < l < zips.len() ==> (#[trigger] zips[k]).0 < (#[trigger] zips[l]).0,
{
    law_first_archive_counts(lines, n, i, v);
    let k = choose|k: int| 0 <= k < zips.len() && (#[trigger] zips[k]).0 == n;
    assert(archive_in(lines, zips[k].0) == Some(zips[k].1@));
}

} // verus!

//! Updating the game: which archives are fetched, and how far that has come.

use vstd::prelude::*;
use crate::http::{line_version, parse_update_ini, UpdateInfo};
#[allow(unused_imports)]
use crate::http::{entry_of, lists, version_in, Entry};
use crate::server_list::config::LauncherConfig;
use crate::text::{
    chars_of, decimal_chars, joined, lines, own, push_all, push_str, string_of, trim,
};
#[allow(unused_imports)]
use crate::text::{
    ascii_lower_of, decimal, is_space, lemma_decimal, lemma_decimal_parses, lemma_trim_fixed,
    lines_of, rows, trim_of,
};
use crate::unicode::read_lossy;
#[allow(unused_imports)]
use crate::unicode::lossy_utf8;

verus! {

/// How many bytes an archive may have.
pub const MAX_ARCHIVE_BYTES: u64 = 536870912;

/// The file that keeps the version of the game's files.
pub const LOCAL_VERSION_FILE: &'static str = "Login.ini.Updated";

/// The version that some lines name first; zero where none does.
pub open spec fn local_version(lines: Seq<Seq<char>>) -> u32
    decreases lines.len(),
{
    if lines.len() == 0 {
        0
    } else {
        match entry_of(lines[0]) {
            Entry::Version(n) => n,
            _ => local_version(lines.skip(1)),
        }
    }
}

/// The version of the game's files, from the text that keeps it where there is
/// one.
pub fn read_local_version(text: Option<&str>) -> (r: u32)
    ensures
        r == (match text {
            Some(s) => local_version(lines_of(s@)),
            None => 0,
        }),
{
    match text {
        None => 0,
        Some(s) => {
            let all = lines(chars_of(s).as_slice());
            let ghost rest = rows(all@);
            let mut i: usize = 0;
            assert(rest.skip(0) == rest);
            while i < all.len()
                invariant
                    i <= all@.len(),
                    rest == rows(all@),
                    text == Some(s),
                    rest == lines_of(s@),
                    local_version(rest) == local_version(rest.skip(i as int)),
                decreases all@.len() - i,
            {
                proof {
                    assert(rest.skip(i as int)[0] == all@[i as int]@);
                    assert(rest.skip(i as int).skip(1) == rest.skip(i + 1));
                }
                match line_version(all[i].as_slice()) {
                    Some(n) => {
                        return n;
                    },
                    None => {},
                }
                i += 1;
            }
            0
        },
    }
}

/// The text that keeps a version.
pub open spec fn version_text(v: u32) -> Seq<char> {
    "[Update]\r\nVersion="@ + decimal(v as nat) + "\r\n"@
}

/// The text that keeps a version.
pub fn write_local_version(v: u32) -> (r: String)
    ensures
        r@ == version_text(v),
{
    let mut out = chars_of("[Update]\r\nVersion=");
    push_all(&mut out, decimal_chars(v as u64).as_slice());
    push_str(&mut out, "\r\n");
    string_of(out.as_slice())
}

proof fn lemma_cr_line(line: Seq<char>, rest: Seq<char>)
    requires
        !line.contains('\n'),
    ensures
        lines_of(line + seq!['\r', '\n'] + rest) == seq![line] + lines_of(rest),
{
    let t = line + seq!['\r', '\n'] + rest;
    let n = line.len() as int;
    assert(t[n + 1] == '\n' && t[n] == '\r');
    assert forall|i: int| 0 <= i < n implies t[i] != '\n' by {
        assert(t[i] == line[i]);
        assert(line.contains(line[i]));
    }
    t.index_of_first_ensures('\n');
    assert(t.contains('\n'));
    let k = t.index_of_first('\n')->0;
    assert(k == n + 1);
    assert(t.take(k).drop_last() == line);
    assert(t.take(k).last() == '\r');
    assert(t.skip(k + 1) == rest);
}

/// A version that was kept is read back.
pub proof fn law_version_reads_back(v: u32)
    ensures
        local_version(lines_of(version_text(v))) == v,
{
    reveal_strlit("[Update]\r\nVersion=");
    reveal_strlit("[Update]");
    reveal_strlit("Version");
    reveal_strlit("version");
    reveal_strlit("\r\n");
    let d = decimal(v as nat);
    let h = "[Update]"@;
    let key = "Version"@;
    let line = key + seq!['='] + d;
    let none = Seq::<char>::empty();
    lemma_decimal(v as nat);
    lemma_decimal_parses(v as nat, u32::MAX as nat);
    assert forall|i: int| 0 <= i < d.len() implies !is_space(#[trigger] d[i]) && d[i] != '\n' by {
        assert(crate::text::is_digit(d[i]));
    }
    assert(version_text(v) =~= h + seq!['\r', '\n'] + (line + seq!['\r', '\n'] + none));
    assert(!line.contains('\n')) by {
        if line.contains('\n') {
            let k = choose|k: int| 0 <= k < line.len() && line[k] == '\n';
            if k >= 8 {
                assert(d[k - 8] == '\n');
            }
        }
    }
    lemma_cr_line(h, line + seq!['\r', '\n'] + none);
    lemma_cr_line(line, none);
    assert(lines_of(none) == Seq::<Seq<char>>::empty());
    let all = lines_of(version_text(v));
    assert(all =~= seq![h, line]);
    assert(all.skip(1)[0] == line);
    lemma_trim_fixed(h);
    assert(entry_of(h) == Entry::Nothing);
    assert(!is_space(d[d.len() - 1]));
    assert(line.last() == d.last());
    lemma_trim_fixed(line);
    line.index_of_first_ensures('=');
    assert(line[7] == '=');
    assert(line.contains('='));
    let k = line.index_of_first('=')->0;
    assert(k == 7) by {
        if k < 7 {
            assert(line[k] == key[k]);
        }
    }
    assert(line.take(7) == key);
    assert(line.skip(8) == d);
    lemma_trim_fixed(key);
    lemma_trim_fixed(d);
    assert(ascii_lower_of(key) =~= "version"@);
    assert(entry_of(line) == Entry::Version(v));
    reveal_with_fuel(local_version, 3);
}

/// An address that is switched on, without white space around it; nothing where
/// it is switched off or empty.
pub open spec fn switched_url(enabled: bool, url: Seq<char>) -> Option<Seq<char>> {
    if enabled && trim_of(url).len() > 0 {
        Some(trim_of(url))
    } else {
        None
    }
}

fn switch_url(enabled: bool, url: &str) -> (r: Option<String>)
    ensures
        match switched_url(enabled, url@) {
            Some(u) => r matches Some(s) && s@ == u,
            None => r is None,
        },
{
    if !enabled {
        return None;
    }
    let cs = chars_of(url);
    let t = trim(cs.as_slice());
    if t.len() == 0 {
        return None;
    }
    Some(string_of(t))
}

/// Where a new server list is fetched, if it is.
pub fn list_update_url(cfg: &LauncherConfig) -> (r: Option<String>)
    ensures
        match switched_url(cfg.list_update_enabled, cfg.list_update_url@) {
            Some(u) => r matches Some(s) && s@ == u,
            None => r is None,
        },
{
    switch_url(cfg.list_update_enabled, cfg.list_update_url.as_str())
}

/// Where the manifest is fetched, if it is.
pub fn auto_update_url(cfg: &LauncherConfig) -> (r: Option<String>)
    ensures
        match switched_url(cfg.auto_update_enabled, cfg.auto_update_url@) {
            Some(u) => r matches Some(s) && s@ == u,
            None => r is None,
        },
{
    switch_url(cfg.auto_update_enabled, cfg.auto_update_url.as_str())
}

/// What a manifest offers that is newer than the game's files; nothing, where it
/// names no version or none that is newer.
pub fn check_auto_update(body: &[u8], url: &str, local: u32) -> (r: Option<UpdateInfo>)
    ensures
        match r {
            Some(u) => {
                &&& version_in(lines_of(lossy_utf8(body@))) == Some(u.server_version)
                &&& u.server_version > local
                &&& lists(u.zips@, lines_of(lossy_utf8(body@)))
                &&& u.source_url@ == url@
            },
            None => match version_in(lines_of(lossy_utf8(body@))) {
                Some(v) => v <= local,
                None => true,
            },
        },
{
    let text = read_lossy(body);
    match parse_update_ini(text.as_str(), url) {
        Some(info) => if info.server_version <= local {
            None
        } else {
            Some(info)
        },
        None => None,
    }
}

/// The archive of a version: that of the first entry that has it.
pub open spec fn archive_of(zips: Seq<(u32, String)>, v: u32) -> Option<Seq<char>>
    decreases zips.len(),
{
    if zips.len() == 0 {
        None
    } else {
        match archive_of(zips.drop_last(), v) {
            Some(a) => Some(a),
            None => if zips.last().0 == v {
                Some(zips.last().1@)
            } else {
                None
            },
        }
    }
}

fn find_archive(zips: &[(u32, String)], v: u32) -> (r: Option<String>)
    ensures
        match archive_of(zips@, v) {
            Some(a) => r matches Some(s) && s@ == a,
            None => r is None,
        },
{
    let mut i: usize = 0;
    assert(zips@.take(0) == Seq::<(u32, String)>::empty());
    while i < zips.len()
        invariant
            i <= zips@.len(),
            zips.len() == zips@.len(),
            archive_of(zips@.take(i as int), v) is None,
        decreases zips@.len() - i,
    {
        proof {
            let done = zips@.take(i + 1);
            assert(done.drop_last() == zips@.take(i as int));
            assert(done.last() == zips@[i as int]);
        }
        if zips[i].0 == v {
            proof {
                lemma_archive_stays(zips@, v, i + 1);
            }
            return Some(own(zips[i].1.as_str()));
        }
        i += 1;
    }
    assert(zips@.take(i as int) == zips@);
    None
}

proof fn lemma_archive_stays(zips: Seq<(u32, String)>, v: u32, k: int)
    requires
        0 <= k <= zips.len(),
        archive_of(zips.take(k), v) is Some,
    ensures
        archive_of(zips, v) == archive_of(zips.take(k), v),
    decreases zips.len() - k,
{
    if k == zips.len() {
        assert(zips.take(k) == zips);
    } else {
        assert(zips.take(k + 1).drop_last() == zips.take(k));
        lemma_archive_stays(zips, v, k + 1);
    }
}

/// The archives that bring the game's files from one version to another, in
/// order: one for each version behind the first up to the second. The first
/// version without an archive, where there is one.
pub fn plan_update(info: &UpdateInfo, local: u32) -> (r: Result<Vec<(u32, String)>, u32>)
    ensures
        match r {
            Ok(need) => {
                &&& need@.len() == (if info.server_version > local {
                    info.server_version - local
                } else {
                    0
                })
                &&& forall|i: int|
                    0 <= i < need@.len() ==> (#[trigger] need@[i]).0 == local + 1 + i && archive_of(
                        info.zips@,
                        need@[i].0,
                    ) == Some(need@[i].1@)
            },
            Err(v) => {
                &&& local < v <= info.server_version
                &&& archive_of(info.zips@, v) is None
                &&& forall|w: u32|
                    local < w < v ==> #[trigger] archive_of(info.zips@, w) is Some
            },
        },
{
    let mut need: Vec<(u32, String)> = Vec::new();
    if info.server_version <= local {
        return Ok(need);
    }
    let mut v: u32 = local;
    while v < info.server_version
        invariant
            local <= v <= info.server_version,
            need@.len() == v - local,
            forall|i: int|
                0 <= i < need@.len() ==> (#[trigger] need@[i]).0 == local + 1 + i && archive_of(
                    info.zips@,
                    need@[i].0,
                ) == Some(need@[i].1@),
            forall|w: u32| local < w <= v ==> #[trigger] archive_of(info.zips@, w) is Some,
        decreases info.server_version - v,
    {
        v += 1;
        match find_archive(info.zips.as_slice(), v) {
            Some(a) => {
                need.push((v, a));
            },
            None => {
                return Err(v);
            },
        }
    }
    Ok(need)
}

/// What is said where a version has no archive.
pub fn missing_archive_text(v: u32) -> (r: String)
    ensures
        r@ == "Update.ini 缺少版本 "@ + decimal(v as nat) + " 的 zip 條目"@,
{
    let mut out = chars_of("Update.ini 缺少版本 ");
    push_all(&mut out, decimal_chars(v as u64).as_slice());
    push_str(&mut out, " 的 zip 條目");
    string_of(out.as_slice())
}

/// The share of each of some archives in the progress of all, in percent.
pub open spec fn share(count: int) -> int {
    80int / (if count < 1 {
        1
    } else {
        count
    })
}

/// How far a download is, in percent. Without a known size, each 64 KiB count as
/// one percent, up to 95.
pub open spec fn download_percent(downloaded: int, total: int) -> int {
    if total > 0 {
        if downloaded * 100 / total <= 100 {
            downloaded * 100 / total
        } else {
            100
        }
    } else if downloaded / 65536 <= 95 {
        downloaded / 65536
    } else {
        95
    }
}

/// How far all is while the i-th of some archives is so far, in percent.
pub open spec fn total_percent(i: int, count: int, current: int) -> int {
    let p = i * share(count) + current * share(count) / 100;
    if p <= 80 {
        p
    } else {
        80
    }
}

fn share_of(count: usize) -> (r: usize)
    ensures
        r == share(count as int),
        r <= 80,
        count > 0 ==> r * count <= 80,
{
    let n: usize = if count < 1 {
        1
    } else {
        count
    };
    let r: usize = 80 / n;
    proof {
        let a = 80int;
        let b = n as int;
        assert(b * (a / b) <= a) by (nonlinear_arith)
            requires
                b > 0,
                a == 80,
        ;
        assert(r * n == b * (a / b)) by (nonlinear_arith)
            requires
                r == a / b,
                n == b,
        ;
    }
    r
}

/// How far the i-th of some archives and all of them are, in percent.
pub fn progress(i: usize, count: usize, downloaded: u64, total: u64) -> (r: (u8, u8))
    requires
        i < count,
    ensures
        r.0 == download_percent(downloaded as int, total as int),
        r.1 == total_percent(i as int, count as int, r.0 as int),
        r.0 <= 100,
        r.1 <= 80,
{
    let current: u8 = if total > 0 {
        let p: u128 = (downloaded as u128) * 100 / (total as u128);
        if p <= 100 {
            p as u8
        } else {
            100
        }
    } else {
        let p: u64 = downloaded / 65536;
        if p <= 95 {
            p as u8
        } else {
            95
        }
    };
    let each: usize = share_of(count);
    proof {
        assert(i * each <= each * count) by (nonlinear_arith)
            requires
                i < count,
                0 <= each,
        ;
        assert(current * each <= 8000) by (nonlinear_arith)
            requires
                0 <= current <= 100,
                0 <= each <= 80,
        ;
    }
    let p: usize = i * each + (current as usize) * each / 100;
    let all: u8 = if p <= 80 {
        p as u8
    } else {
        80
    };
    (current, all)
}

/// How far all is once the i-th of some archives is installed.
pub fn installed_percent(i: usize, count: usize) -> (r: u8)
    requires
        i < count,
    ensures
        r == total_percent(i as int, count as int, 100),
        r == (i + 1) * share(count as int),
{
    let each: usize = share_of(count);
    proof {
        assert((i + 1) * each <= each * count) by (nonlinear_arith)
            requires
                i < count,
                0 <= each,
        ;
        assert((i + 1) * each == i * each + each) by (nonlinear_arith);
        assert(100 * each / 100 == each) by (nonlinear_arith);
    }
    let p: usize = (i + 1) * each;
    p as u8
}

/// The progress never goes back: not while a download goes on, and not from one
/// archive to the next. It stays within 80 percent.
pub proof fn law_progress_grows(i: int, count: int, a: int, b: int, total: int)
    requires
        0 <= i < count,
        0 <= a <= b,
        0 <= total,
    ensures
        download_percent(a, total) <= download_percent(b, total) <= 100,
        total_percent(i, count, download_percent(a, total)) <= total_percent(
            i,
            count,
            download_percent(b, total),
        ) <= total_percent(i, count, 100) <= 80,
        total_percent(i, count, 100) <= total_percent(i + 1, count, 0),
{
    let s = share(count);
    let x = download_percent(a, total);
    let y = download_percent(b, total);
    if total > 0 {
        assert(a * 100 / total <= b * 100 / total) by (nonlinear_arith)
            requires
                0 <= a <= b,
                total > 0,
        ;
        assert(0 <= a * 100 / total) by (nonlinear_arith)
            requires
                0 <= a,
                total > 0,
        ;
    }
    assert(0 <= s) by (nonlinear_arith)
        requires
            s == 80int / count,
            count > 0,
    ;
    assert(x * s <= y * s && y * s <= 100 * s) by (nonlinear_arith)
        requires
            x <= y <= 100,
            0 <= s,
    ;
    assert((i + 1) * s == i * s + s) by (nonlinear_arith);
}

/// The name of the file that holds the archive of a version.
pub fn archive_file(version: u32) -> (r: String)
    ensures
        r@ == "patch_v"@ + decimal(version as nat) + ".zip"@,
{
    let mut out = chars_of("patch_v");
    push_all(&mut out, decimal_chars(version as u64).as_slice());
    push_str(&mut out, ".zip");
    string_of(out.as_slice())
}

/// What is said while an archive is fetched or unpacked.
pub open spec fn stage_text(verb: Seq<char>, version: u32, i: nat, count: nat) -> Seq<char> {
    verb + " v"@ + decimal(version as nat) + "（"@ + decimal(i + 1) + "/"@ + decimal(count)
        + "）..."@
}

fn build_stage_text(verb: &str, version: u32, i: usize, count: usize) -> (r: String)
    requires
        i < usize::MAX,
    ensures
        r@ == stage_text(verb@, version, i as nat, count as nat),
{
    let mut out = chars_of(verb);
    push_str(&mut out, " v");
    push_all(&mut out, decimal_chars(version as u64).as_slice());
    push_str(&mut out, "（");
    push_all(&mut out, decimal_chars((i + 1) as u64).as_slice());
    push_str(&mut out, "/");
    push_all(&mut out, decimal_chars(count as u64).as_slice());
    push_str(&mut out, "）...");
    string_of(out.as_slice())
}

/// What is said while the i-th archive is fetched.
pub fn download_text(version: u32, i: usize, count: usize) -> (r: String)
    requires
        i < usize::MAX,
    ensures
        r@ == stage_text("下載"@, version, i as nat, count as nat),
{
    build_stage_text("下載", version, i, count)
}

/// What is said while the i-th archive is unpacked.
pub fn unpack_text(version: u32, i: usize, count: usize) -> (r: String)
    requires
        i < usize::MAX,
    ensures
        r@ == stage_text("解壓"@, version, i as nat, count as nat),
{
    build_stage_text("解壓", version, i, count)
}

/// Whether an update begins, and what is said: it does not, where the manifest
/// names no archive at all.
pub fn begin_update(info: &UpdateInfo) -> (r: (bool, String))
    ensures
        r.0 == (info.zips@.len() > 0),
        r.1@ == (if info.zips@.len() == 0 {
            "發現新資源版本 v"@ + decimal(info.server_version as nat)
                + " 但 Update.ini 沒有 zip 條目，請聯絡管理者"@
        } else {
            "發現新資源版本 v"@ + decimal(info.server_version as nat) + "，正在下載更新..."@
        }),
{
    let mut out = chars_of("發現新資源版本 v");
    push_all(&mut out, decimal_chars(info.server_version as u64).as_slice());
    if info.zips.len() == 0 {
        push_str(&mut out, " 但 Update.ini 沒有 zip 條目，請聯絡管理者");
        (false, string_of(out.as_slice()))
    } else {
        push_str(&mut out, "，正在下載更新...");
        (true, string_of(out.as_slice()))
    }
}

/// What is said once an update is done, or has failed for a reason.
pub fn end_update(version: u32, error: Option<&str>) -> (r: String)
    ensures
        r@ == (match error {
            None => "更新完成 ✓  資源版本 v"@ + decimal(version as nat)
                + " 已就緒，可以進入遊戲"@,
            Some(e) => "更新失敗："@ + e@ + "（可重試或聯絡管理者）"@,
        }),
{
    let mut out: Vec<char> = Vec::new();
    match error {
        None => {
            push_str(&mut out, "更新完成 ✓  資源版本 v");
            push_all(&mut out, decimal_chars(version as u64).as_slice());
            push_str(&mut out, " 已就緒，可以進入遊戲");
        },
        Some(e) => {
            push_str(&mut out, "更新失敗：");
            push_str(&mut out, e);
            push_str(&mut out, "（可重試或聯絡管理者）");
        },
    }
    string_of(out.as_slice())
}

/// An error in one line: the texts of its causes with slashes between them.
pub open spec fn chained(causes: Seq<Seq<char>>) -> Seq<char>
    decreases causes.len(),
{
    if causes.len() == 0 {
        seq![]
    } else if causes.len() == 1 {
        causes[0]
    } else {
        chained(causes.drop_last()) + " / "@ + causes.last()
    }
}

/// An error in one line.
pub fn short_error(causes: &[String]) -> (r: String)
    ensures
        r@ == chained(crate::text::texts(causes@)),
{
    let ghost all = crate::text::texts(causes@);
    let mut out = String::new();
    let mut i: usize = 0;
    assert(all.take(0) == Seq::<Seq<char>>::empty());
    while i < causes.len()
        invariant
            i <= causes@.len(),
            causes.len() == causes@.len(),
            all == crate::text::texts(causes@),
            out@ == chained(all.take(i as int)),
        decreases causes@.len() - i,
    {
        proof {
            let done = all.take(i + 1);
            assert(done.drop_last() == all.take(i as int));
            assert(done.last() == causes@[i as int]@);
            assert(i == 0 ==> done[0] == causes@[0]@);
        }
        if i == 0 {
            out = own(causes[i].as_str());
        } else {
            let head = joined(out.as_str(), " / ");
            out = joined(head.as_str(), causes[i].as_str());
        }
        i += 1;
    }
    assert(all.take(i as int) == all);
    out
}

} // verus!

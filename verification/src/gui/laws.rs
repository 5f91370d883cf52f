//! What the window promises: its answers, its scripts, its files and its updates.

use crate::config::UserPrefs;
use crate::gui::events::{
    after_game, effects_of, replies_to, valid_mode, EffectModel, EventModel,
    JsMessage, PageData, ReplyModel,
};
use crate::gui::install::{stepped, RunModel, Stage};
use crate::gui::json::{json_char, json_chars, json_text};
use crate::gui::launch::{patches_of, table_path_of, LaunchRequest, Patch};
use crate::gui::scripts::{
    alert_script, fill_script, lock_script, message_script, progress_script, quoted, quoted_char, server_json,
    servers_body, servers_json, status_script,
};
use crate::gui::settings::{probe_address, settings_of, with_list};
use crate::gui::skin::{
    index_page, is_rooted, leaves, mime_of, parent_at, plain_extension, unslashed, wanted_file,
};
use crate::gui::update::{
    archive_of, chained, download_percent, local_version, share, stage_text, switched_url,
    total_percent, version_text,
};
use crate::http::{entry_of, Entry, UpdateInfo};
use crate::server_list::config::{default_aux, default_launcher, AuxConfig, ListModel};
use crate::server_list::info::ServerModel;
use crate::server_list::list::{opened, parsed_list};
use crate::text::{ascii_lower_of, decimal, hex_char, signed_decimal};
use crate::text_laws::{blank, law_trim, tight};
use vstd::prelude::*;

verus! {

/// A window's size is one of the four, 800x600 where it is none of them.
pub proof fn law_window_sizes(m: u8)
    ensures
        4 <= m <= 7 ==> valid_mode(Some(m)) == m,
        m < 4 || m > 7 ==> valid_mode(Some(m)) == 5,
        valid_mode(None) == 5,
{
}

/// A page that is there gets the servers, and the update that waits or a full bar.
pub proof fn law_ready_page(pending: UpdateInfo)
    ensures
        replies_to(JsMessage::Ready, Some(pending)) == seq![
            ReplyModel::Send(EventModel::PushServers),
            ReplyModel::Send(EventModel::AutoUpdatePrompt(pending)),
        ],
        replies_to(JsMessage::Ready, None) == seq![
            ReplyModel::Send(EventModel::PushServers),
            ReplyModel::Send(EventModel::PushProgress(100, 100)),
        ],
{
}

/// A start keeps the player's choice first, and then starts the very server that was
/// asked for, with that choice.
pub proof fn law_start_is_asked_for(
    server_idx: usize,
    windowed: bool,
    mode: Option<u8>,
    pending: Option<UpdateInfo>,
)
    ensures
        ({
            let r = replies_to(
                JsMessage::Launch { server_idx, windowed, window_mode: mode },
                pending,
            );
            &&& r.len() == 2
            &&& r[0] matches ReplyModel::Save(p) && p.windowed == windowed && (mode matches Some(m)
                && 4 <= m <= 7 ==> p.window_mode == mode->0)
            &&& r[1] matches ReplyModel::Launch(i, w, n) && i == server_idx && w == windowed && (
            r[0] matches ReplyModel::Save(p) && n == p.window_mode)
        }),
{
}

/// The other messages of the page: preferences are kept, the window closes and moves, an
/// address is opened without the white space around it, and nothing is done for a choice
/// of a server or an empty address.
pub proof fn law_other_messages(
    windowed: bool,
    mode: u8,
    index: usize,
    url: String,
    a: Seq<char>,
    s: Seq<char>,
    b: Seq<char>,
    pending: Option<UpdateInfo>,
)
    requires
        blank(a) && blank(b),
        tight(s),
        url@ == a + s + b,
    ensures
        4 <= mode <= 7 ==> replies_to(
            JsMessage::SavePrefs { windowed, window_mode: mode },
            pending,
        ) == seq![ReplyModel::Save(UserPrefs { windowed, window_mode: mode })],
        mode < 4 || mode > 7 ==> replies_to(
            JsMessage::SavePrefs { windowed, window_mode: mode },
            pending,
        ) == seq![ReplyModel::Save(UserPrefs { windowed, window_mode: 5 })],
        replies_to(JsMessage::Cancel, pending) == seq![ReplyModel::Send(EventModel::Close)],
        replies_to(JsMessage::Drag, pending) == seq![ReplyModel::Send(EventModel::DragWindow)],
        replies_to(JsMessage::Select { index }, pending).len() == 0,
        s.len() > 0 ==> replies_to(JsMessage::OpenUrl { url }, pending) == seq![
            ReplyModel::Send(EventModel::OpenExternal(s)),
        ],
        s.len() == 0 ==> replies_to(JsMessage::OpenUrl { url }, pending).len() == 0,
{
    law_trim(a, s, b);
}

/// Closing ends the program, and only hides the window while a game runs.
pub proof fn law_closing(page: PageData)
    ensures
        effects_of(EventModel::Close, page, true) == seq![EffectModel::Visible(false)],
        effects_of(EventModel::Close, page, false) == seq![EffectModel::Exit],
{
}

/// A start locks the window, says where it goes, and then starts the game; an update
/// locks the window and then begins.
pub proof fn law_start_locks_the_window(
    q: LaunchRequest,
    u: UpdateInfo,
    page: PageData,
    running: bool,
)
    ensures
        effects_of(EventModel::LaunchGame(q), page, running) == seq![
            EffectModel::Send(EventModel::SetLocked(true)),
            EffectModel::Send(
                EventModel::SetStatus("遊戲啟動中 → "@ + q.ip@ + ":"@ + decimal(q.port as nat)),
            ),
            EffectModel::Launch(q),
        ],
        effects_of(EventModel::AutoUpdatePrompt(u), page, running) == seq![
            EffectModel::Send(EventModel::SetLocked(true)),
            EffectModel::Update(u),
        ],
{
}

/// Every other event has one effect of its own, whether a game runs or not; the servers
/// are tried after they were shown.
pub proof fn law_other_events(
    page: PageData,
    running: bool,
    msg: Seq<char>,
    index: usize,
    on: bool,
    c: u8,
    t: u8,
)
    ensures
        effects_of(EventModel::PushServers, page, running).len() == 2,
        effects_of(EventModel::PushServers, page, running)[0] is Script,
        effects_of(EventModel::PushServers, page, running)[1] == EffectModel::Probe,
        effects_of(EventModel::PushServerStatus(index, on), page, running) == seq![
            EffectModel::Script(status_script(index as nat, on)),
        ],
        effects_of(EventModel::ShowError(msg), page, running) == seq![
            EffectModel::Script(alert_script(msg)),
        ],
        effects_of(EventModel::DragWindow, page, running) == seq![EffectModel::Drag],
        effects_of(EventModel::SetWindowVisible(on), page, running) == seq![EffectModel::Visible(on)],
        effects_of(EventModel::OpenExternal(msg), page, running) == seq![EffectModel::Open(msg)],
        effects_of(EventModel::PushProgress(c, t), page, running) == seq![
            EffectModel::Script(progress_script(c, t)),
        ],
        effects_of(EventModel::SetLocked(on), page, running) == seq![
            EffectModel::Script(lock_script(on)),
        ],
        effects_of(EventModel::SetStatus(msg), page, running) == seq![
            EffectModel::Script(message_script(msg)),
        ],
{
}

/// After a game the window closes for good; after a failed start it comes back, says
/// why twice, and is unlocked again.
pub proof fn law_after_a_game(long: Seq<char>, short: Seq<char>)
    ensures
        after_game(None) == seq![EventModel::Close, EventModel::Close],
        after_game(Some((long, short))).len() == 4,
        after_game(Some((long, short)))[0] == EventModel::SetWindowVisible(true),
        after_game(Some((long, short)))[1] == EventModel::ShowError("啟動遊戲失敗：\n"@ + long),
        after_game(Some((long, short)))[2] == EventModel::SetStatus("啟動失敗："@ + short),
        after_game(Some((long, short)))[3] == EventModel::SetLocked(false),
{
}

/// A text in JSON: quotes and backslashes have a backslash in front, line ends, tabs and
/// the other control characters are spelled out, and every other character stays.
pub proof fn law_json(s: Seq<char>, c: char)
    ensures
        json_text(Seq::empty()) == seq!['"', '"'],
        json_text(s).len() >= 2 && json_text(s)[0] == '"' && json_text(s)[json_text(s).len() - 1]
            == '"',
        json_chars(s.push('"')) == json_chars(s) + seq!['\\', '"'],
        json_chars(s.push('\\')) == json_chars(s) + seq!['\\', '\\'],
        json_chars(s.push('\n')) == json_chars(s) + seq!['\\', 'n'],
        json_chars(s.push('\r')) == json_chars(s) + seq!['\\', 'r'],
        json_chars(s.push('\t')) == json_chars(s) + seq!['\\', 't'],
        json_chars(s.push('\u{8}')) == json_chars(s) + seq!['\\', 'b'],
        json_chars(s.push('\u{c}')) == json_chars(s) + seq!['\\', 'f'],
        c >= ' ' && c != '"' && c != '\\' ==> json_chars(s.push(c)) == json_chars(s).push(c),
        !(c >= ' ') && c != '\n' && c != '\r' && c != '\t' && c != '\u{8}' && c != '\u{c}'
            ==> json_chars(s.push(c)) == json_chars(s) + seq![
            '\\',
            'u',
            '0',
            '0',
            "0123456789abcdef"@[c as int / 16],
            "0123456789abcdef"@[c as int % 16],
        ],
{
    reveal_strlit("0123456789abcdef");
    let e = Seq::<char>::empty();
    assert(json_text(e) =~= seq!['"', '"']);
    lemma_json_push(s, '"');
    lemma_json_push(s, '\\');
    lemma_json_push(s, '\n');
    lemma_json_push(s, '\r');
    lemma_json_push(s, '\t');
    lemma_json_push(s, '\u{8}');
    lemma_json_push(s, '\u{c}');
    lemma_json_push(s, c);
    if c >= ' ' && c != '"' && c != '\\' {
        assert(json_chars(s) + seq![c] =~= json_chars(s).push(c));
    }
    if !(c >= ' ') {
        let h = (c as int / 16) as nat;
        let l = (c as int % 16) as nat;
        assert(hex_char(h, false) == "0123456789abcdef"@[h as int]);
        assert(hex_char(l, false) == "0123456789abcdef"@[l as int]);
    }
}

proof fn lemma_json_push(s: Seq<char>, c: char)
    ensures
        json_chars(s.push(c)) == json_chars(s) + json_char(c),
{
    assert(s.push(c).drop_last() =~= s);
    assert(s.push(c).last() == c);
}

/// A text in single quotes: backslashes and quotes have a backslash in front, a line feed
/// is spelled out, and every other character stays.
pub proof fn law_quoted(s: Seq<char>, c: char)
    ensures
        quoted(Seq::empty()).len() == 0,
        quoted(s.push('\\')) == quoted(s) + seq!['\\', '\\'],
        quoted(s.push('\'')) == quoted(s) + seq!['\\', '\''],
        quoted(s.push('\n')) == quoted(s) + seq!['\\', 'n'],
        c != '\\' && c != '\'' && c != '\n' ==> quoted(s.push(c)) == quoted(s).push(c),
        alert_script(s) == "window.alert('"@ + quoted(s) + "')"@,
{
    lemma_quoted_push(s, '\\');
    lemma_quoted_push(s, '\'');
    lemma_quoted_push(s, '\n');
    lemma_quoted_push(s, c);
    if c != '\\' && c != '\'' && c != '\n' {
        assert(quoted(s) + seq![c] =~= quoted(s).push(c));
    }
}

proof fn lemma_quoted_push(s: Seq<char>, c: char)
    ensures
        quoted(s.push(c)) == quoted(s) + quoted_char(c),
{
    assert(s.push(c).drop_last() =~= s);
    assert(s.push(c).last() == c);
}

/// The servers stand in a list in their order, each with its name, its address, its port
/// and whether it is in use.
pub proof fn law_servers_in_json(servers: Seq<ServerModel>, m: ServerModel)
    ensures
        servers_json(Seq::empty()) == "["@ + "]"@,
        servers_json(seq![m]) == "["@ + server_json(m) + "]"@,
        servers.len() > 0 ==> servers_json(servers.push(m)) == "["@ + (servers_body(
            servers,
            servers.len(),
        ) + ","@ + server_json(m)) + "]"@,
        server_json(m) == "{\"name\":"@ + json_text(m.name) + ",\"ip\":"@ + json_text(m.ip)
            + ",\"port\":"@ + signed_decimal(m.port) + ",\"used\":"@ + (if m.used {
            "true"@
        } else {
            "false"@
        }) + "}"@,
{
    let e = Seq::<ServerModel>::empty();
    assert("["@ + servers_body(e, 0) + "]"@ =~= "["@ + "]"@);
    if servers.len() > 0 {
        lemma_servers_body(servers, m, servers.len());
        assert(servers.push(m)[servers.len() as int] == m);
    }
}

proof fn lemma_servers_body(servers: Seq<ServerModel>, m: ServerModel, k: nat)
    requires
        k <= servers.len(),
    ensures
        servers_body(servers.push(m), k) == servers_body(servers, k),
    decreases k,
{
    if k > 1 {
        lemma_servers_body(servers, m, (k - 1) as nat);
        assert(servers.push(m)[k - 1] == servers[k - 1]);
    } else if k == 1 {
        assert(servers.push(m)[0] == servers[0]);
    }
}

/// What is always changed in the game, and what the settings ask for, with their values:
/// nothing is left out, nothing is done that was not asked for, and the sign-in comes
/// last.
pub proof fn law_patches(aux: AuxConfig)
    ensures
        ({
            let p = patches_of(aux);
            &&& p.len() >= 4
            &&& p[0] == Patch::AcCheck && p[1] == Patch::CrtWatson
            &&& p[p.len() - 2] == Patch::SmoothRun && p[p.len() - 1] == Patch::Login
            &&& p.len() == 4 + (if aux.img_limit_enabled {
                2int
            } else {
                0
            }) + (if aux.inventory_limit_enabled {
                1int
            } else {
                0
            }) + (if aux.equip_ui_enabled {
                1int
            } else {
                0
            }) + (if aux.move_packet_no_encrypt {
                1int
            } else {
                0
            })
            &&& aux.img_limit_enabled ==> p[2] == Patch::ImgLimit(aux.img_limit_value) && p[3]
                == Patch::PngLimit(aux.img_limit_value)
            &&& aux.inventory_limit_enabled ==> p.contains(
                Patch::Inventory(aux.inventory_limit_value),
            )
            &&& aux.equip_ui_enabled ==> p.contains(Patch::EquipUi)
            &&& aux.move_packet_no_encrypt ==> p[p.len() - 3] == Patch::MovePackets
        }),
{
    let p = patches_of(aux);
    let n = if aux.img_limit_enabled {
        4int
    } else {
        2int
    };
    if aux.inventory_limit_enabled {
        assert(p[n] == Patch::Inventory(aux.inventory_limit_value));
    }
    if aux.equip_ui_enabled {
        let m = if aux.inventory_limit_enabled {
            n + 1
        } else {
            n
        };
        assert(p[m] == Patch::EquipUi);
    }
}

/// Settings that cannot be had, opened or read leave no server and the usual ones.
pub proof fn law_settings(raw: Seq<char>)
    ensures
        settings_of(None).servers.len() == 0,
        settings_of(None).aux == default_aux(),
        settings_of(None).launcher == default_launcher(),
        opened(raw) matches Err(_) ==> settings_of(Some(raw)) == settings_of(None),
        opened(raw) matches Ok(plain) ==> (parsed_list(plain) matches Err(_) ==> settings_of(
            Some(raw),
        ) == settings_of(None)),
        opened(raw) matches Ok(plain) ==> (parsed_list(plain) matches Ok(m) ==> settings_of(
            Some(raw),
        ) == m),
{
}

/// The servers of a list take the place of those of the settings where there are any; the
/// rest of the settings stays.
pub proof fn law_list_over_settings(m: ListModel, s: Seq<char>)
    ensures
        with_list(m, None) == m,
        parsed_list(s) matches Err(_) ==> with_list(m, Some(s)) == m,
        parsed_list(s) matches Ok(l) ==> {
            &&& with_list(m, Some(s)).aux == m.aux && with_list(m, Some(s)).launcher == m.launcher
            &&& l.servers.len() > 0 ==> with_list(m, Some(s)).servers == l.servers
            &&& l.servers.len() == 0 ==> with_list(m, Some(s)).servers == m.servers
        },
{
}

/// A server is tried at its address and port where it is in use and has both.
pub proof fn law_probes(m: ServerModel)
    ensures
        m.used && m.ip.len() > 0 && 0 < m.port <= 65535 ==> probe_address(m) == Some(
            m.ip + seq![':'] + decimal(m.port as nat),
        ),
        !m.used || m.ip.len() == 0 || m.port <= 0 ==> probe_address(m) is None,
{
    reveal_strlit(":");
    assert(":"@ =~= seq![':']);
}

proof fn lemma_unslashed(a: Seq<char>, s: Seq<char>)
    requires
        forall|i: int| 0 <= i < a.len() ==> (#[trigger] a[i]) == '/',
        s.len() == 0 || s[0] != '/',
    ensures
        unslashed(a + s) == s,
    decreases a.len(),
{
    if a.len() > 0 {
        assert((a + s)[0] == a[0]);
        assert((a + s).skip(1) =~= a.skip(1) + s);
        assert forall|i: int| 0 <= i < a.skip(1).len() implies (#[trigger] a.skip(1)[i]) == '/' by {
            assert(a[i + 1] == '/');
        }
        lemma_unslashed(a.skip(1), s);
    } else {
        assert(a + s =~= s);
    }
}

/// A request names its file behind the slashes in front, and the first page where there
/// is nothing behind them.
pub proof fn law_requested_file(a: Seq<char>, s: Seq<char>)
    requires
        forall|i: int| 0 <= i < a.len() ==> (#[trigger] a[i]) == '/',
        s.len() == 0 || s[0] != '/',
    ensures
        s.len() > 0 ==> wanted_file(a + s) == s,
        wanted_file(a) == "index.html"@,
{
    lemma_unslashed(a, s);
    lemma_unslashed(a, Seq::empty());
    assert(a + Seq::<char>::empty() =~= a);
}

/// A path with a part `..`, one from a root and one from the root of a drive leave the
/// directory of a skin; a name without dots, separators and colons does not.
pub proof fn law_leaving_paths(a: Seq<char>, b: Seq<char>, c: char, d: char)
    requires
        c == '/' || c == '\\',
        'a' <= d <= 'z' || 'A' <= d <= 'Z',
    ensures
        leaves(seq!['.', '.']),
        leaves(seq!['.', '.', c] + b),
        leaves(a + seq![c, '.', '.']),
        leaves(a + seq![c, '.', '.', c] + b),
        leaves(seq![c] + b),
        leaves(seq![d, ':', c] + b),
        !a.contains('/') && !a.contains('\\') && !a.contains(':') && !a.contains('.') ==> !leaves(a),
{
    let p = seq!['.', '.'];
    assert(parent_at(p, 0));
    let q = seq!['.', '.', c] + b;
    assert(q[0] == '.' && q[1] == '.' && q[2] == c);
    assert(parent_at(q, 0));
    let r = a + seq![c, '.', '.'];
    let n = a.len() as int;
    assert(r[n] == c && r[n + 1] == '.' && r[n + 2] == '.');
    assert(parent_at(r, n + 1));
    let s = a + seq![c, '.', '.', c] + b;
    assert(s[n] == c && s[n + 1] == '.' && s[n + 2] == '.' && s[n + 3] == c);
    assert(parent_at(s, n + 1));
    let t = seq![c] + b;
    assert(t[0] == c);
    assert(is_rooted(t));
    let u = seq![d, ':', c] + b;
    assert(u[0] == d && u[1] == ':' && u[2] == c);
    assert(is_rooted(u));
    if !a.contains('/') && !a.contains('\\') && !a.contains(':') && !a.contains('.') {
        assert forall|i: int| !#[trigger] parent_at(a, i) by {
            if parent_at(a, i) {
                assert(a.contains(a[i]));
            }
        }
        if a.len() > 0 {
            assert(a.contains(a[0]));
        }
        if a.len() > 1 {
            assert(a.contains(a[1]));
        }
    }
}

/// The kinds of the files of a skin, by their endings.
pub proof fn law_kinds_of_files(ext: Seq<char>)
    ensures
        mime_of("html"@) == "text/html; charset=utf-8"@,
        mime_of("htm"@) == "text/html; charset=utf-8"@,
        mime_of("css"@) == "text/css; charset=utf-8"@,
        mime_of("js"@) == "application/javascript; charset=utf-8"@,
        mime_of("json"@) == "application/json; charset=utf-8"@,
        mime_of("jpg"@) == "image/jpeg"@,
        mime_of("jpeg"@) == "image/jpeg"@,
        mime_of("png"@) == "image/png"@,
        mime_of("gif"@) == "image/gif"@,
        mime_of("svg"@) == "image/svg+xml"@,
        mime_of("woff"@) == "font/woff"@,
        mime_of("woff2"@) == "font/woff2"@,
        mime_of("ttf"@) == "font/ttf"@,
        ext.len() < 2 || ext.len() > 5 ==> mime_of(ext) == "application/octet-stream"@,
{
    reveal_strlit("html");
    reveal_strlit("htm");
    reveal_strlit("css");
    reveal_strlit("js");
    reveal_strlit("json");
    reveal_strlit("jpg");
    reveal_strlit("jpeg");
    reveal_strlit("png");
    reveal_strlit("gif");
    reveal_strlit("svg");
    reveal_strlit("woff");
    reveal_strlit("woff2");
    reveal_strlit("ttf");
    assert("html"@.len() == 4 && "html"@[0] == 'h');
    assert("htm"@.len() == 3 && "htm"@[0] == 'h');
    assert("css"@.len() == 3 && "css"@[0] == 'c');
    assert("js"@.len() == 2);
    assert("json"@.len() == 4 && "json"@[0] == 'j' && "json"@[1] == 's');
    assert("jpg"@.len() == 3 && "jpg"@[0] == 'j');
    assert("jpeg"@.len() == 4 && "jpeg"@[0] == 'j' && "jpeg"@[1] == 'p');
    assert("png"@.len() == 3 && "png"@[0] == 'p');
    assert("gif"@.len() == 3 && "gif"@[0] == 'g');
    assert("svg"@.len() == 3 && "svg"@[0] == 's');
    assert("woff"@.len() == 4 && "woff"@[0] == 'w');
    assert("woff2"@.len() == 5);
    assert("ttf"@.len() == 3 && "ttf"@[0] == 't');
}

/// The version that is installed is that of the first line that names one, and zero
/// where no line does.
pub proof fn law_installed_version(lines: Seq<Seq<char>>, i: int, n: u32)
    requires
        forall|j: int|
            0 <= j < lines.len() && j < i ==> !(entry_of(#[trigger] lines[j]) is Version),
    ensures
        0 <= i < lines.len() && entry_of(lines[i]) == Entry::Version(n) ==> local_version(lines) == n,
        i >= lines.len() ==> local_version(lines) == 0,
    decreases lines.len(),
{
    if lines.len() > 0 && i > 0 {
        assert(!(entry_of(lines[0]) is Version));
        let t = lines.skip(1);
        assert forall|j: int| 0 <= j < t.len() && j < i - 1 implies !(entry_of(
            #[trigger] t[j],
        ) is Version) by {
            assert(t[j] == lines[j + 1]);
        }
        law_installed_version(t, i - 1, n);
        if i < lines.len() {
            assert(t[i - 1] == lines[i]);
        }
    }
}

/// An address counts where its switch is on and it is not blank, without the white space
/// around it.
pub proof fn law_switched_addresses(a: Seq<char>, s: Seq<char>, b: Seq<char>)
    requires
        blank(a) && blank(b),
        tight(s),
    ensures
        switched_url(false, a + s + b) is None,
        s.len() > 0 ==> switched_url(true, a + s + b) == Some(s),
        s.len() == 0 ==> switched_url(true, a + s + b) is None,
{
    law_trim(a, s, b);
}

/// The archive of a version is the first of the list for it.
pub proof fn law_archive_of_a_version(zips: Seq<(u32, String)>, v: u32, i: int)
    requires
        forall|j: int| 0 <= j < zips.len() && j < i ==> (#[trigger] zips[j]).0 != v,
    ensures
        0 <= i < zips.len() && zips[i].0 == v ==> archive_of(zips, v) == Some(zips[i].1@),
        i >= zips.len() ==> archive_of(zips, v) is None,
    decreases zips.len(),
{
    if zips.len() > 0 {
        let t = zips.drop_last();
        assert forall|j: int| 0 <= j < t.len() && j < i implies (#[trigger] t[j]).0 != v by {
            assert(t[j] == zips[j]);
        }
        law_archive_of_a_version(t, v, i);
        if 0 <= i < t.len() {
            assert(t[i] == zips[i]);
        }
        if i >= zips.len() {
            assert(zips[zips.len() - 1].0 != v);
        }
    }
}

/// How far a download is: its part of the whole where that is known, and a guess by its
/// size that stays below the end where it is not.
pub proof fn law_download_percent(n: int, total: int)
    requires
        0 <= n,
    ensures
        total > 0 && n >= total ==> download_percent(n, total) == 100,
        total > 0 ==> download_percent(0, total) == 0,
        total > 0 ==> download_percent(total, 2 * total) == 50,
        total == 0 ==> download_percent(n, total) <= 95,
        total == 0 && n < 65536 ==> download_percent(n, total) == 0,
        total == 0 && n >= 95 * 65536 ==> download_percent(n, total) == 95,
{
    if total > 0 {
        assert(total * 100 / (2 * total) == 50) by (nonlinear_arith)
            requires
                total > 0,
        ;
        assert(0int * 100 / total == 0) by (nonlinear_arith)
            requires
                total > 0,
        ;
        if n >= total {
            assert(n * 100 / total >= 100) by (nonlinear_arith)
                requires
                    n >= total,
                    total > 0,
            ;
        }
    }
}

/// The downloads of an update share four fifths of the whole bar.
pub proof fn law_total_percent(count: int)
    requires
        1 <= count <= 80,
    ensures
        total_percent(0, count, 0) == 0,
        total_percent(0, 1, 100) == 80,
        total_percent(0, 2, 100) == 40,
        total_percent(1, 2, 100) == 80,
        share(count) * count <= 80 < (share(count) + 1) * count,
{
    assert(80int / count * count <= 80 < (80int / count + 1) * count) by (nonlinear_arith)
        requires
            count >= 1,
    ;
    assert(0int * share(count) == 0) by (nonlinear_arith);
    assert(80int / 1 == 80 && 80int / 2 == 40);
}

/// A stage says what is done to which version, and how many there are.
pub proof fn law_stage_text(verb: Seq<char>, version: u32, i: nat, count: nat)
    ensures
        stage_text(verb, version, i, count) == verb + " v"@ + decimal(version as nat) + "（"@
            + decimal(i + 1) + "/"@ + decimal(count) + "）..."@,
        version_text(version) == "[Update]\r\nVersion="@ + decimal(version as nat) + "\r\n"@,
{
}

/// Causes stand behind one another with a slash between them.
pub proof fn law_causes(causes: Seq<Seq<char>>, c: Seq<char>)
    ensures
        chained(Seq::empty()).len() == 0,
        chained(seq![c]) == c,
        causes.len() > 0 ==> chained(causes.push(c)) == chained(causes) + " / "@ + c,
{
    assert(causes.push(c).drop_last() =~= causes);
    assert(causes.push(c).last() == c);
}

/// The table of a game lies in its directory, under the game's name without `.bin` and
/// with the table's ending.
pub proof fn law_table_path(dir: Seq<char>, stem: Seq<char>, ending: Seq<char>)
    requires
        crate::paths_laws::plain_dir(dir),
        crate::text::first_at(stem + ".bin"@, ".bin"@, stem.len() as int),
    ensures
        table_path_of(dir, stem + ".bin"@, ending) == dir + seq!['\\'] + (stem + ending),
{
    reveal_strlit(".bin");
    reveal_strlit("\\");
    assert("\\"@ =~= seq!['\\']);
    let e = Seq::<char>::empty();
    crate::text_laws::law_without(stem, ".bin"@, e);
    assert(stem + ".bin"@ + e =~= stem + ".bin"@);
    assert(crate::text::without(e, ".bin"@) =~= e);
    assert(stem + e =~= stem);
    assert(dir.last() == dir[dir.len() - 1]);
}

/// The first page of a skin lies in the skin's directory, among the skins.
pub proof fn law_first_page(dir: Seq<char>, skin: Seq<char>)
    requires
        crate::paths_laws::plain_dir(dir),
        crate::paths_laws::plain_name(skin),
    ensures
        index_page(dir, skin) == dir + seq!['\\'] + "skins"@ + seq!['\\'] + skin + seq!['\\']
            + "index.html"@,
{
    reveal_strlit("\\");
    reveal_strlit("skins");
    assert("\\"@ =~= seq!['\\']);
    let a = dir + seq!['\\'] + "skins"@;
    assert(dir.last() == dir[dir.len() - 1]);
    assert(a.last() == 's');
    let b = a + seq!['\\'] + skin;
    assert(b.last() == skin[skin.len() - 1]);
}

/// The ending of a requested file counts in small letters.
pub proof fn law_plain_ending(dir: Seq<char>, c: char, stem: Seq<char>, ext: Seq<char>)
    requires
        c == '/' || c == '\\',
        stem.len() > 0,
        !ext.contains('.'),
        crate::paths_laws::plain_name(stem + seq!['.'] + ext),
    ensures
        plain_extension(dir + seq![c] + (stem + seq!['.'] + ext)) == ascii_lower_of(ext),
{
    crate::paths_laws::law_file_name(dir, c, stem + seq!['.'] + ext);
    crate::paths_laws::law_ending(stem, ext);
}

/// A page is given the servers, the version, the announcement, the two links and the
/// player's choice, in this order.
pub proof fn law_page_is_filled(
    servers: Seq<ServerModel>,
    announcement: Seq<char>,
    official: Seq<char>,
    customer: Seq<char>,
    prefs: UserPrefs,
)
    ensures
        fill_script(servers, announcement, official, customer, prefs)
            == "if(window.lineage){window.lineage.setServers("@ + servers_json(servers)
            + ");window.lineage.setVersion('0.1.0');if(window.lineage.setAnnouncement)window.lineage.setAnnouncement("@
            + json_text(announcement)
            + ");if(window.lineage.setLinks)window.lineage.setLinks({official:"@ + json_text(
            official,
        ) + ",support:"@ + json_text(customer)
            + "});if(window.lineage.setPrefs)window.lineage.setPrefs({\"windowed\":"@ + (
        if prefs.windowed {
            "true"@
        } else {
            "false"@
        }) + ",\"windowMode\":"@ + decimal(prefs.window_mode as nat) + "});}"@,
{
}

/// The scripts of a server's state, the progress, the lock and the message.
pub proof fn law_small_scripts(i: nat, on: bool, c: u8, t: u8, text: Seq<char>)
    ensures
        status_script(i, on)
            == "if(window.lineage&&window.lineage.setServerStatus)window.lineage.setServerStatus("@
            + decimal(i) + ","@ + (if on {
            "true"@
        } else {
            "false"@
        }) + ");"@,
        progress_script(c, t)
            == "if(window.lineage&&window.lineage.setProgress)window.lineage.setProgress("@
            + decimal(c as nat) + ","@ + decimal(t as nat) + ");"@,
        lock_script(on)
            == "if(window.lineage&&window.lineage.setLocked)window.lineage.setLocked("@ + (if on {
            "true"@
        } else {
            "false"@
        }) + ");"@,
        message_script(text)
            == "if(window.lineage&&window.lineage.setStatus)window.lineage.setStatus("@ + json_text(
            text,
        ) + ");"@,
{
}

/// A step of an update that fails ends it, but for the removal of an archive, which
/// counts no matter how it went.
pub proof fn law_failed_step(m: RunModel)
    ensures
        m.stage == Stage::Fetch || m.stage == Stage::Keep || m.stage == Stage::Unpack || m.stage
            == Stage::Tool || m.stage == Stage::Record ==> stepped(m, false).stage
            == Stage::Failed,
        m.stage == Stage::Remove ==> stepped(m, false) == stepped(m, true) && stepped(m, true).at
            == m.at + 1,
        m.stage == Stage::Done || m.stage == Stage::Failed ==> stepped(m, true) == m && stepped(
            m,
            false,
        ) == m,
{
}

} // verus!

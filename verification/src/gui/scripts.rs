//! The scripts that the window's page runs.

use vstd::prelude::*;
use crate::config::UserPrefs;
use crate::gui::json::to_json;
#[allow(unused_imports)]
use crate::gui::json::json_text;
use crate::server_list::info::ServerInfo;
#[allow(unused_imports)]
use crate::server_list::config::server_models;
#[allow(unused_imports)]
use crate::server_list::info::ServerModel;
use crate::text::{
    chars_of, decimal_chars, push_all, push_str, signed_decimal_chars, string_of,
};
#[allow(unused_imports)]
use crate::text::{decimal, signed_decimal};

verus! {

/// The version that the window shows.
pub const APP_VERSION: &'static str = "0.1.0";

/// A yes or no.
pub open spec fn truth(b: bool) -> Seq<char> {
    if b {
        "true"@
    } else {
        "false"@
    }
}

fn truth_str(b: bool) -> (r: &'static str)
    ensures
        r@ == truth(b),
{
    if b {
        "true"
    } else {
        "false"
    }
}

/// A server as JSON.
pub open spec fn server_json(m: ServerModel) -> Seq<char> {
    "{\"name\":"@ + json_text(m.name) + ",\"ip\":"@ + json_text(m.ip) + ",\"port\":"@
        + signed_decimal(m.port) + ",\"used\":"@ + truth(m.used) + "}"@
}

/// The first `k` servers as JSON, with commas between them.
pub open spec fn servers_body(servers: Seq<ServerModel>, k: nat) -> Seq<char>
    decreases k,
{
    if k == 0 {
        seq![]
    } else if k == 1 {
        server_json(servers[0])
    } else {
        servers_body(servers, (k - 1) as nat) + ","@ + server_json(servers[k - 1])
    }
}

/// A list of servers as JSON.
pub open spec fn servers_json(servers: Seq<ServerModel>) -> Seq<char> {
    "["@ + servers_body(servers, servers.len()) + "]"@
}

fn push_server(out: &mut Vec<char>, s: &ServerInfo)
    ensures
        final(out)@ == old(out)@ + server_json(s@),
{
    let ghost start = out@;
    push_str(out, "{\"name\":");
    push_str(out, to_json(s.name.as_str()).as_str());
    push_str(out, ",\"ip\":");
    push_str(out, to_json(s.ip.as_str()).as_str());
    push_str(out, ",\"port\":");
    push_all(out, signed_decimal_chars(s.port).as_slice());
    push_str(out, ",\"used\":");
    push_str(out, truth_str(s.used));
    push_str(out, "}");
    assert(out@ == start + server_json(s@));
}

/// A list of servers as JSON.
pub fn build_servers_json(servers: &[ServerInfo]) -> (r: String)
    ensures
        r@ == servers_json(server_models(servers@)),
{
    let n: usize = servers.len();
    let ghost all = server_models(servers@);
    let mut out = chars_of("[");
    let mut i: usize = 0;
    assert("["@ + servers_body(all, 0) == "["@);
    while i < n
        invariant
            i <= n,
            n == servers@.len(),
            n == servers.len(),
            all == server_models(servers@),
            out@ == "["@ + servers_body(all, i as nat),
        decreases n - i,
    {
        let ghost before = out@;
        if i > 0 {
            push_str(&mut out, ",");
        }
        push_server(&mut out, &servers[i]);
        proof {
            assert(all[i as int] == servers@[i as int]@);
            if i == 0 {
                assert(out@ == "["@ + servers_body(all, 1));
            } else {
                assert(out@ == "["@ + servers_body(all, (i + 1) as nat));
            }
        }
        i += 1;
    }
    push_str(&mut out, "]");
    assert(out@ == servers_json(all));
    string_of(out.as_slice())
}

/// The script that fills the page.
pub open spec fn fill_script(
    servers: Seq<ServerModel>,
    announcement: Seq<char>,
    official: Seq<char>,
    customer: Seq<char>,
    prefs: UserPrefs,
) -> Seq<char> {
    "if(window.lineage){window.lineage.setServers("@ + servers_json(servers)
        + ");window.lineage.setVersion('0.1.0');if(window.lineage.setAnnouncement)window.lineage.setAnnouncement("@
        + json_text(announcement)
        + ");if(window.lineage.setLinks)window.lineage.setLinks({official:"@ + json_text(official)
        + ",support:"@ + json_text(customer)
        + "});if(window.lineage.setPrefs)window.lineage.setPrefs({\"windowed\":"@ + truth(
        prefs.windowed,
    ) + ",\"windowMode\":"@ + decimal(prefs.window_mode as nat) + "});}"@
}

/// The script that fills the page.
pub fn build_fill_script(
    servers: &[ServerInfo],
    announcement: &str,
    official: &str,
    customer: &str,
    prefs: &UserPrefs,
) -> (r: String)
    ensures
        r@ == fill_script(
            server_models(servers@),
            announcement@,
            official@,
            customer@,
            *prefs,
        ),
{
    let mut out = chars_of("if(window.lineage){window.lineage.setServers(");
    push_str(&mut out, build_servers_json(servers).as_str());
    push_str(
        &mut out,
        ");window.lineage.setVersion('0.1.0');if(window.lineage.setAnnouncement)window.lineage.setAnnouncement(",
    );
    push_str(&mut out, to_json(announcement).as_str());
    push_str(&mut out, ");if(window.lineage.setLinks)window.lineage.setLinks({official:");
    push_str(&mut out, to_json(official).as_str());
    push_str(&mut out, ",support:");
    push_str(&mut out, to_json(customer).as_str());
    push_str(&mut out, "});if(window.lineage.setPrefs)window.lineage.setPrefs({\"windowed\":");
    push_str(&mut out, truth_str(prefs.windowed));
    push_str(&mut out, ",\"windowMode\":");
    push_all(&mut out, decimal_chars(prefs.window_mode as u64).as_slice());
    push_str(&mut out, "});}");
    string_of(out.as_slice())
}

/// The script that shows whether a server is on.
pub open spec fn status_script(index: nat, online: bool) -> Seq<char> {
    "if(window.lineage&&window.lineage.setServerStatus)window.lineage.setServerStatus("@ + decimal(
        index,
    ) + ","@ + truth(online) + ");"@
}

/// The script that shows whether a server is on.
pub fn build_status_script(index: usize, online: bool) -> (r: String)
    ensures
        r@ == status_script(index as nat, online),
{
    let mut out = chars_of(
        "if(window.lineage&&window.lineage.setServerStatus)window.lineage.setServerStatus(",
    );
    push_all(&mut out, decimal_chars(index as u64).as_slice());
    push_str(&mut out, ",");
    push_str(&mut out, truth_str(online));
    push_str(&mut out, ");");
    string_of(out.as_slice())
}

/// A character within a script's text in single quotes.
pub open spec fn quoted_char(c: char) -> Seq<char> {
    if c == '\\' {
        seq!['\\', '\\']
    } else if c == '\'' {
        seq!['\\', '\'']
    } else if c == '\n' {
        seq!['\\', 'n']
    } else {
        seq![c]
    }
}

/// A text within a script's text in single quotes.
pub open spec fn quoted(s: Seq<char>) -> Seq<char>
    decreases s.len(),
{
    if s.len() == 0 {
        seq![]
    } else {
        quoted(s.drop_last()) + quoted_char(s.last())
    }
}

/// The script that shows an error.
pub open spec fn alert_script(msg: Seq<char>) -> Seq<char> {
    "window.alert('"@ + quoted(msg) + "')"@
}

/// The script that shows an error.
pub fn build_alert_script(msg: &str) -> (r: String)
    ensures
        r@ == alert_script(msg@),
{
    let cs = chars_of(msg);
    let mut text: Vec<char> = Vec::new();
    let mut i: usize = 0;
    assert(cs@.take(0) == Seq::<char>::empty());
    while i < cs.len()
        invariant
            i <= cs@.len(),
            cs@ == msg@,
            text@ == quoted(cs@.take(i as int)),
        decreases cs@.len() - i,
    {
        let ghost before = text@;
        let c: char = cs[i];
        if c == '\\' {
            text.push('\\');
            text.push('\\');
        } else if c == '\'' {
            text.push('\\');
            text.push('\'');
        } else if c == '\n' {
            text.push('\\');
            text.push('n');
        } else {
            text.push(c);
        }
        proof {
            let done = cs@.take(i + 1);
            assert(done.drop_last() == cs@.take(i as int));
            assert(done.last() == c);
            assert(text@ == before + quoted_char(c));
        }
        i += 1;
    }
    assert(cs@.take(i as int) == cs@);
    let mut out = chars_of("window.alert('");
    push_all(&mut out, text.as_slice());
    push_str(&mut out, "')");
    string_of(out.as_slice())
}

/// A quote that ends a script's text: one without a backslash that belongs to it.
pub open spec fn ends_text(s: Seq<char>) -> bool {
    s.contains('\n') || exists|i: int|
        0 <= i < s.len() && #[trigger] s[i] == '\'' && !escaped(s, i)
}

/// A character is escaped: an odd number of backslashes stand in front of it.
pub open spec fn escaped(s: Seq<char>, i: int) -> bool
    decreases i,
{
    i > 0 && s[i - 1] == '\\' && !escaped(s, i - 1)
}

proof fn lemma_escaped_prefix(s: Seq<char>, t: Seq<char>, i: int)
    requires
        0 <= i <= s.len(),
    ensures
        escaped(s + t, i) == escaped(s, i),
    decreases i,
{
    if i > 0 {
        assert((s + t)[i - 1] == s[i - 1]);
        if s[i - 1] == '\\' {
            lemma_escaped_prefix(s, t, i - 1);
        }
    }
}

proof fn lemma_quoted(s: Seq<char>)
    ensures
        !ends_text(quoted(s)),
        !escaped(quoted(s), quoted(s).len() as int),
    decreases s.len(),
{
    if s.len() > 0 {
        let p = quoted(s.drop_last());
        let q = quoted_char(s.last());
        let n = p.len() as int;
        let all = p + q;
        lemma_quoted(s.drop_last());
        lemma_escaped_prefix(p, q, n);
        assert(!escaped(all, n));
        assert(all[n] == q[0]);
        if q.len() == 2 {
            assert(all[n + 1] == q[1]);
            assert(escaped(all, n + 1));
            assert(!escaped(all, n + 2));
        } else {
            assert(!escaped(all, n + 1));
        }
        assert(!all.contains('\n')) by {
            if all.contains('\n') {
                let k = choose|k: int| 0 <= k < all.len() && all[k] == '\n';
                if k < n {
                    assert(p[k] == '\n');
                }
            }
        }
        assert forall|i: int| 0 <= i < all.len() && #[trigger] all[i] == '\'' implies escaped(
            all,
            i,
        ) by {
            if i < n {
                assert(p[i] == '\'');
                lemma_escaped_prefix(p, q, i);
            }
        }
    }
}

/// Whatever an error says, it cannot end the text of the script that shows it: no
/// line break and no quote of its own stands in it, and the backslash at its end
/// does not take the closing quote along.
pub proof fn law_alert_text_is_closed(msg: Seq<char>)
    ensures
        !ends_text(quoted(msg)),
        !escaped(quoted(msg), quoted(msg).len() as int),
{
    lemma_quoted(msg);
}

/// The script that shows how far an update is.
pub open spec fn progress_script(current: u8, total: u8) -> Seq<char> {
    "if(window.lineage&&window.lineage.setProgress)window.lineage.setProgress("@ + decimal(
        current as nat,
    ) + ","@ + decimal(total as nat) + ");"@
}

/// The script that shows how far an update is.
pub fn build_progress_script(current: u8, total: u8) -> (r: String)
    ensures
        r@ == progress_script(current, total),
{
    let mut out = chars_of(
        "if(window.lineage&&window.lineage.setProgress)window.lineage.setProgress(",
    );
    push_all(&mut out, decimal_chars(current as u64).as_slice());
    push_str(&mut out, ",");
    push_all(&mut out, decimal_chars(total as u64).as_slice());
    push_str(&mut out, ");");
    string_of(out.as_slice())
}

/// The script that locks the page or frees it.
pub open spec fn lock_script(locked: bool) -> Seq<char> {
    "if(window.lineage&&window.lineage.setLocked)window.lineage.setLocked("@ + truth(locked) + ");"@
}

/// The script that locks the page or frees it.
pub fn build_lock_script(locked: bool) -> (r: String)
    ensures
        r@ == lock_script(locked),
{
    let mut out = chars_of("if(window.lineage&&window.lineage.setLocked)window.lineage.setLocked(");
    push_str(&mut out, truth_str(locked));
    push_str(&mut out, ");");
    string_of(out.as_slice())
}

/// The script that shows a message.
pub open spec fn message_script(text: Seq<char>) -> Seq<char> {
    "if(window.lineage&&window.lineage.setStatus)window.lineage.setStatus("@ + json_text(text)
        + ");"@
}

/// The script that shows a message.
pub fn build_message_script(text: &str) -> (r: String)
    ensures
        r@ == message_script(text@),
{
    let mut out = chars_of("if(window.lineage&&window.lineage.setStatus)window.lineage.setStatus(");
    push_str(&mut out, to_json(text).as_str());
    push_str(&mut out, ");");
    string_of(out.as_slice())
}

} // verus!

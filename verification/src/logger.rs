//! Which messages are logged, and where.

use vstd::prelude::*;
use crate::text::{ascii_lower, chars_of, contains_str, eq_str, trim};
#[allow(unused_imports)]
use crate::text::{ascii_lower_of, contains_text, trim_of};

verus! {

/// The log of everything.
pub const LOG_FILE: &'static str = "launcher_debug.log";

/// The log of the start.
pub const STARTUP_DIAG_FILE: &'static str = "launcher_startup_timing.log";

/// The variable that switches the log off.
pub const WRITE_LOGS_ENV: &'static str = "LOGIN38_WRITE_LOGS";

/// A value that stands for yes.
pub open spec fn says_yes(s: Seq<char>) -> bool {
    let v = ascii_lower_of(trim_of(s));
    v == "1"@ || v == "true"@ || v == "yes"@ || v == "on"@
}

/// A value that stands for no.
pub open spec fn says_no(s: Seq<char>) -> bool {
    let v = ascii_lower_of(trim_of(s));
    v == "0"@ || v == "false"@ || v == "no"@ || v == "off"@
}

/// Whether a value stands for yes.
pub fn is_truthy_env(value: &str) -> (r: bool)
    ensures
        r == says_yes(value@),
{
    let v = ascii_lower(trim(chars_of(value).as_slice()));
    let v = v.as_slice();
    eq_str(v, "1") || eq_str(v, "true") || eq_str(v, "yes") || eq_str(v, "on")
}

/// Whether a value stands for no.
pub fn is_falsy_env(value: &str) -> (r: bool)
    ensures
        r == says_no(value@),
{
    let v = ascii_lower(trim(chars_of(value).as_slice()));
    let v = v.as_slice();
    eq_str(v, "0") || eq_str(v, "false") || eq_str(v, "no") || eq_str(v, "off")
}

/// Logs are written unless a variable says no. A verbose build always writes
/// them.
pub open spec fn logs_on(verbose_log: bool, env_value: Option<Seq<char>>) -> bool {
    verbose_log || match env_value {
        Some(v) => !says_no(v),
        None => true,
    }
}

/// Whether logs are written.
pub fn logs_enabled_from_env(verbose_log: bool, env_value: Option<&str>) -> (r: bool)
    ensures
        r == logs_on(
            verbose_log,
            match env_value {
                Some(v) => Some(v@),
                None => None,
            },
        ),
{
    if verbose_log {
        return true;
    }
    match env_value {
        Some(v) => !is_falsy_env(v),
        None => true,
    }
}

/// A message about the start.
pub open spec fn is_startup_diag(m: Seq<char>) -> bool {
    ||| contains_text(m, "[launch-time]"@)
    ||| contains_text(m, "[patch-time]"@)
    ||| contains_text(m, "[addr-probe]"@)
    ||| contains_text(m, "[addr-ready]"@)
    ||| contains_text(m, "[inject-load]"@)
    ||| contains_text(m, "[inject]"@)
    ||| contains_text(m, "[ime-inject]"@)
    ||| contains_text(m, "[ime-overlay]"@)
    ||| contains_text(m, "[StartupHook]"@)
    ||| contains_text(m, "[stage2]"@)
    ||| contains_text(m, "[ConnectHook]"@)
    ||| contains_text(m, "[ImgLimit]"@)
    ||| contains_text(m, "[NetProxy]"@)
    ||| contains_text(m, "[PacketEncrypt]"@)
    ||| contains_text(m, "[PacketProxy]"@)
    ||| contains_text(m, "[spy]"@)
    ||| contains_text(m, "[FileHookWorker]"@)
    ||| contains_text(m, "[FileHook] ready wait"@)
    ||| contains_text(m, "[FileHook] alloc remote buffer"@)
    ||| contains_text(m, "[FileHook] write remote buffer"@)
}

/// Whether a message is about the start.
pub fn is_startup_diag_message(msg: &str) -> (r: bool)
    ensures
        r == is_startup_diag(msg@),
{
    let m = chars_of(msg);
    let m = m.as_slice();
    contains_str(m, "[launch-time]") || contains_str(m, "[patch-time]") || contains_str(
        m,
        "[addr-probe]",
    ) || contains_str(m, "[addr-ready]") || contains_str(m, "[inject-load]") || contains_str(
        m,
        "[inject]",
    ) || contains_str(m, "[ime-inject]") || contains_str(m, "[ime-overlay]") || contains_str(
        m,
        "[StartupHook]",
    ) || contains_str(m, "[stage2]") || contains_str(m, "[ConnectHook]") || contains_str(
        m,
        "[ImgLimit]",
    ) || contains_str(m, "[NetProxy]") || contains_str(m, "[PacketEncrypt]") || contains_str(
        m,
        "[PacketProxy]",
    ) || contains_str(m, "[spy]") || contains_str(m, "[FileHookWorker]") || contains_str(
        m,
        "[FileHook] ready wait",
    ) || contains_str(m, "[FileHook] alloc remote buffer") || contains_str(
        m,
        "[FileHook] write remote buffer",
    )
}

/// The file that a message goes to. `None` where it is not logged. A message
/// about the start is always logged, in a file of its own.
pub fn log_target(msg: &str, enabled: bool) -> (r: Option<&'static str>)
    ensures
        match r {
            Some(f) => f@ == (if is_startup_diag(msg@) {
                STARTUP_DIAG_FILE@
            } else {
                LOG_FILE@
            }) && (enabled || is_startup_diag(msg@)),
            None => !enabled && !is_startup_diag(msg@),
        },
{
    if is_startup_diag_message(msg) {
        Some(STARTUP_DIAG_FILE)
    } else if enabled {
        Some(LOG_FILE)
    } else {
        None
    }
}

/// Those who want to see the messages, each under a number.
pub struct Subscribers {
    pub ids: Vec<u64>,
    pub next: u64,
}

impl Subscribers {
    /// Every number is given once.
    pub open spec fn inv(self) -> bool {
        &&& forall|i: int| 0 <= i < self.ids@.len() ==> (#[trigger] self.ids@[i]) < self.next
        &&& forall|i: int, j: int|
            0 <= i < j < self.ids@.len() ==> (#[trigger] self.ids@[i]) != (#[trigger] self.ids@[j])
    }

    /// Nobody.
    pub fn new() -> (r: Subscribers)
        ensures
            r.inv(),
            r.ids@ == Seq::<u64>::empty(),
            r.next == 0,
    {
        Subscribers { ids: Vec::new(), next: 0 }
    }
}

/// Adds one more who wants to see the messages, and gives a number for them.
pub fn subscribe(senders: &mut Subscribers) -> (r: u64)
    requires
        old(senders).inv(),
        old(senders).next < u64::MAX,
    ensures
        final(senders).inv(),
        r == old(senders).next,
        !old(senders).ids@.contains(r),
        final(senders).ids@ == old(senders).ids@.push(r),
        final(senders).next == old(senders).next + 1,
{
    let id: u64 = senders.next;
    senders.ids.push(id);
    senders.next = id + 1;
    id
}

/// Adds one more who wants to see the messages.
pub fn init_channel(senders: &mut Subscribers) -> (r: u64)
    requires
        old(senders).inv(),
        old(senders).next < u64::MAX,
    ensures
        final(senders).inv(),
        r == old(senders).next,
        !old(senders).ids@.contains(r),
        final(senders).ids@ == old(senders).ids@.push(r),
        final(senders).next == old(senders).next + 1,
{
    subscribe(senders)
}

/// Those of `ids` for whom sending the message succeeded.
pub open spec fn reached(ids: Seq<u64>, sent: Seq<bool>) -> Seq<u64>
    decreases ids.len(),
{
    if ids.len() == 0 {
        seq![]
    } else if sent.len() >= ids.len() && sent[ids.len() - 1] {
        reached(ids.drop_last(), sent).push(ids.last())
    } else {
        reached(ids.drop_last(), sent)
    }
}

proof fn lemma_reached(ids: Seq<u64>, sent: Seq<bool>)
    ensures
        forall|i: int|
            0 <= i < reached(ids, sent).len() ==> ids.contains(#[trigger] reached(ids, sent)[i]),
        (forall|i: int, j: int|
            0 <= i < j < ids.len() ==> (#[trigger] ids[i]) != (#[trigger] ids[j])) ==> forall|
            i: int,
            j: int,
        |
            0 <= i < j < reached(ids, sent).len() ==> (#[trigger] reached(ids, sent)[i]) != (
            #[trigger] reached(ids, sent)[j]),
    decreases ids.len(),
{
    if ids.len() > 0 {
        let rest = ids.drop_last();
        lemma_reached(rest, sent);
        let r = reached(rest, sent);
        assert forall|i: int| 0 <= i < r.len() implies ids.contains(#[trigger] r[i]) by {
            assert(rest.contains(r[i]));
            let k = choose|k: int| 0 <= k < rest.len() && rest[k] == r[i];
            assert(ids[k] == r[i]);
        }
        if forall|i: int, j: int| 0 <= i < j < ids.len() ==> (#[trigger] ids[i]) != (
        #[trigger] ids[j]) {
            assert forall|i: int, j: int| 0 <= i < j < rest.len() implies (#[trigger] rest[i]) != (
            #[trigger] rest[j]) by {
                assert(ids[i] != ids[j]);
            }
            assert forall|i: int| 0 <= i < r.len() implies (#[trigger] r[i]) != ids.last() by {
                assert(rest.contains(r[i]));
                let k = choose|k: int| 0 <= k < rest.len() && rest[k] == r[i];
                assert(ids[k] != ids[ids.len() - 1]);
            }
        }
        assert(ids.contains(ids.last())) by {
            assert(ids[ids.len() - 1] == ids.last());
        }
    }
}

/// Forgets those for whom sending a message failed. `sent` says for each,
/// in order, whether it succeeded.
pub fn retain_reached(senders: &mut Subscribers, sent: &[bool])
    requires
        old(senders).inv(),
        sent@.len() >= old(senders).ids@.len(),
    ensures
        final(senders).inv(),
        final(senders).ids@ == reached(old(senders).ids@, sent@),
        final(senders).next == old(senders).next,
{
    let n: usize = senders.ids.len();
    let mut kept: Vec<u64> = Vec::new();
    let mut i: usize = 0;
    while i < n
        invariant
            i <= n,
            n == old(senders).ids@.len(),
            n == senders.ids@.len(),
            *senders == *old(senders),
            sent@.len() >= n,
            sent.len() == sent@.len(),
            kept@ == reached(old(senders).ids@.take(i as int), sent@),
        decreases n - i,
    {
        proof {
            let done = old(senders).ids@.take(i + 1);
            assert(done.drop_last() == old(senders).ids@.take(i as int));
            assert(done.last() == old(senders).ids@[i as int]);
        }
        if sent[i] {
            kept.push(senders.ids[i]);
        }
        i += 1;
    }
    proof {
        assert(old(senders).ids@.take(n as int) == old(senders).ids@);
        lemma_reached(old(senders).ids@, sent@);
        assert forall|k: int| 0 <= k < kept@.len() implies (#[trigger] kept@[k]) < senders.next by {
            assert(old(senders).ids@.contains(kept@[k]));
        }
    }
    senders.ids = kept;
}

} // verus!

//! Which messages are kept, and who gets them.

use crate::logger::{is_startup_diag, logs_on, reached, says_no, says_yes};
use crate::text::{ascii_lower_of, contains_text, occurs_at};
use crate::text_laws::{blank, law_trim, tight};
use vstd::prelude::*;

verus! {

/// `1`, `true`, `yes` and `on` are a yes and `0`, `false`, `no` and `off` a no, in
/// capitals or small letters and with white space around them; nothing else is either.
pub proof fn law_yes_and_no(a: Seq<char>, word: Seq<char>, b: Seq<char>)
    requires
        blank(a) && blank(b),
        tight(word),
    ensures
        ({
            let w = ascii_lower_of(word);
            &&& says_yes(a + word + b) <==> w == "1"@ || w == "true"@ || w == "yes"@ || w == "on"@
            &&& says_no(a + word + b) <==> w == "0"@ || w == "false"@ || w == "no"@ || w == "off"@
            &&& !(says_yes(a + word + b) && says_no(a + word + b))
        }),
{
    law_trim(a, word, b);
    reveal_strlit("1");
    reveal_strlit("true");
    reveal_strlit("yes");
    reveal_strlit("on");
    reveal_strlit("0");
    reveal_strlit("false");
    reveal_strlit("no");
    reveal_strlit("off");
    assert("1"@[0] == '1' && "true"@[0] == 't' && "yes"@[0] == 'y' && "on"@[0] == 'o' && "on"@.len()
        == 2);
    assert("0"@[0] == '0' && "false"@[0] == 'f' && "no"@[0] == 'n' && "off"@[0] == 'o'
        && "off"@.len() == 3);
}

/// Logs are written unless a no stands in the environment and the player did not ask for
/// them.
pub proof fn law_logs_are_on(v: Seq<char>)
    ensures
        logs_on(true, Some(v)),
        logs_on(true, None),
        logs_on(false, None),
        logs_on(false, Some(v)) <==> !says_no(v),
{
}

proof fn lemma_within(a: Seq<char>, tag: Seq<char>, b: Seq<char>)
    ensures
        contains_text(a + tag + b, tag),
{
    let m = a + tag + b;
    assert(m.subrange(a.len() as int, a.len() as int + tag.len()) =~= tag);
    assert(occurs_at(m, tag, a.len() as int));
}

/// A message of the start is one with a tag of the start anywhere in it.
pub proof fn law_startup_messages(a: Seq<char>, tag: Seq<char>, b: Seq<char>)
    requires
        tag == "[launch-time]"@ || tag == "[patch-time]"@ || tag == "[addr-probe]"@ || tag
            == "[addr-ready]"@ || tag == "[inject-load]"@ || tag == "[inject]"@ || tag
            == "[ime-inject]"@ || tag == "[ime-overlay]"@ || tag == "[StartupHook]"@ || tag
            == "[stage2]"@ || tag == "[ConnectHook]"@ || tag == "[ImgLimit]"@ || tag
            == "[NetProxy]"@ || tag == "[PacketEncrypt]"@ || tag == "[PacketProxy]"@ || tag
            == "[spy]"@ || tag == "[FileHookWorker]"@ || tag == "[FileHook] ready wait"@ || tag
            == "[FileHook] alloc remote buffer"@ || tag == "[FileHook] write remote buffer"@,
    ensures
        is_startup_diag(a + tag + b),
{
    lemma_within(a, tag, b);
}

proof fn lemma_no_bracket(m: Seq<char>, tag: Seq<char>)
    requires
        !m.contains('['),
        tag.len() > 0,
        tag[0] == '[',
    ensures
        !contains_text(m, tag),
{
    if contains_text(m, tag) {
        let i = choose|i: int| occurs_at(m, tag, i);
        assert(m.subrange(i, i + tag.len())[0] == m[i]);
        assert(m.contains(m[i]));
    }
}

/// A message without a tag is none of the start.
pub proof fn law_other_messages(m: Seq<char>)
    requires
        !m.contains('['),
    ensures
        !is_startup_diag(m),
{
    reveal_strlit("[launch-time]");
    reveal_strlit("[patch-time]");
    reveal_strlit("[addr-probe]");
    reveal_strlit("[addr-ready]");
    reveal_strlit("[inject-load]");
    reveal_strlit("[inject]");
    reveal_strlit("[ime-inject]");
    reveal_strlit("[ime-overlay]");
    reveal_strlit("[StartupHook]");
    reveal_strlit("[stage2]");
    reveal_strlit("[ConnectHook]");
    reveal_strlit("[ImgLimit]");
    reveal_strlit("[NetProxy]");
    reveal_strlit("[PacketEncrypt]");
    reveal_strlit("[PacketProxy]");
    reveal_strlit("[spy]");
    reveal_strlit("[FileHookWorker]");
    reveal_strlit("[FileHook] ready wait");
    reveal_strlit("[FileHook] alloc remote buffer");
    reveal_strlit("[FileHook] write remote buffer");
    lemma_no_bracket(m, "[launch-time]"@);
    lemma_no_bracket(m, "[patch-time]"@);
    lemma_no_bracket(m, "[addr-probe]"@);
    lemma_no_bracket(m, "[addr-ready]"@);
    lemma_no_bracket(m, "[inject-load]"@);
    lemma_no_bracket(m, "[inject]"@);
    lemma_no_bracket(m, "[ime-inject]"@);
    lemma_no_bracket(m, "[ime-overlay]"@);
    lemma_no_bracket(m, "[StartupHook]"@);
    lemma_no_bracket(m, "[stage2]"@);
    lemma_no_bracket(m, "[ConnectHook]"@);
    lemma_no_bracket(m, "[ImgLimit]"@);
    lemma_no_bracket(m, "[NetProxy]"@);
    lemma_no_bracket(m, "[PacketEncrypt]"@);
    lemma_no_bracket(m, "[PacketProxy]"@);
    lemma_no_bracket(m, "[spy]"@);
    lemma_no_bracket(m, "[FileHookWorker]"@);
    lemma_no_bracket(m, "[FileHook] ready wait"@);
    lemma_no_bracket(m, "[FileHook] alloc remote buffer"@);
    lemma_no_bracket(m, "[FileHook] write remote buffer"@);
}

/// Those that a message reached stay subscribed, in their order, and the others do not.
pub proof fn law_reached_subscribers(ids: Seq<u64>, sent: Seq<bool>)
    requires
        sent.len() >= ids.len(),
    ensures
        reached(ids, sent).len() <= ids.len(),
        forall|i: int|
            0 <= i < ids.len() && sent[i] ==> reached(ids, sent).contains(#[trigger] ids[i]),
        forall|x: u64| #[trigger]
            reached(ids, sent).contains(x) ==> exists|i: int|
                0 <= i < ids.len() && #[trigger] ids[i] == x && sent[i],
        (forall|i: int| 0 <= i < ids.len() ==> #[trigger] sent[i]) ==> reached(ids, sent) == ids,
    decreases ids.len(),
{
    if ids.len() > 0 {
        let rest = ids.drop_last();
        law_reached_subscribers(rest, sent);
        let r = reached(rest, sent);
        let all = reached(ids, sent);
        assert forall|i: int| 0 <= i < ids.len() && sent[i] implies all.contains(
            #[trigger] ids[i],
        ) by {
            if i < rest.len() {
                assert(r.contains(rest[i]));
                let k = choose|k: int| 0 <= k < r.len() && r[k] == rest[i];
                assert(all[k] == ids[i]);
            } else {
                assert(all[all.len() - 1] == ids[i]);
            }
        }
        assert forall|x: u64| #[trigger] all.contains(x) implies exists|i: int|
            0 <= i < ids.len() && #[trigger] ids[i] == x && sent[i] by {
            let k = choose|k: int| 0 <= k < all.len() && all[k] == x;
            if k < r.len() {
                assert(r[k] == x);
                assert(r.contains(x));
                let i = choose|i: int|
                    0 <= i < rest.len() && #[trigger] rest[i] == x && sent[i];
                assert(ids[i] == x);
            } else {
                assert(ids[ids.len() - 1] == x);
            }
        }
        if forall|i: int| 0 <= i < ids.len() ==> #[trigger] sent[i] {
            assert(sent[ids.len() - 1]);
            assert(r == rest);
            assert(all =~= ids);
        }
    }
}

} // verus!

//! Changes to the client's code once it is unpacked.

use vstd::prelude::*;
use crate::code::{emit32, offset_by};
#[allow(unused_imports)]
use crate::code::{le32, offset};
use crate::inject::hex8_chars;
#[allow(unused_imports)]
use crate::inject::hex8;
use crate::memory::{push_write, Write};
#[allow(unused_imports)]
use crate::memory::{write_at, writes_of, WriteModel};
use crate::server_list::config::{
    MAX_IMG_LIMIT_VALUE, MAX_INVENTORY_LIMIT_VALUE, MIN_IMG_LIMIT_VALUE, MIN_INVENTORY_LIMIT_VALUE,
};
#[allow(unused_imports)]
use crate::server_list::config::clamped;
use crate::text::{hex_chars, push_all, push_str, string_of};
#[allow(unused_imports)]
use crate::text::hex_of;

verus! {

/// Where the client's code shows whether it is unpacked.
pub const DECRYPT_ADDR: u32 = 0x004E204E;

/// What stands there once it is.
pub const DECRYPT_EXPECTED: u32 = 0x0097850F;

/// What is written there.
pub const CONDITIONAL_PATCH_VAL: u32 = 0x0097E990;

pub const PATCHCODE1_ADDR: u32 = 0x00722761;

pub const PATCHCODE1_VAL: u32 = 0x859001B0;

pub const FILE_HOOK_ADDR: u32 = 0x0058788B;

pub const FILE_HOOK_EXPECTED_NEW: u32 = 0x4D8D016A;

pub const FILE_HOOK_EXPECTED_OLD: u32 = 0x85C0B60F;

pub const PATHCODE_PATCH_ADDR: u32 = 0x00772BA0;

pub const USER_HOOK_ADDR: u32 = 0x0077317D;

/// Where the client's code begins.
pub const TEXT_SCAN_START: u32 = 0x00401000;

/// Where the client's code ends.
pub const TEXT_SCAN_END: u32 = 0x00830000;

/// Where the search for the limits of pictures ends.
pub const IMG_SCAN_END: u32 = 0x00800000;

/// Where the client's texts begin.
pub const DATA_SCAN_START: u32 = 0x00800000;

/// Where the client's texts end.
pub const DATA_SCAN_END: u32 = 0x00A00000;

pub const DECRYPT_WAIT_TIMEOUT_MS: u64 = 120000;

pub const DECRYPT_POLL_INTERVAL_MS: u64 = 50;

pub const QUICK_DECRYPT_WAIT_TIMEOUT_MS: u64 = 2000;

/// How often the client is looked at before waiting is given up.
pub const DECRYPT_POLLS: u64 = 2400;

/// How often a module is looked for.
pub const MODULE_POLLS: u32 = 100;

/// What the client's code shows.
#[derive(Debug, Clone, Copy, PartialEq, Eq, Structural)]
pub enum DecryptMarkerState {
    Ready,
    AlreadyPatched,
    NotReady(u32),
}

/// How waiting for the client ended.
#[derive(Debug, Clone, Copy, PartialEq, Eq, Structural)]
pub enum WaitAndPatchOutcome {
    Patched,
    NotReady { last_value: u32 },
}

/// What the client's code shows.
pub open spec fn marker_of(value: u32) -> DecryptMarkerState {
    if value == DECRYPT_EXPECTED {
        DecryptMarkerState::Ready
    } else if value == CONDITIONAL_PATCH_VAL {
        DecryptMarkerState::AlreadyPatched
    } else {
        DecryptMarkerState::NotReady(value)
    }
}

/// What the client's code shows.
pub fn classify_decrypt_marker_value(value: u32) -> (r: DecryptMarkerState)
    ensures
        r == marker_of(value),
{
    if value == DECRYPT_EXPECTED {
        DecryptMarkerState::Ready
    } else if value == CONDITIONAL_PATCH_VAL {
        DecryptMarkerState::AlreadyPatched
    } else {
        DecryptMarkerState::NotReady(value)
    }
}

/// What a wait does next.
#[derive(Debug, Clone, Copy, PartialEq, Eq, Structural)]
pub enum WaitStep {
    /// Change the code; the first change may be there.
    Patch { already: bool },
    /// Wait so many milliseconds and look again.
    Sleep(u64),
    /// Give up; that was seen last.
    TimedOut(u32),
}

/// What was seen last, after one more look.
pub open spec fn last_seen(last: u32, value: Option<u32>) -> u32 {
    match value {
        Some(v) => v,
        None => last,
    }
}

/// What a look shows, where it ends a wait.
pub open spec fn ends_wait(value: Option<u32>) -> Option<WaitStep> {
    match value {
        Some(v) => match marker_of(v) {
            DecryptMarkerState::Ready => Some(WaitStep::Patch { already: false }),
            DecryptMarkerState::AlreadyPatched => Some(WaitStep::Patch { already: true }),
            DecryptMarkerState::NotReady(_) => None,
        },
        None => None,
    }
}

fn end_of_wait(value: Option<u32>) -> (r: Option<WaitStep>)
    ensures
        r == ends_wait(value),
{
    match value {
        Some(v) => match classify_decrypt_marker_value(v) {
            DecryptMarkerState::Ready => Some(WaitStep::Patch { already: false }),
            DecryptMarkerState::AlreadyPatched => Some(WaitStep::Patch { already: true }),
            DecryptMarkerState::NotReady(_) => None,
        },
        None => None,
    }
}

/// What a wait of a given length does after a look, which shows nothing where the
/// client cannot be read.
pub fn quick_wait_step(
    last: &mut u32,
    value: Option<u32>,
    elapsed_ms: u64,
    timeout_ms: u64,
) -> (r: WaitStep)
    ensures
        *final(last) == last_seen(*old(last), value),
        r == (match ends_wait(value) {
            Some(s) => s,
            None => if elapsed_ms >= timeout_ms {
                WaitStep::TimedOut(*final(last))
            } else if timeout_ms - elapsed_ms < DECRYPT_POLL_INTERVAL_MS {
                WaitStep::Sleep((timeout_ms - elapsed_ms) as u64)
            } else {
                WaitStep::Sleep(DECRYPT_POLL_INTERVAL_MS)
            },
        }),
{
    match value {
        Some(v) => {
            *last = v;
        },
        None => {},
    }
    match end_of_wait(value) {
        Some(s) => s,
        None => if elapsed_ms >= timeout_ms {
            WaitStep::TimedOut(*last)
        } else if timeout_ms - elapsed_ms < DECRYPT_POLL_INTERVAL_MS {
            WaitStep::Sleep(timeout_ms - elapsed_ms)
        } else {
            WaitStep::Sleep(DECRYPT_POLL_INTERVAL_MS)
        },
    }
}

/// What the long wait does after it has looked `polls` times.
pub fn wait_step(last: &mut u32, value: Option<u32>, polls: u64) -> (r: WaitStep)
    ensures
        *final(last) == last_seen(*old(last), value),
        r == (match ends_wait(value) {
            Some(s) => s,
            None => if polls >= DECRYPT_POLLS {
                WaitStep::TimedOut(*final(last))
            } else {
                WaitStep::Sleep(DECRYPT_POLL_INTERVAL_MS)
            },
        }),
{
    match value {
        Some(v) => {
            *last = v;
        },
        None => {},
    }
    match end_of_wait(value) {
        Some(s) => s,
        None => if polls >= DECRYPT_POLLS {
            WaitStep::TimedOut(*last)
        } else {
            WaitStep::Sleep(DECRYPT_POLL_INTERVAL_MS)
        },
    }
}

/// How a wait ended that changed the code or gave up; it has not ended while it
/// sleeps.
pub fn wait_outcome(step: WaitStep) -> (r: Option<WaitAndPatchOutcome>)
    ensures
        r == (match step {
            WaitStep::Patch { already } => Some(WaitAndPatchOutcome::Patched),
            WaitStep::Sleep(_) => None,
            WaitStep::TimedOut(v) => Some(WaitAndPatchOutcome::NotReady { last_value: v }),
        }),
{
    match step {
        WaitStep::Patch { already: _ } => Some(WaitAndPatchOutcome::Patched),
        WaitStep::Sleep(_) => None,
        WaitStep::TimedOut(v) => Some(WaitAndPatchOutcome::NotReady { last_value: v }),
    }
}

/// Why the code was not changed.
#[derive(Debug, Clone, Copy, PartialEq, Eq, Structural)]
pub enum PatchError {
    /// The client was never unpacked.
    TimedOut,
    /// Those stand at the two places after a quick wait.
    QuickVerify(u32, u32),
    /// Those stand at the two places after the long wait.
    Verify(u32, u32),
    /// The code of that change was not found.
    NotFound(usize),
    /// The byte of that change, at that address, is neither.
    Mismatch(usize, u32, u8),
}

/// The name of a change of the movement packets.
pub open spec fn move_name(i: usize) -> Seq<char> {
    if i == 0 {
        "move state obfuscation"@
    } else {
        "move packet encryption"@
    }
}

impl PatchError {
    /// The error in words.
    pub fn to_string(&self) -> (r: String)
        ensures
            r@ == (match *self {
                PatchError::TimedOut => "等待解密逾時（120s）"@,
                PatchError::QuickVerify(a, b) => "time patch verify failed: 0x004E204E=0x"@ + hex8(
                    a,
                ) + "(expected 0x0097E990), 0x00722761=0x"@ + hex8(b) + "(expected 0x859001B0)"@,
                PatchError::Verify(a, b) => "修補驗證失敗: 0x004E204E=0x"@ + hex8(a)
                    + "(預期 0x0097E990), 0x00722761=0x"@ + hex8(b) + "(預期 0x859001B0)"@,
                PatchError::NotFound(i) => "move packet no-encrypt pattern not found: "@
                    + move_name(i),
                PatchError::Mismatch(i, a, b) => "move packet no-encrypt target mismatch: "@
                    + move_name(i) + " @ 0x"@ + hex8(a) + ", current=0x"@ + hex_of(seq![b], true)
                    + ", expected=0x"@ + (if i == 0 {
                    "74"@
                } else {
                    "75"@
                }),
            }),
    {
        let mut out: Vec<char> = Vec::new();
        match *self {
            PatchError::TimedOut => {
                push_str(&mut out, "等待解密逾時（120s）");
            },
            PatchError::QuickVerify(a, b) => {
                push_str(&mut out, "time patch verify failed: 0x004E204E=0x");
                push_all(&mut out, hex8_chars(a).as_slice());
                push_str(&mut out, "(expected 0x0097E990), 0x00722761=0x");
                push_all(&mut out, hex8_chars(b).as_slice());
                push_str(&mut out, "(expected 0x859001B0)");
            },
            PatchError::Verify(a, b) => {
                push_str(&mut out, "修補驗證失敗: 0x004E204E=0x");
                push_all(&mut out, hex8_chars(a).as_slice());
                push_str(&mut out, "(預期 0x0097E990), 0x00722761=0x");
                push_all(&mut out, hex8_chars(b).as_slice());
                push_str(&mut out, "(預期 0x859001B0)");
            },
            PatchError::NotFound(i) => {
                push_str(&mut out, "move packet no-encrypt pattern not found: ");
                push_str(&mut out, name_of_move(i));
            },
            PatchError::Mismatch(i, a, b) => {
                push_str(&mut out, "move packet no-encrypt target mismatch: ");
                push_str(&mut out, name_of_move(i));
                push_str(&mut out, " @ 0x");
                push_all(&mut out, hex8_chars(a).as_slice());
                push_str(&mut out, ", current=0x");
                let one = [b];
                assert(one@ == seq![b]);
                push_all(&mut out, hex_chars(&one, true).as_slice());
                push_str(&mut out, ", expected=0x");
                push_str(
                    &mut out,
                    if i == 0 {
                        "74"
                    } else {
                        "75"
                    },
                );
            },
        }
        string_of(out.as_slice())
    }
}

fn name_of_move(i: usize) -> (r: &'static str)
    ensures
        r@ == move_name(i),
{
    if i == 0 {
        "move state obfuscation"
    } else {
        "move packet encryption"
    }
}

fn bytes_of(v: u32) -> (r: Vec<u8>)
    ensures
        r@ == le32(v),
{
    let mut out: Vec<u8> = Vec::new();
    emit32(&mut out, v);
    assert(out@ == le32(v));
    out
}

/// What is written once the client is unpacked: the first change, unless it is
/// there, and the second.
pub fn plan_time_guard(already_patched: bool) -> (r: Vec<Write>)
    ensures
        writes_of(r@) == (if already_patched {
            seq![write_at(PATCHCODE1_ADDR, le32(PATCHCODE1_VAL))]
        } else {
            seq![
                write_at(DECRYPT_ADDR, le32(CONDITIONAL_PATCH_VAL)),
                write_at(PATCHCODE1_ADDR, le32(PATCHCODE1_VAL)),
            ]
        }),
{
    let mut out: Vec<Write> = Vec::new();
    if !already_patched {
        push_write(&mut out, DECRYPT_ADDR, bytes_of(CONDITIONAL_PATCH_VAL));
    }
    push_write(&mut out, PATCHCODE1_ADDR, bytes_of(PATCHCODE1_VAL));
    out
}

/// Whether both changes are there, from what stands at their places.
pub fn verify_time_guard(v1: u32, v2: u32, quick: bool) -> (r: Result<(), PatchError>)
    ensures
        r == (if v1 == CONDITIONAL_PATCH_VAL && v2 == PATCHCODE1_VAL {
            Ok::<(), PatchError>(())
        } else if quick {
            Err::<(), PatchError>(PatchError::QuickVerify(v1, v2))
        } else {
            Err::<(), PatchError>(PatchError::Verify(v1, v2))
        }),
{
    if v1 == CONDITIONAL_PATCH_VAL && v2 == PATCHCODE1_VAL {
        Ok(())
    } else if quick {
        Err(PatchError::QuickVerify(v1, v2))
    } else {
        Err(PatchError::Verify(v1, v2))
    }
}

/// Once both changes were written the client counts as changed, and looking again
/// changes the second place alone.
pub proof fn law_patched_stays_patched()
    ensures
        marker_of(CONDITIONAL_PATCH_VAL) == DecryptMarkerState::AlreadyPatched,
        marker_of(DECRYPT_EXPECTED) == DecryptMarkerState::Ready,
        ends_wait(Some(CONDITIONAL_PATCH_VAL)) == Some(WaitStep::Patch { already: true }),
{
}

/// The comparison of the client's check sum with the one it keeps.
pub open spec fn crc_check_aob() -> Seq<Option<u8>> {
    seq![
        Some(0x89u8), Some(0x45), Some(0xFC), Some(0x8B), Some(0x45), Some(0xFC), Some(0x3B),
        Some(0x05), None, None, None, None, Some(0x74), Some(0x3C), Some(0x83), Some(0x3D), None,
        None, None, None, Some(0x03), Some(0x75), Some(0x33),
    ]
}

/// The comparison of the client's check sum with the one it keeps.
pub fn crc_check_pattern() -> (r: Vec<Option<u8>>)
    ensures
        r@ == crc_check_aob(),
{
    let r: Vec<Option<u8>> = vec![
        Some(0x89), Some(0x45), Some(0xFC), Some(0x8B), Some(0x45), Some(0xFC), Some(0x3B),
        Some(0x05), None, None, None, None, Some(0x74), Some(0x3C), Some(0x83), Some(0x3D), None,
        None, None, None, Some(0x03), Some(0x75), Some(0x33),
    ];
    assert(r@ == crc_check_aob());
    r
}

/// The comparison of the client's hash with a fixed one.
pub open spec fn hash_check_aob() -> Seq<Option<u8>> {
    seq![
        Some(0x83u8), Some(0xC4), Some(0x08), Some(0x3D), Some(0x67), Some(0x59), Some(0x00),
        Some(0x00), Some(0x74), Some(0x2A),
    ]
}

/// The comparison of the client's hash with a fixed one.
pub fn hash_check_pattern() -> (r: Vec<Option<u8>>)
    ensures
        r@ == hash_check_aob(),
{
    let r: Vec<Option<u8>> = vec![
        Some(0x83), Some(0xC4), Some(0x08), Some(0x3D), Some(0x67), Some(0x59), Some(0x00),
        Some(0x00), Some(0x74), Some(0x2A),
    ];
    assert(r@ == hash_check_aob());
    r
}

/// What is written so that both comparisons always hold, as far as they were
/// found: a jump in place of each conditional one.
pub fn plan_ac_check(crc: Option<u32>, hash: Option<u32>) -> (r: Vec<Write>)
    ensures
        writes_of(r@) == (match crc {
            Some(a) => seq![write_at(offset(a, 12), seq![0xEBu8])],
            None => seq![],
        }) + (match hash {
            Some(a) => seq![write_at(offset(a, 8), seq![0xEBu8])],
            None => seq![],
        }),
{
    let mut out: Vec<Write> = Vec::new();
    match crc {
        Some(a) => {
            let jump: Vec<u8> = vec![0xEBu8];
            assert(jump@ == seq![0xEBu8]);
            push_write(&mut out, offset_by(a, 12), jump);
        },
        None => {},
    }
    match hash {
        Some(a) => {
            let jump: Vec<u8> = vec![0xEBu8];
            assert(jump@ == seq![0xEBu8]);
            push_write(&mut out, offset_by(a, 8), jump);
        },
        None => {},
    }
    out
}

/// What a wait for a module does next.
#[derive(Debug, Clone, Copy, PartialEq, Eq, Structural)]
pub enum ModuleStep {
    /// The module begins at that address.
    Found(u32),
    /// Wait and look again.
    Wait,
    /// Go on without the module.
    Skip,
}

/// What a wait for a module does after it has looked `polls` times.
pub fn module_step(found: Option<u32>, polls: u32) -> (r: ModuleStep)
    ensures
        r == (match found {
            Some(a) => ModuleStep::Found(a),
            None => if polls < MODULE_POLLS {
                ModuleStep::Wait
            } else {
                ModuleStep::Skip
            },
        }),
{
    match found {
        Some(a) => ModuleStep::Found(a),
        None => if polls < MODULE_POLLS {
            ModuleStep::Wait
        } else {
            ModuleStep::Skip
        },
    }
}

/// What is written so that a wrong argument no longer ends the client: a return at
/// the beginning of the function, unless one is there.
pub fn plan_watson(watson_addr: u32, orig: &[u8]) -> (r: Option<Write>)
    requires
        orig@.len() > 0,
    ensures
        match r {
            Some(w) => orig@[0] != 0xC3 && w@ == write_at(watson_addr, seq![0xC3u8]),
            None => orig@[0] == 0xC3,
        },
{
    if orig[0] == 0xC3 {
        None
    } else {
        let bytes: Vec<u8> = vec![0xC3u8];
        assert(bytes@ == seq![0xC3u8]);
        Some(Write { addr: watson_addr, bytes })
    }
}

/// The reservation of a range of 7000 pictures.
pub open spec fn img_range_aob() -> Seq<Option<u8>> {
    seq![
        Some(0x6Au8), Some(0x00), Some(0x68), None, None, None, None, Some(0x68), Some(0x58),
        Some(0x1B), Some(0x00), Some(0x00), Some(0xE8),
    ]
}

/// The reservation of a range of 7000 pictures.
pub fn img_range_pattern() -> (r: Vec<Option<u8>>)
    ensures
        r@ == img_range_aob(),
{
    let r: Vec<Option<u8>> = vec![
        Some(0x6A), Some(0x00), Some(0x68), None, None, None, None, Some(0x68), Some(0x58),
        Some(0x1B), Some(0x00), Some(0x00), Some(0xE8),
    ];
    assert(r@ == img_range_aob());
    r
}

/// The number 6295.
pub open spec fn img_bound_aob() -> Seq<Option<u8>> {
    seq![
        Some(0x97u8), Some(0x18), Some(0x00), Some(0x00),
    ]
}

/// The number 6295.
pub fn img_bound_pattern() -> (r: Vec<Option<u8>>)
    ensures
        r@ == img_bound_aob(),
{
    let r: Vec<Option<u8>> = vec![
        Some(0x97), Some(0x18), Some(0x00), Some(0x00),
    ];
    assert(r@ == img_bound_aob());
    r
}

/// The reservation of a table of 6295 pictures.
pub open spec fn img_alloc_aob() -> Seq<Option<u8>> {
    seq![
        Some(0x68u8), Some(0x5C), Some(0x62), Some(0x00), Some(0x00),
    ]
}

/// The reservation of a table of 6295 pictures.
pub fn img_alloc_pattern() -> (r: Vec<Option<u8>>)
    ensures
        r@ == img_alloc_aob(),
{
    let r: Vec<Option<u8>> = vec![
        Some(0x68), Some(0x5C), Some(0x62), Some(0x00), Some(0x00),
    ];
    assert(r@ == img_alloc_aob());
    r
}

/// A limit of pictures that the client can have.
pub open spec fn img_limit(limit: u32) -> u32 {
    clamped(limit as int, MIN_IMG_LIMIT_VALUE, MAX_IMG_LIMIT_VALUE)
}

/// A limit of pictures that the client can have.
pub fn clamp_img_limit(limit: u32) -> (r: u32)
    ensures
        r == img_limit(limit),
        MIN_IMG_LIMIT_VALUE <= r <= MAX_IMG_LIMIT_VALUE,
{
    if limit < MIN_IMG_LIMIT_VALUE {
        MIN_IMG_LIMIT_VALUE
    } else if limit > MAX_IMG_LIMIT_VALUE {
        MAX_IMG_LIMIT_VALUE
    } else {
        limit
    }
}

/// The same bytes written a fixed distance behind each of some places.
pub open spec fn same_writes(hits: Seq<u32>, distance: int, bytes: Seq<u8>) -> Seq<WriteModel> {
    hits.map_values(|a: u32| write_at(offset(a, distance), bytes))
}

fn write_each(hits: &[u32], distance: usize, value: u32) -> (r: Vec<Write>)
    ensures
        writes_of(r@) == same_writes(hits@, distance as int, le32(value)),
{
    let mut out: Vec<Write> = Vec::new();
    let mut i: usize = 0;
    assert(writes_of(out@) == same_writes(hits@.take(0), distance as int, le32(value)));
    while i < hits.len()
        invariant
            i <= hits@.len(),
            hits.len() == hits@.len(),
            writes_of(out@) == same_writes(hits@.take(i as int), distance as int, le32(value)),
        decreases hits@.len() - i,
    {
        push_write(&mut out, offset_by(hits[i], distance), bytes_of(value));
        proof {
            assert(hits@.take(i + 1) == hits@.take(i as int).push(hits@[i as int]));
            assert(writes_of(out@) == same_writes(
                hits@.take(i + 1),
                distance as int,
                le32(value),
            ));
        }
        i += 1;
    }
    assert(hits@.take(i as int) == hits@);
    out
}

/// What is written so that a range of more pictures is reserved.
pub fn plan_img_range(hits: &[u32], new_limit: u32) -> (r: Vec<Write>)
    ensures
        writes_of(r@) == same_writes(hits@, 8, le32(img_limit(new_limit))),
{
    write_each(hits, 8, clamp_img_limit(new_limit))
}

/// The bytes in front of a number show that it is compared with a variable.
pub open spec fn is_comparison(prefix: Seq<u8>) -> bool {
    let n = prefix.len();
    n >= 3 && {
        ||| prefix[n - 3] == 0x81 && (prefix[n - 2] == 0x79 || prefix[n - 2] == 0x7B || prefix[n
            - 2] == 0x7D || prefix[n - 2] == 0x7E || prefix[n - 2] == 0x7F)
        ||| n >= 6 && prefix[n - 6] == 0x81 && prefix[n - 5] == 0xBD
    }
}

/// Where the bytes in front of a number are read.
pub fn prefix_start(hit: u32) -> (r: u32)
    ensures
        r == (if hit < 6 {
            0
        } else {
            hit - 6
        }),
{
    if hit < 6 {
        0
    } else {
        hit - 6
    }
}

/// What is written at a place of the old bound, given the bytes in front of it:
/// the new bound, where the old one is compared with a variable.
pub fn plan_img_bound(hit: u32, prefix: &[u8], new_limit: u32) -> (r: Option<Write>)
    ensures
        match r {
            Some(w) => is_comparison(prefix@) && w@ == write_at(hit, le32(img_limit(new_limit))),
            None => !is_comparison(prefix@),
        },
{
    let n: usize = prefix.len();
    if n < 3 {
        return None;
    }
    let m: u8 = prefix[n - 2];
    let near: bool = prefix[n - 3] == 0x81 && (m == 0x79 || m == 0x7B || m == 0x7D || m == 0x7E
        || m == 0x7F);
    if near || (n >= 6 && prefix[n - 6] == 0x81 && prefix[n - 5] == 0xBD) {
        Some(Write { addr: hit, bytes: bytes_of(clamp_img_limit(new_limit)) })
    } else {
        None
    }
}

/// What is written so that the table of pictures is large enough: four bytes for
/// each.
pub fn plan_img_alloc(hits: &[u32], new_limit: u32) -> (r: Vec<Write>)
    ensures
        writes_of(r@) == same_writes(hits@, 1, le32((4 * img_limit(new_limit)) as u32)),
{
    let limit: u32 = clamp_img_limit(new_limit);
    write_each(hits, 1, limit * 4)
}

/// The reservation of a table of 1564 pictures.
pub open spec fn png_alloc_aob() -> Seq<Option<u8>> {
    seq![
        Some(0x68u8), Some(0x70), Some(0x18), Some(0x00), Some(0x00), Some(0xE8), None, None,
        None, None, Some(0x83), Some(0xC4), Some(0x04),
    ]
}

/// The reservation of a table of 1564 pictures.
pub fn png_alloc_pattern() -> (r: Vec<Option<u8>>)
    ensures
        r@ == png_alloc_aob(),
{
    let r: Vec<Option<u8>> = vec![
        Some(0x68), Some(0x70), Some(0x18), Some(0x00), Some(0x00), Some(0xE8), None, None, None,
        None, Some(0x83), Some(0xC4), Some(0x04),
    ];
    assert(r@ == png_alloc_aob());
    r
}

/// The loop that makes the pictures.
pub open spec fn png_init_aob() -> Seq<Option<u8>> {
    seq![
        Some(0x89u8), Some(0x55), Some(0xF0), Some(0x81), Some(0x7D), Some(0xF0), Some(0x1C),
        Some(0x06), Some(0x00), Some(0x00), Some(0x7D),
    ]
}

/// The loop that makes the pictures.
pub fn png_init_pattern() -> (r: Vec<Option<u8>>)
    ensures
        r@ == png_init_aob(),
{
    let r: Vec<Option<u8>> = vec![
        Some(0x89), Some(0x55), Some(0xF0), Some(0x81), Some(0x7D), Some(0xF0), Some(0x1C),
        Some(0x06), Some(0x00), Some(0x00), Some(0x7D),
    ];
    assert(r@ == png_init_aob());
    r
}

/// The loop that frees the pictures.
pub open spec fn png_cleanup_aob() -> Seq<Option<u8>> {
    seq![
        Some(0x89u8), Some(0x4D), Some(0xFC), Some(0x81), Some(0x7D), Some(0xFC), Some(0x1C),
        Some(0x06), Some(0x00), Some(0x00), Some(0x7D),
    ]
}

/// The loop that frees the pictures.
pub fn png_cleanup_pattern() -> (r: Vec<Option<u8>>)
    ensures
        r@ == png_cleanup_aob(),
{
    let r: Vec<Option<u8>> = vec![
        Some(0x89), Some(0x4D), Some(0xFC), Some(0x81), Some(0x7D), Some(0xFC), Some(0x1C),
        Some(0x06), Some(0x00), Some(0x00), Some(0x7D),
    ];
    assert(r@ == png_cleanup_aob());
    r
}

/// Four times a number, or the largest number.
pub open spec fn four_times(n: u32) -> u32 {
    if 4 * n <= u32::MAX {
        (4 * n) as u32
    } else {
        u32::MAX
    }
}

/// What is written so that the client has more pictures, as far as the places
/// were found: the size of the table, and the bounds of both loops.
pub fn plan_png_limit(
    alloc: Option<u32>,
    init: Option<u32>,
    cleanup: Option<u32>,
    new_limit: u32,
) -> (r: Vec<Write>)
    ensures
        writes_of(r@) == (match alloc {
            Some(a) => seq![write_at(offset(a, 1), le32(four_times(new_limit)))],
            None => seq![],
        }) + (match init {
            Some(a) => seq![write_at(offset(a, 6), le32(new_limit))],
            None => seq![],
        }) + (match cleanup {
            Some(a) => seq![write_at(offset(a, 6), le32(new_limit))],
            None => seq![],
        }),
{
    let mut out: Vec<Write> = Vec::new();
    match alloc {
        Some(a) => {
            let size: u32 = match new_limit.checked_mul(4) {
                Some(n) => n,
                None => u32::MAX,
            };
            push_write(&mut out, offset_by(a, 1), bytes_of(size));
        },
        None => {},
    }
    match init {
        Some(a) => {
            push_write(&mut out, offset_by(a, 6), bytes_of(new_limit));
        },
        None => {},
    }
    match cleanup {
        Some(a) => {
            push_write(&mut out, offset_by(a, 6), bytes_of(new_limit));
        },
        None => {},
    }
    out
}

/// The text `%d / 180`.
pub open spec fn inventory_aob() -> Seq<Option<u8>> {
    seq![
        Some(0x25u8), Some(0x64), Some(0x20), Some(0x2F), Some(0x20), Some(0x31), Some(0x38),
        Some(0x30), Some(0x00),
    ]
}

/// The text `%d / 180`.
pub fn inventory_pattern() -> (r: Vec<Option<u8>>)
    ensures
        r@ == inventory_aob(),
{
    let r: Vec<Option<u8>> = vec![
        Some(0x25), Some(0x64), Some(0x20), Some(0x2F), Some(0x20), Some(0x31), Some(0x38),
        Some(0x30), Some(0x00),
    ];
    assert(r@ == inventory_aob());
    r
}

/// A limit of the inventory in three bytes: its digits, and zeros behind them.
pub open spec fn limit_digits(n: u32) -> Seq<u8> {
    if n < 10 {
        seq![(48 + n) as u8, 0, 0]
    } else if n < 100 {
        seq![(48 + n / 10) as u8, (48 + n % 10) as u8, 0]
    } else {
        seq![(48 + n / 100) as u8, (48 + n / 10 % 10) as u8, (48 + n % 10) as u8]
    }
}

/// What is written so that the inventory shows another limit.
pub fn plan_inventory_limit(addr: u32, new_limit: u32) -> (r: Write)
    ensures
        r@ == write_at(
            offset(addr, 5),
            limit_digits(
                clamped(new_limit as int, MIN_INVENTORY_LIMIT_VALUE, MAX_INVENTORY_LIMIT_VALUE),
            ),
        ),
{
    let n: u32 = if new_limit < MIN_INVENTORY_LIMIT_VALUE {
        MIN_INVENTORY_LIMIT_VALUE
    } else if new_limit > MAX_INVENTORY_LIMIT_VALUE {
        MAX_INVENTORY_LIMIT_VALUE
    } else {
        new_limit
    };
    let bytes: Vec<u8> = if n < 10 {
        vec![(48 + n) as u8, 0u8, 0u8]
    } else if n < 100 {
        vec![(48 + n / 10) as u8, (48 + n % 10) as u8, 0u8]
    } else {
        vec![(48 + n / 100) as u8, (48 + n / 10 % 10) as u8, (48 + n % 10) as u8]
    };
    assert(bytes@ == limit_digits(n));
    Write { addr: offset_by(addr, 5), bytes }
}

/// A change of one byte of the client's code.
#[derive(Debug, Clone)]
pub struct BytePatchSpec {
    pub name: &'static str,
    pub pattern: Vec<u8>,
    pub patch_offset: u32,
    pub original: u8,
    pub patched: u8,
}

/// The code of a change of the movement packets.
pub open spec fn move_pattern(i: int) -> Seq<u8> {
    if i == 0 {
        seq![
            0x0Fu8, 0xBE, 0x42, 0x14, 0x83, 0xF8, 0x08, 0x74, 0x21, 0x8B, 0x0D, 0xB8, 0xD2, 0xC2,
            0x00,
        ]
    } else {
        seq![
            0x0Fu8, 0xBE, 0x15, 0xE1, 0xAE, 0x9A, 0x00, 0x83, 0xFA, 0x03, 0x75, 0x22, 0xA1, 0xB8,
            0xD2, 0xC2, 0x00, 0x0F, 0xBE, 0x48, 0x15, 0x83, 0xF1, 0x49,
        ]
    }
}

/// The two changes that keep movement packets as they are.
pub fn move_packet_no_encrypt_patch_specs() -> (r: Vec<BytePatchSpec>)
    ensures
        r@.len() == 2,
        r@[0].name@ == "move state obfuscation"@,
        r@[0].pattern@ == move_pattern(0),
        r@[0].patch_offset == 7,
        r@[0].original == 0x74,
        r@[0].patched == 0xEB,
        r@[1].name@ == "move packet encryption"@,
        r@[1].pattern@ == move_pattern(1),
        r@[1].patch_offset == 10,
        r@[1].original == 0x75,
        r@[1].patched == 0xEB,
        forall|i: int|
            0 <= i < 2 ==> (#[trigger] r@[i]).pattern@[r@[i].patch_offset as int]
                == r@[i].original,
{
    let a: Vec<u8> = vec![
        0x0F, 0xBE, 0x42, 0x14, 0x83, 0xF8, 0x08, 0x74, 0x21, 0x8B, 0x0D, 0xB8, 0xD2, 0xC2, 0x00,
    ];
    let b: Vec<u8> = vec![
        0x0F, 0xBE, 0x15, 0xE1, 0xAE, 0x9A, 0x00, 0x83, 0xFA, 0x03, 0x75, 0x22, 0xA1, 0xB8, 0xD2,
        0xC2, 0x00, 0x0F, 0xBE, 0x48, 0x15, 0x83, 0xF1, 0x49,
    ];
    assert(a@ == move_pattern(0));
    assert(b@ == move_pattern(1));
    let mut out: Vec<BytePatchSpec> = Vec::new();
    out.push(
        BytePatchSpec {
            name: "move state obfuscation",
            pattern: a,
            patch_offset: 7,
            original: 0x74,
            patched: 0xEB,
        },
    );
    out.push(
        BytePatchSpec {
            name: "move packet encryption",
            pattern: b,
            patch_offset: 10,
            original: 0x75,
            patched: 0xEB,
        },
    );
    out
}

/// Where the byte of a change stands, from where its code was found.
pub fn move_patch_addr(spec: &BytePatchSpec, index: usize, found: Option<u32>) -> (r: Result<
    u32,
    PatchError,
>)
    ensures
        r == (match found {
            Some(a) => Ok::<u32, PatchError>(offset(a, spec.patch_offset as int)),
            None => Err::<u32, PatchError>(PatchError::NotFound(index)),
        }),
{
    match found {
        Some(a) => Ok(crate::code::address(a, spec.patch_offset)),
        None => Err(PatchError::NotFound(index)),
    }
}

/// What is written for a change, from the byte that stands at its place: nothing
/// where it is there.
pub fn plan_move_patch(spec: &BytePatchSpec, index: usize, addr: u32, current: u8) -> (r: Result<
    Option<Write>,
    PatchError,
>)
    ensures
        match r {
            Ok(None) => current == spec.patched,
            Ok(Some(w)) => current != spec.patched && current == spec.original && w@ == write_at(
                addr,
                seq![spec.patched],
            ),
            Err(e) => current != spec.patched && current != spec.original && e
                == PatchError::Mismatch(index, addr, current),
        },
{
    if current == spec.patched {
        return Ok(None);
    }
    if current != spec.original {
        return Err(PatchError::Mismatch(index, addr, current));
    }
    let bytes: Vec<u8> = vec![spec.patched];
    assert(bytes@ == seq![spec.patched]);
    Ok(Some(Write { addr, bytes }))
}

/// A place of the client that is watched while it starts.
#[derive(Debug, Clone, Copy)]
pub struct StartupProbe {
    pub name: &'static str,
    pub addr: u32,
    pub expected: Option<u32>,
}

/// What is expected at each place that is watched.
pub open spec fn expectations() -> Seq<Option<u32>> {
    seq![
        Some(DECRYPT_EXPECTED),
        Some(PATCHCODE1_VAL),
        Some(FILE_HOOK_EXPECTED_NEW),
        Some(FILE_HOOK_EXPECTED_OLD),
        None,
        None,
    ]
}

/// The name of each place that is watched.
pub open spec fn probe_names() -> Seq<Seq<char>> {
    seq![
        "decrypt-gate"@,
        "patchcode1"@,
        "filehook-new"@,
        "filehook-old"@,
        "pathcode"@,
        "user-hook"@,
    ]
}

/// The address of each place that is watched.
pub open spec fn probe_addrs() -> Seq<u32> {
    seq![
        DECRYPT_ADDR,
        PATCHCODE1_ADDR,
        FILE_HOOK_ADDR,
        FILE_HOOK_ADDR,
        PATHCODE_PATCH_ADDR,
        USER_HOOK_ADDR,
    ]
}

/// The places that are watched.
pub fn startup_probes() -> (r: Vec<StartupProbe>)
    ensures
        r@.len() == 6,
        forall|i: int|
            0 <= i < 6 ==> (#[trigger] r@[i]).expected == expectations()[i] && r@[i].name@
                == probe_names()[i] && r@[i].addr == probe_addrs()[i],
{
    let mut v: Vec<StartupProbe> = Vec::new();
    v.push(
        StartupProbe {
            name: "decrypt-gate",
            addr: DECRYPT_ADDR,
            expected: Some(DECRYPT_EXPECTED),
        },
    );
    v.push(
        StartupProbe { name: "patchcode1", addr: PATCHCODE1_ADDR, expected: Some(PATCHCODE1_VAL) },
    );
    v.push(
        StartupProbe {
            name: "filehook-new",
            addr: FILE_HOOK_ADDR,
            expected: Some(FILE_HOOK_EXPECTED_NEW),
        },
    );
    v.push(
        StartupProbe {
            name: "filehook-old",
            addr: FILE_HOOK_ADDR,
            expected: Some(FILE_HOOK_EXPECTED_OLD),
        },
    );
    v.push(StartupProbe { name: "pathcode", addr: PATHCODE_PATCH_ADDR, expected: None });
    v.push(StartupProbe { name: "user-hook", addr: USER_HOOK_ADDR, expected: None });
    v
}

/// A second at which all places are reported.
pub open spec fn is_sample_second(s: u64) -> bool {
    s == 0 || s == 1 || s == 2 || s == 5 || s == 10 || s == 20 || s == 30 || s == 45 || s == 60 || s
        == 75 || s == 90
}

/// A watch over the client while it starts.
pub struct ProbeWatch {
    /// At which places the expected value was seen.
    pub matched: Vec<bool>,
    /// The second of the last report.
    pub last_sample: u64,
}

/// The expected value stands at a place.
pub open spec fn is_hit(values: Seq<Option<u32>>, i: int) -> bool {
    expectations()[i] is Some && values[i] == expectations()[i]
}

/// The places at which the expected value is seen for the first time, among the
/// first `k`.
pub open spec fn new_hits(matched: Seq<bool>, values: Seq<Option<u32>>, k: nat) -> Seq<usize>
    decreases k,
{
    if k == 0 {
        seq![]
    } else {
        let rest = new_hits(matched, values, (k - 1) as nat);
        if !matched[k - 1] && is_hit(values, k - 1) {
            rest.push((k - 1) as usize)
        } else {
            rest
        }
    }
}

/// The expected value was seen at each of the first `k` places that has one.
pub open spec fn settled(matched: Seq<bool>, k: nat) -> bool
    decreases k,
{
    k == 0 || (settled(matched, (k - 1) as nat) && (expectations()[k - 1] is None || matched[k
        - 1]))
}

impl ProbeWatch {
    /// A watch that has seen nothing.
    pub fn new() -> (r: ProbeWatch)
        ensures
            r.matched@ == Seq::new(6, |i: int| false),
            r.last_sample == u64::MAX,
    {
        let matched: Vec<bool> = vec![false, false, false, false, false, false];
        assert(matched@ == Seq::new(6, |i: int| false));
        ProbeWatch { matched, last_sample: u64::MAX }
    }

    /// Takes what stands at each place in a second: which places were hit for the
    /// first time, whether all places are reported, and whether the watch is over.
    pub fn step(&mut self, second: u64, values: &[Option<u32>]) -> (r: (Vec<usize>, bool, bool))
        requires
            old(self).matched@.len() == 6,
            values@.len() == 6,
        ensures
            final(self).matched@ == Seq::new(
                6,
                |i: int| old(self).matched@[i] || is_hit(values@, i),
            ),
            r.0@ == new_hits(old(self).matched@, values@, 6),
            r.1 == (second != old(self).last_sample && is_sample_second(second)),
            final(self).last_sample == (if r.1 {
                second
            } else {
                old(self).last_sample
            }),
            r.2 == settled(final(self).matched@, 6),
    {
        let probes = startup_probes();
        let ghost before = self.matched@;
        let mut hits: Vec<usize> = Vec::new();
        let mut i: usize = 0;
        while i < 6
            invariant
                i <= 6,
                before.len() == 6,
                values@.len() == 6,
                values.len() == 6,
                self.matched@.len() == 6,
                self.last_sample == old(self).last_sample,
                probes@.len() == 6,
                forall|k: int| 0 <= k < 6 ==> (#[trigger] probes@[k]).expected == expectations()[k],
                forall|k: int|
                    0 <= k < 6 ==> #[trigger] self.matched@[k] == (before[k] || (k < i && is_hit(
                        values@,
                        k,
                    ))),
                hits@ == new_hits(before, values@, i as nat),
            decreases 6 - i,
        {
            match probes[i].expected {
                Some(e) => {
                    match values[i] {
                        Some(v) => {
                            if !self.matched[i] && v == e {
                                self.matched[i] = true;
                                hits.push(i);
                            }
                        },
                        None => {},
                    }
                },
                None => {},
            }
            i += 1;
        }
        let mut all: bool = true;
        let mut k: usize = 0;
        while k < 6
            invariant
                k <= 6,
                self.matched@.len() == 6,
                probes@.len() == 6,
                forall|j: int| 0 <= j < 6 ==> (#[trigger] probes@[j]).expected == expectations()[j],
                all == settled(self.matched@, k as nat),
            decreases 6 - k,
        {
            all = all && (probes[k].expected.is_none() || self.matched[k]);
            k += 1;
        }
        assert(self.matched@ == Seq::new(6, |k: int| before[k] || is_hit(values@, k)));
        let listed: bool = second == 0 || second == 1 || second == 2 || second == 5 || second == 10
            || second == 20 || second == 30 || second == 45 || second == 60 || second == 75
            || second == 90;
        let sample: bool = second != self.last_sample && listed;
        if sample {
            self.last_sample = second;
        }
        (hits, sample, all)
    }
}

/// What stands at a place, in words.
pub open spec fn sample_part(i: int, value: Option<u32>) -> Seq<char> {
    match value {
        Some(v) => probe_names()[i] + "=0x"@ + hex8(v),
        None => probe_names()[i] + "=<unreadable>"@,
    }
}

/// What stands at the first `k` places, in words.
pub open spec fn sample_parts(values: Seq<Option<u32>>, k: nat) -> Seq<char>
    decreases k,
{
    if k == 0 {
        seq![]
    } else if k == 1 {
        sample_part(0, values[0])
    } else {
        sample_parts(values, (k - 1) as nat) + ", "@ + sample_part(k - 1, values[k - 1])
    }
}

/// What stands at all places, in words.
pub fn sample_text(values: &[Option<u32>]) -> (r: String)
    requires
        values@.len() == 6,
    ensures
        r@ == sample_parts(values@, 6),
{
    let probes = startup_probes();
    let mut out: Vec<char> = Vec::new();
    let mut i: usize = 0;
    while i < 6
        invariant
            i <= 6,
            values@.len() == 6,
            values.len() == 6,
            probes@.len() == 6,
            forall|k: int| 0 <= k < 6 ==> (#[trigger] probes@[k]).name@ == probe_names()[k],
            out@ == sample_parts(values@, i as nat),
        decreases 6 - i,
    {
        let ghost before = out@;
        if i > 0 {
            push_str(&mut out, ", ");
        }
        push_str(&mut out, probes[i].name);
        match values[i] {
            Some(v) => {
                push_str(&mut out, "=0x");
                push_all(&mut out, hex8_chars(v).as_slice());
            },
            None => {
                push_str(&mut out, "=<unreadable>");
            },
        }
        proof {
            let part = sample_part(i as int, values@[i as int]);
            if i == 0 {
                assert(out@ == part);
            } else {
                assert(out@ == before + ", "@ + part);
            }
        }
        i += 1;
    }
    string_of(out.as_slice())
}

} // verus!

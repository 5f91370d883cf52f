//! The client's equipment window with more slots.
//!
//! Three changes are made: the function that maps a server index to a slot is
//! replaced, the set-up of the slots is extended by six, and the bound on
//! surface numbers is raised.

use vstd::prelude::*;
use crate::code::{address, build_jump, emit, emit32, emit_call, eq_bytes, offset_by, read_target};
#[allow(unused_imports)]
use crate::code::{call_code, jump_code, le32, offset, short_jump, target_of};
use crate::memory::{push_write, Write};
#[allow(unused_imports)]
use crate::memory::{write_at, writes_of, WriteModel};

verus! {

broadcast use {crate::code::lemma_call_len, crate::code::lemma_jump_len};

/// Where the equipment window's functions are searched.
pub const SCAN_START: u32 = 0x790000;

/// The end of that search.
pub const SCAN_END: u32 = 0x7A0000;

/// The comparison of a surface number with its bound.
pub const SURF_BOUNDS_CHECK: u32 = 0x4387DB;

/// How far in front of the switch its function begins at most.
pub const ENTRY_REACH: u32 = 0x30;

/// The size of the cave of the slot map.
pub const MAP_CAVE_SIZE: usize = 64;

/// The size of the cave of the slot set-up.
pub const SETUP_CAVE_SIZE: usize = 128;

/// The slot of each server index from 0 to 31; 0 where there is none.
pub open spec fn slot_table() -> Seq<u8> {
    seq![
        0u8, 2, 5, 4, 6, 11, 7, 9, 14, 16, 3, 8, 1, 0, 0, 0, 0, 0, 10, 12, 13, 15, 17, 18, 19, 16,
        46, 47, 48, 49, 50, 51,
    ]
}

/// The pattern of the switch over the server index.
pub open spec fn server_index_aob() -> Seq<Option<u8>> {
    seq![
        Some(0x83u8), Some(0xE9), Some(0x01), Some(0x89), Some(0x4D), Some(0xF4), Some(0x83),
        Some(0x7D), Some(0xF4), Some(0x15), Some(0x0F), Some(0x87), None, None, None, None,
        Some(0x8B), Some(0x55), Some(0xF4), Some(0xFF), Some(0x24), Some(0x95),
    ]
}

/// The pattern of the switch over the server index.
pub fn server_index_pattern() -> (r: Vec<Option<u8>>)
    ensures
        r@ == server_index_aob(),
{
    let r: Vec<Option<u8>> = vec![
        Some(0x83), Some(0xE9), Some(0x01), Some(0x89), Some(0x4D), Some(0xF4), Some(0x83),
        Some(0x7D), Some(0xF4), Some(0x15), Some(0x0F), Some(0x87), None, None, None, None,
        Some(0x8B), Some(0x55), Some(0xF4), Some(0xFF), Some(0x24), Some(0x95),
    ];
    assert(r@ == server_index_aob());
    r
}

/// The pattern of the loop over the slots.
pub open spec fn setup_slots_aob() -> Seq<Option<u8>> {
    seq![
        Some(0xC7u8), Some(0x45), Some(0xF8), Some(0x01), Some(0x00), Some(0x00), Some(0x00),
        Some(0xEB), Some(0x09), Some(0x8B), Some(0x4D), Some(0xF8), Some(0x83), Some(0xC1),
        Some(0x01), Some(0x89), Some(0x4D), Some(0xF8), Some(0x83), Some(0x7D), Some(0xF8), None,
    ]
}

/// The pattern of the loop over the slots.
pub fn setup_slots_pattern() -> (r: Vec<Option<u8>>)
    ensures
        r@ == setup_slots_aob(),
{
    let r: Vec<Option<u8>> = vec![
        Some(0xC7), Some(0x45), Some(0xF8), Some(0x01), Some(0x00), Some(0x00), Some(0x00),
        Some(0xEB), Some(0x09), Some(0x8B), Some(0x4D), Some(0xF8), Some(0x83), Some(0xC1),
        Some(0x01), Some(0x89), Some(0x4D), Some(0xF8), Some(0x83), Some(0x7D), Some(0xF8), None,
    ];
    assert(r@ == setup_slots_aob());
    r
}

/// A function begins at `i`: `push ebp; mov ebp, esp`.
pub open spec fn entry_at(d: Seq<u8>, i: int) -> bool {
    0 <= i && i + 2 < d.len() && d[i] == 0x55 && d[i + 1] == 0x8B && d[i + 2] == 0xEC
}

/// The addresses that are searched for the beginning of the function that holds
/// `from`: where they start and how many they are.
pub fn entry_window(from: u32, max_back: u32) -> (r: (u32, u32))
    ensures
        r.0 + r.1 == from,
        r.1 == (if max_back <= from {
            max_back
        } else {
            from
        }),
{
    if max_back <= from {
        (from - max_back, max_back)
    } else {
        (0, from)
    }
}

/// The last place in `data`, which stands at `start`, where a function begins.
pub fn find_func_entry(data: &[u8], start: u32) -> (r: Option<u32>)
    ensures
        match r {
            Some(a) => exists|i: int|
                {
                    &&& #[trigger] entry_at(data@, i)
                    &&& forall|k: int| i < k ==> !entry_at(data@, k)
                    &&& a == offset(start, i)
                },
            None => forall|k: int| !entry_at(data@, k),
        },
{
    if data.len() < 3 {
        return None;
    }
    let mut i: usize = data.len() - 2;
    while i > 0
        invariant
            i + 2 <= data@.len(),
            data.len() == data@.len(),
            forall|k: int| i <= k ==> !entry_at(data@, k),
        decreases i,
    {
        i -= 1;
        if data[i] == 0x55 && data[i + 1] == 0x8B && data[i + 2] == 0xEC {
            assert(entry_at(data@, i as int));
            return Some(offset_by(start, i));
        }
    }
    None
}

/// The code of the slot map, in front of its table.
pub open spec fn map_code(cave: u32) -> Seq<u8> {
    seq![
        0x55u8, 0x8B, 0xEC, 0x8B, 0x45, 0x08, 0x83, 0xF8, 0x1F, 0x77, 0x0F, 0x85, 0xC0, 0x74, 0x0B,
        0x0F, 0xB6, 0x80,
    ] + le32(offset(cave, 32)) + seq![
        0x5Du8, 0xC2, 0x04, 0x00, 0x31, 0xC0, 0x5D, 0xC2, 0x04, 0x00,
    ]
}

/// The cave of the slot map: the code and the table behind it.
pub open spec fn map_cave(cave: u32) -> Seq<u8> {
    map_code(cave) + slot_table()
}

/// The cave of the slot map.
pub fn build_map_cave(cave: u32) -> (r: Vec<u8>)
    ensures
        r@ == map_cave(cave),
{
    let mut out: Vec<u8> = Vec::new();
    emit(
        &mut out,
        &[
            0x55, 0x8B, 0xEC, 0x8B, 0x45, 0x08, 0x83, 0xF8, 0x1F, 0x77, 0x0F, 0x85, 0xC0, 0x74,
            0x0B, 0x0F, 0xB6, 0x80,
        ],
    );
    emit32(&mut out, address(cave, 32));
    emit(&mut out, &[0x5D, 0xC2, 0x04, 0x00, 0x31, 0xC0, 0x5D, 0xC2, 0x04, 0x00]);
    assert(out@ == map_code(cave));
    let table: [u8; 32] = [
        0, 2, 5, 4, 6, 11, 7, 9, 14, 16, 3, 8, 1, 0, 0, 0, 0, 0, 10, 12, 13, 15, 17, 18, 19, 16, 46,
        47, 48, 49, 50, 51,
    ];
    assert(table@ == slot_table());
    emit(&mut out, &table);
    out
}

/// The table lies where the code reads it, the cave is filled exactly, and both
/// jumps of the code lead to the answer 0.
pub proof fn law_map_cave(cave: u32)
    ensures
        map_code(cave).len() == 32,
        map_cave(cave).len() == MAP_CAVE_SIZE,
        map_cave(cave).subrange(32, 64) == slot_table(),
        short_jump(map_cave(cave), 11) == 26,
        short_jump(map_cave(cave), 15) == 26,
        map_cave(cave).subrange(26, 32) == seq![0x31u8, 0xC0, 0x5D, 0xC2, 0x04, 0x00],
{
    assert(map_cave(cave).subrange(32, 64) == slot_table());
    assert(map_cave(cave).subrange(26, 32) == seq![0x31u8, 0xC0, 0x5D, 0xC2, 0x04, 0x00]);
}

/// What is written to replace the slot map at `entry`: the cave, and then the
/// jump to it. Nothing where `first`, the byte at `entry`, is a jump already.
pub fn plan_map(first: u8, entry: u32, cave: u32) -> (r: Vec<Write>)
    ensures
        writes_of(r@) == (if first == 0xE9 {
            seq![]
        } else {
            seq![write_at(cave, map_cave(cave)), write_at(entry, jump_code(entry, cave))]
        }),
{
    let mut out: Vec<Write> = Vec::new();
    if first == 0xE9 {
        assert(writes_of(out@) == Seq::<WriteModel>::empty());
        return out;
    }
    push_write(&mut out, cave, build_map_cave(cave));
    push_write(&mut out, entry, build_jump(entry, cave));
    assert(writes_of(out@) == seq![
        write_at(cave, map_cave(cave)),
        write_at(entry, jump_code(entry, cave)),
    ]);
    out
}

/// What stands at the end of the slot set-up.
#[derive(Debug, Clone, Copy, PartialEq, Eq, Structural)]
pub enum SetupExit {
    /// A jump: the set-up is extended already.
    Hooked,
    /// The end of a function.
    Expected,
    /// Something else.
    Unknown,
}

/// `mov esp, ebp; pop ebp; ret; int3`.
pub open spec fn exit_bytes() -> Seq<u8> {
    seq![0x8Bu8, 0xE5, 0x5D, 0xC3, 0xCC]
}

/// What stands at the end of the slot set-up.
pub fn classify_exit(bytes: &[u8]) -> (r: SetupExit)
    ensures
        r == (if bytes@.len() > 0 && bytes@[0] == 0xE9 {
            SetupExit::Hooked
        } else if bytes@ == exit_bytes() {
            SetupExit::Expected
        } else {
            SetupExit::Unknown
        }),
{
    if bytes.len() > 0 && bytes[0] == 0xE9 {
        return SetupExit::Hooked;
    }
    let expected: [u8; 5] = [0x8B, 0xE5, 0x5D, 0xC3, 0xCC];
    assert(expected@ == exit_bytes());
    if eq_bytes(bytes, &expected) {
        SetupExit::Expected
    } else {
        SetupExit::Unknown
    }
}

/// The function that the set-up calls for each slot, from the call instruction
/// at `call_addr`. `None` where no call stands there.
pub fn helper_of(call_addr: u32, bytes: &[u8]) -> (r: Option<u32>)
    requires
        bytes@.len() >= 5,
    ensures
        r == (if bytes@[0] == 0xE8 {
            Some(target_of(call_addr, bytes@))
        } else {
            None
        }),
{
    if bytes[0] != 0xE8 {
        None
    } else {
        Some(read_target(call_addr, bytes))
    }
}

/// `mov ecx, [ebp+0xC]; add ecx, 0x1A; push ecx`.
pub open spec fn background_bytes() -> Seq<u8> {
    seq![0x8Bu8, 0x4D, 0x0C, 0x83, 0xC1, 0x1A, 0x51]
}

/// Whether the number of a slot's background is computed there.
pub fn is_background(bytes: &[u8]) -> (r: bool)
    ensures
        r == (bytes@ == background_bytes()),
{
    let expected: [u8; 7] = [0x8B, 0x4D, 0x0C, 0x83, 0xC1, 0x1A, 0x51];
    assert(expected@ == background_bytes());
    eq_bytes(bytes, &expected)
}

/// Where the set-up ends, behind its loop.
pub const EXIT_OFF: u32 = 0x2E;

/// Where the set-up calls its helper, behind the start of its loop.
pub const CALL_OFF: u32 = 0x27;

/// Where the helper computes the background, behind the start of the loop.
pub const BACKGROUND_OFF: u32 = 0xBB8;

/// The loop over six more slots, up to the call of the helper.
pub open spec fn more_slots_head() -> Seq<u8> {
    seq![
        0xC7u8, 0x45, 0xF8, 0x00, 0x00, 0x00, 0x00, 0x83, 0x7D, 0xF8, 0x06, 0x7D, 0x1C, 0x6A, 0x00,
        0x6A, 0x00, 0x8B, 0x55, 0xF8, 0x83, 0xC2, 0x2E, 0x52, 0x8B, 0x45, 0xFC, 0x50, 0x8B, 0x4D,
        0xF4,
    ]
}

/// The rest of the loop over six more slots, and the end of the function.
pub open spec fn more_slots_tail() -> Seq<u8> {
    seq![0xFFu8, 0x45, 0xF8, 0xEB, 0xDE, 0x8B, 0xE5, 0x5D, 0xC3]
}

/// The code that sets up six more slots.
pub open spec fn more_slots_code(cave: u32, helper: u32) -> Seq<u8> {
    more_slots_head() + call_code(offset(cave, 31), helper) + more_slots_tail()
}

/// The code that sets up six more slots.
pub fn build_more_slots(cave: u32, helper: u32) -> (r: Vec<u8>)
    ensures
        r@ == more_slots_code(cave, helper),
{
    let mut out: Vec<u8> = Vec::new();
    emit(
        &mut out,
        &[
            0xC7, 0x45, 0xF8, 0x00, 0x00, 0x00, 0x00, 0x83, 0x7D, 0xF8, 0x06, 0x7D, 0x1C, 0x6A, 0x00,
            0x6A, 0x00, 0x8B, 0x55, 0xF8, 0x83, 0xC2, 0x2E, 0x52, 0x8B, 0x45, 0xFC, 0x50, 0x8B,
            0x4D, 0xF4,
        ],
    );
    assert(out@ == more_slots_head());
    emit_call(&mut out, cave, helper);
    let tail: [u8; 9] = [0xFF, 0x45, 0xF8, 0xEB, 0xDE, 0x8B, 0xE5, 0x5D, 0xC3];
    assert(tail@ == more_slots_tail());
    emit(&mut out, &tail);
    out
}

/// The code that computes a background: 6 behind a new slot, 26 behind an old
/// one.
pub open spec fn background_code() -> Seq<u8> {
    seq![
        0x8Bu8, 0x4D, 0x0C, 0x83, 0xF9, 0x2E, 0x7C, 0x04, 0x83, 0xC1, 0x06, 0xC3, 0x83, 0xC1, 0x1A,
        0xC3,
    ]
}

/// The code that computes a background.
pub fn build_background() -> (r: Vec<u8>)
    ensures
        r@ == background_code(),
{
    let mut out: Vec<u8> = Vec::new();
    emit(
        &mut out,
        &[
            0x8B, 0x4D, 0x0C, 0x83, 0xF9, 0x2E, 0x7C, 0x04, 0x83, 0xC1, 0x06, 0xC3, 0x83, 0xC1, 0x1A,
            0xC3,
        ],
    );
    assert(out@ == background_code());
    out
}

/// The loop's jumps lead to its head and behind it, the background's jump leads
/// to the old slots, and both runs of code keep within their places.
pub proof fn law_setup_code(cave: u32, helper: u32)
    ensures
        ({
            let c = more_slots_code(cave, helper);
            &&& c.len() == 45
            &&& c.len() <= 80
            &&& short_jump(c, 13) == 41
            &&& short_jump(c, 41) == 7
            &&& c.subrange(31, 36) == call_code(offset(cave, 31), helper)
            &&& c.subrange(41, 45) == exit_bytes().take(4)
        }),
        80 + background_code().len() <= SETUP_CAVE_SIZE,
        short_jump(background_code(), 8) == 12,
{
    let c = more_slots_code(cave, helper);
    assert(c.subrange(31, 36) == call_code(offset(cave, 31), helper));
    assert(c.subrange(41, 45) == exit_bytes().take(4));
}

/// The call of the background's code, in place of [`background_bytes`].
pub open spec fn background_hook(from: u32, to: u32) -> Seq<u8> {
    call_code(from, to) + seq![0x51u8, 0x90]
}

/// What is written to extend the set-up whose loop stands at `aob`: both runs
/// of code, and then the jump and the call to them.
pub open spec fn setup_writes(aob: u32, cave: u32, helper: u32) -> Seq<WriteModel> {
    let exit = offset(aob, EXIT_OFF as int);
    let background = offset(aob, BACKGROUND_OFF as int);
    let second = offset(cave, 80);
    seq![
        write_at(cave, more_slots_code(cave, helper)),
        write_at(second, background_code()),
        write_at(exit, jump_code(exit, cave)),
        write_at(background, background_hook(background, second)),
    ]
}

fn build_background_hook(from: u32, to: u32) -> (r: Vec<u8>)
    ensures
        r@ == background_hook(from, to),
{
    let mut out: Vec<u8> = Vec::new();
    emit_call(&mut out, from, to);
    proof {
        assert(offset(from, 0) == from);
        assert(Seq::<u8>::empty() + call_code(from, to) == call_code(from, to));
    }
    let tail: [u8; 2] = [0x51, 0x90];
    assert(tail@ == seq![0x51u8, 0x90]);
    emit(&mut out, &tail);
    out
}

/// What is written to extend the set-up whose loop stands at `aob`.
pub fn plan_setup(aob: u32, cave: u32, helper: u32) -> (r: Vec<Write>)
    ensures
        writes_of(r@) == setup_writes(aob, cave, helper),
{
    let exit: u32 = address(aob, EXIT_OFF);
    let background: u32 = address(aob, BACKGROUND_OFF);
    let second: u32 = address(cave, 80);
    let mut out: Vec<Write> = Vec::new();
    push_write(&mut out, cave, build_more_slots(cave, helper));
    push_write(&mut out, second, build_background());
    push_write(&mut out, exit, build_jump(exit, cave));
    push_write(&mut out, background, build_background_hook(background, second));
    assert(writes_of(out@) == setup_writes(aob, cave, helper));
    out
}

/// `cmp edx, 30003`.
pub open spec fn bound_code() -> Seq<u8> {
    seq![0x81u8, 0xFA, 0x33, 0x75, 0x00, 0x00]
}

/// The comparison that is replaced: `cmp edx, [0xC2D0B0]`.
pub open spec fn old_bound() -> Seq<u8> {
    seq![0x3Bu8, 0x15, 0xB0, 0xD0, 0xC2, 0x00]
}

/// Whether the comparison is the one that is to be replaced.
pub fn is_old_bound(bytes: &[u8]) -> (r: bool)
    ensures
        r == (bytes@ == old_bound()),
{
    let expected: [u8; 6] = [0x3B, 0x15, 0xB0, 0xD0, 0xC2, 0x00];
    assert(expected@ == old_bound());
    eq_bytes(bytes, &expected)
}

/// What is written to raise the bound: nothing where `bytes` compares with a
/// number already. Any other comparison is replaced.
pub fn plan_bound(bytes: &[u8]) -> (r: Option<Write>)
    requires
        bytes@.len() >= 2,
    ensures
        match r {
            Some(w) => !(bytes@[0] == 0x81 && bytes@[1] == 0xFA) && w@ == write_at(
                SURF_BOUNDS_CHECK,
                bound_code(),
            ),
            None => bytes@[0] == 0x81 && bytes@[1] == 0xFA,
        },
{
    if bytes[0] == 0x81 && bytes[1] == 0xFA {
        return None;
    }
    let mut out: Vec<u8> = Vec::new();
    emit(&mut out, &[0x81, 0xFA, 0x33, 0x75, 0x00, 0x00]);
    assert(out@ == bound_code());
    Some(Write { addr: SURF_BOUNDS_CHECK, bytes: out })
}

} // verus!

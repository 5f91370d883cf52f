//! The running hook of the client's action table lookup.
//!
//! The lookup at [`HOOK_ADDR`] is replaced by a jump to a cave. The code in the
//! cave repeats the lookup and, for a walking entity under haste, answers with
//! one of the two running slots. The foot changes when the entity's animation
//! frame wraps round.

use vstd::prelude::*;
use crate::code::{build_jump, emit, emit32, eq_bytes};
#[allow(unused_imports)]
use crate::code::{from_le32, jump_code, law_le32_reads_back, le32, near_jump, offset, short_jump};

verus! {

/// The lookup that is replaced.
pub const HOOK_ADDR: u32 = 0x00449776;

/// Where the slot of the left foot lies in a sprite's table: 98 * 8 + 4.
pub const RUNL_SLOT_OFF: u32 = 0x0314;

/// Where the slot of the right foot lies in a sprite's table: 99 * 8 + 4.
pub const RUNR_SLOT_OFF: u32 = 0x031C;

/// The movement function, within which the caller has to lie.
pub const MOVEMENT_FUNC_LO: u32 = 0x005AA000;

/// The end of the movement function.
pub const MOVEMENT_FUNC_HI: u32 = 0x005AAA00;

/// Where the table of feet lies in the cave.
pub const HASH_TABLE_OFF: u32 = 0x200;

/// The number of entries in the table of feet, four bytes each.
pub const HASH_TABLE_SIZE: u32 = 64;

/// The size of the cave.
pub const CAVE_SIZE: u32 = 0x200 + 64 * 4 + 64;

/// The number of walking actions besides action 0.
pub const WALK_CODES: u32 = 13;

/// The walking actions besides action 0.
pub open spec fn walk_codes() -> Seq<u8> {
    seq![4u8, 11, 20, 24, 40, 46, 50, 54, 58, 62, 83, 88, 119]
}

/// The last `n` tests for a walking action. Each leads behind the jump that
/// follows the tests.
pub open spec fn walk_tests(n: nat) -> Seq<u8>
    decreases n,
{
    if n == 0 || n > WALK_CODES {
        seq![]
    } else {
        seq![0x83u8, 0xF9, walk_codes()[WALK_CODES - n], 0x74, (5 * n) as u8] + walk_tests(
            (n - 1) as nat,
        )
    }
}

/// The lookup that was replaced: `mov eax, [ebp+0xC]` and
/// `mov eax, [edx+eax*8+4]`.
pub open spec fn lookup() -> Seq<u8> {
    seq![0x8Bu8, 0x45, 0x0C, 0x8B, 0x44, 0xC2, 0x04]
}

/// Leaves where the slot of the left foot holds no pointer.
pub open spec fn slot_test() -> Seq<u8> {
    seq![0x81u8, 0xBA] + le32(RUNL_SLOT_OFF) + le32(0x10000) + seq![0x0Fu8, 0x82] + le32(242)
}

/// Goes on for a walking action and leaves for any other.
pub open spec fn walk_test() -> Seq<u8> {
    seq![0x8Bu8, 0x4D, 0x0C, 0x85, 0xC9, 0x74, 70] + walk_tests(13) + seq![0xE9u8] + le32(165)
}

/// Leaves where the caller is not the movement function.
pub open spec fn caller_test() -> Seq<u8> {
    seq![0x8Bu8, 0x4D, 0x04, 0x81, 0xF9] + le32(MOVEMENT_FUNC_LO) + seq![0x0Fu8, 0x82] + le32(150)
        + seq![0x81u8, 0xF9] + le32(MOVEMENT_FUNC_HI) + seq![0x0Fu8, 0x87] + le32(138)
}

/// Fetches the entity of the movement function and leaves where there is none.
pub open spec fn entity_test() -> Seq<u8> {
    seq![0x8Bu8, 0x4D, 0x00, 0x8B, 0x49, 0xA4, 0x85, 0xC9, 0x0F, 0x84] + le32(124)
}

/// Keeps the slot found and goes to [`unhasted`] where the entity has no haste.
pub open spec fn haste_test() -> Seq<u8> {
    seq![0x50u8, 0x80, 0x79, 0x29, 0x00, 0x74, 116]
}

/// Finds the entity's entry and goes to [`new_entry`] where another holds it.
pub open spec fn find_entry(table: u32) -> Seq<u8> {
    seq![0x57u8, 0x89, 0xC8, 0xC1, 0xE8, 0x03, 0x83, 0xE0, 0x3F, 0xC1, 0xE0, 0x02, 0x05] + le32(
        table,
    ) + seq![0x89u8, 0xC7, 0x66, 0x39, 0x0F, 0x75, 18]
}

/// Changes the foot where the animation frame has become smaller, stores the
/// frame and goes to [`apply_foot`].
pub open spec fn known_entry() -> Seq<u8> {
    seq![
        0x0Fu8, 0xB6, 0x41, 0x17, 0x3A, 0x47, 0x02, 0x73, 4, 0x80, 0x77, 0x03, 0x01, 0x88, 0x47,
        0x02, 0xEB, 25,
    ]
}

/// Takes the entry: the left foot for action 0, else the right one.
pub open spec fn new_entry() -> Seq<u8> {
    seq![
        0x66u8, 0x89, 0x0F, 0x0F, 0xB6, 0x41, 0x17, 0x88, 0x47, 0x02, 0xC6, 0x47, 0x03, 0x00, 0x8B,
        0x45, 0x0C, 0x85, 0xC0, 0x74, 4, 0xC6, 0x47, 0x03, 0x01,
    ]
}

/// Drops the slot found and goes to [`right_foot`] where the entry says so.
pub open spec fn apply_foot() -> Seq<u8> {
    seq![0x0Fu8, 0xB6, 0x47, 0x03, 0x5F, 0x85, 0xC0, 0x59, 0x75, 11]
}

/// Answers with the left foot's slot.
pub open spec fn left_foot() -> Seq<u8> {
    seq![0x8Bu8, 0x82] + le32(RUNL_SLOT_OFF) + seq![0xE9u8] + le32(29)
}

/// Answers with the right foot's slot where it holds a pointer.
pub open spec fn right_foot() -> Seq<u8> {
    seq![0x81u8, 0xBA] + le32(RUNR_SLOT_OFF) + le32(0x10000) + seq![0x72u8, 8, 0x8B, 0x82] + le32(
        RUNR_SLOT_OFF,
    ) + seq![0xEBu8, 9]
}

/// Answers with the left foot's slot in place of the right one's.
pub open spec fn fallback() -> Seq<u8> {
    seq![0x8Bu8, 0x82] + le32(RUNL_SLOT_OFF) + seq![0xEBu8, 1]
}

/// Answers with the slot found.
pub open spec fn unhasted() -> Seq<u8> {
    seq![0x58u8]
}

/// Returns to the caller of the lookup.
pub open spec fn leave() -> Seq<u8> {
    seq![0x5Du8, 0xC3]
}

/// The code up to the choice of the entry.
pub open spec fn code_tests() -> Seq<u8> {
    lookup() + slot_test() + walk_test() + caller_test() + entity_test() + haste_test()
}

/// The code that chooses the foot.
pub open spec fn code_foot(table: u32) -> Seq<u8> {
    find_entry(table) + known_entry() + new_entry() + apply_foot()
}

/// The code that answers.
pub open spec fn code_answer() -> Seq<u8> {
    left_foot() + right_foot() + fallback() + unhasted() + leave()
}

/// The code of the cave at `cave_addr`.
pub open spec fn cave_code(cave_addr: u32) -> Seq<u8> {
    code_tests() + code_foot(offset(cave_addr, HASH_TABLE_OFF as int)) + code_answer()
}

fn emit_walk_tests(out: &mut Vec<u8>)
    ensures
        final(out)@ == old(out)@ + walk_tests(13),
{
    let ghost start = out@;
    let codes: [u8; 13] = [4, 11, 20, 24, 40, 46, 50, 54, 58, 62, 83, 88, 119];
    proof {
        assert(codes@ == walk_codes());
        assert(start + walk_tests(13) == out@ + walk_tests(13));
    }
    let mut i: usize = 0;
    while i < 13
        invariant
            i <= 13,
            codes@ == walk_codes(),
            start + walk_tests(13) == out@ + walk_tests((13 - i) as nat),
        decreases 13 - i,
    {
        let skip: u8 = 65 - 5 * (i as u8);
        let ghost before = out@;
        emit(out, &[0x83, 0xF9, codes[i], 0x74, skip]);
        proof {
            let test = seq![0x83u8, 0xF9, walk_codes()[i as int], 0x74, skip];
            assert(out@ == before + test);
            assert(walk_tests((13 - i) as nat) == test + walk_tests((13 - i - 1) as nat));
            assert(before + (test + walk_tests((13 - i - 1) as nat)) == out@ + walk_tests(
                (13 - i - 1) as nat,
            ));
        }
        i += 1;
    }
    assert(out@ + walk_tests(0) == out@);
}

fn emit_tests(out: &mut Vec<u8>)
    ensures
        final(out)@ == old(out)@ + code_tests(),
{
    let ghost start = out@;
    emit(out, &[0x8B, 0x45, 0x0C, 0x8B, 0x44, 0xC2, 0x04]);
    assert(out@ == start + lookup());
    emit(out, &[0x81, 0xBA]);
    emit32(out, RUNL_SLOT_OFF);
    emit32(out, 0x10000);
    emit(out, &[0x0F, 0x82]);
    emit32(out, 242);
    assert(out@ == start + (lookup() + slot_test()));
    emit(out, &[0x8B, 0x4D, 0x0C, 0x85, 0xC9, 0x74, 70]);
    emit_walk_tests(out);
    emit(out, &[0xE9]);
    emit32(out, 165);
    assert(out@ == start + (lookup() + slot_test() + walk_test()));
    emit(out, &[0x8B, 0x4D, 0x04, 0x81, 0xF9]);
    emit32(out, MOVEMENT_FUNC_LO);
    emit(out, &[0x0F, 0x82]);
    emit32(out, 150);
    emit(out, &[0x81, 0xF9]);
    emit32(out, MOVEMENT_FUNC_HI);
    emit(out, &[0x0F, 0x87]);
    emit32(out, 138);
    assert(out@ == start + (lookup() + slot_test() + walk_test() + caller_test()));
    emit(out, &[0x8B, 0x4D, 0x00, 0x8B, 0x49, 0xA4, 0x85, 0xC9, 0x0F, 0x84]);
    emit32(out, 124);
    emit(out, &[0x50, 0x80, 0x79, 0x29, 0x00, 0x74, 116]);
    assert(out@ == start + code_tests());
}

fn emit_foot(out: &mut Vec<u8>, table: u32)
    ensures
        final(out)@ == old(out)@ + code_foot(table),
{
    let ghost start = out@;
    emit(out, &[0x57, 0x89, 0xC8, 0xC1, 0xE8, 0x03, 0x83, 0xE0, 0x3F, 0xC1, 0xE0, 0x02, 0x05]);
    emit32(out, table);
    emit(out, &[0x89, 0xC7, 0x66, 0x39, 0x0F, 0x75, 18]);
    assert(out@ == start + find_entry(table));
    emit(
        out,
        &[
            0x0F, 0xB6, 0x41, 0x17, 0x3A, 0x47, 0x02, 0x73, 4, 0x80, 0x77, 0x03, 0x01, 0x88, 0x47,
            0x02, 0xEB, 25,
        ],
    );
    assert(out@ == start + (find_entry(table) + known_entry()));
    emit(
        out,
        &[
            0x66, 0x89, 0x0F, 0x0F, 0xB6, 0x41, 0x17, 0x88, 0x47, 0x02, 0xC6, 0x47, 0x03, 0x00,
            0x8B, 0x45, 0x0C, 0x85, 0xC0, 0x74, 4, 0xC6, 0x47, 0x03, 0x01,
        ],
    );
    assert(out@ == start + (find_entry(table) + known_entry() + new_entry()));
    emit(out, &[0x0F, 0xB6, 0x47, 0x03, 0x5F, 0x85, 0xC0, 0x59, 0x75, 11]);
    assert(out@ == start + code_foot(table));
}

fn emit_answer(out: &mut Vec<u8>)
    ensures
        final(out)@ == old(out)@ + code_answer(),
{
    let ghost start = out@;
    emit(out, &[0x8B, 0x82]);
    emit32(out, RUNL_SLOT_OFF);
    emit(out, &[0xE9]);
    emit32(out, 29);
    assert(out@ == start + left_foot());
    emit(out, &[0x81, 0xBA]);
    emit32(out, RUNR_SLOT_OFF);
    emit32(out, 0x10000);
    emit(out, &[0x72, 8, 0x8B, 0x82]);
    emit32(out, RUNR_SLOT_OFF);
    emit(out, &[0xEB, 9]);
    assert(out@ == start + (left_foot() + right_foot()));
    emit(out, &[0x8B, 0x82]);
    emit32(out, RUNL_SLOT_OFF);
    emit(out, &[0xEB, 1]);
    emit(out, &[0x58]);
    emit(out, &[0x5D, 0xC3]);
    assert(out@ == start + code_answer());
}

/// The code of the cave at `cave_addr`.
pub fn build_shellcode(cave_addr: u32) -> (r: Vec<u8>)
    ensures
        r@ == cave_code(cave_addr),
        r@.len() == 267,
{
    let mut out: Vec<u8> = Vec::new();
    emit_tests(&mut out);
    emit_foot(&mut out, cave_addr.wrapping_add(HASH_TABLE_OFF));
    emit_answer(&mut out);
    proof {
        law_code_fits(cave_addr);
        assert(out@ == cave_code(cave_addr));
    }
    out
}

/// The tests for a walking action take five bytes each.
proof fn lemma_walk_tests(n: nat)
    requires
        n <= WALK_CODES,
    ensures
        walk_tests(n).len() == 5 * n,
    decreases n,
{
    if n > 0 {
        lemma_walk_tests((n - 1) as nat);
    }
}

/// The code ends in front of the table of feet, and the table ends within the
/// cave.
pub proof fn law_code_fits(cave_addr: u32)
    ensures
        cave_code(cave_addr).len() == 267,
        cave_code(cave_addr).len() <= HASH_TABLE_OFF,
        HASH_TABLE_OFF + 4 * HASH_TABLE_SIZE <= CAVE_SIZE,
{
    lemma_walk_tests(13);
}

/// Where [`caller_test`] begins.
pub open spec fn walking() -> int {
    100
}

/// Where [`new_entry`] begins.
pub open spec fn taking() -> int {
    190
}

/// Where [`apply_foot`] begins.
pub open spec fn applying() -> int {
    215
}

/// Where [`right_foot`] begins.
pub open spec fn stepping_right() -> int {
    236
}

/// Where [`fallback`] begins.
pub open spec fn falling_back() -> int {
    256
}

/// Where [`unhasted`] begins.
pub open spec fn restoring() -> int {
    264
}

/// Where [`leave`] begins.
pub open spec fn leaving() -> int {
    265
}

/// The parts of the code lie where the jumps expect them.
pub proof fn law_labels(cave_addr: u32)
    ensures
        ({
            let c = cave_code(cave_addr);
            let table = offset(cave_addr, HASH_TABLE_OFF as int);
            &&& c.subrange(0, 7) == lookup()
            &&& c.subrange(walking(), walking() + 27) == caller_test()
            &&& c.subrange(148, 172) == find_entry(table)
            &&& c.subrange(taking(), applying()) == new_entry()
            &&& c.subrange(applying(), 225) == apply_foot()
            &&& c.subrange(stepping_right(), falling_back()) == right_foot()
            &&& c.subrange(falling_back(), restoring()) == fallback()
            &&& c.subrange(restoring(), leaving()) == unhasted()
            &&& c.subrange(leaving(), 267) == leave()
        }),
{
    lemma_walk_tests(13);
}

proof fn lemma_walk_test_at(n: nat, k: int)
    requires
        n <= WALK_CODES,
        0 <= k < n,
    ensures
        walk_tests(n).len() == 5 * n,
        walk_tests(n)[5 * k + 4] == 5 * (n - k),
    decreases n,
{
    lemma_walk_tests(n);
    lemma_walk_tests((n - 1) as nat);
    if k > 0 {
        lemma_walk_test_at((n - 1) as nat, k - 1);
    }
}

/// Every jump of the code leads to the part that it is meant for.
pub proof fn law_jumps_land(cave_addr: u32)
    ensures
        ({
            let c = cave_code(cave_addr);
            &&& near_jump(c, 23) == leaving()
            &&& short_jump(c, 30) == walking()
            &&& forall|k: int| 0 <= k < WALK_CODES ==> #[trigger] short_jump(c, 35 + 5 * k)
                == walking()
            &&& near_jump(c, 100) == leaving()
            &&& near_jump(c, 115) == leaving()
            &&& near_jump(c, 127) == leaving()
            &&& near_jump(c, 141) == leaving()
            &&& short_jump(c, 148) == restoring()
            &&& short_jump(c, 172) == taking()
            &&& short_jump(c, 181) == 185
            &&& short_jump(c, 190) == applying()
            &&& short_jump(c, 211) == applying()
            &&& short_jump(c, 225) == stepping_right()
            &&& near_jump(c, 236) == leaving()
            &&& short_jump(c, 248) == falling_back()
            &&& short_jump(c, 256) == leaving()
            &&& short_jump(c, 264) == leaving()
        }),
{
    let c = cave_code(cave_addr);
    let t = code_tests();
    let f = code_foot(offset(cave_addr, HASH_TABLE_OFF as int));
    let a = code_answer();
    lemma_walk_tests(13);
    lemma_test_jumps();
    lemma_foot_jumps(offset(cave_addr, HASH_TABLE_OFF as int));
    lemma_answer_jumps();
    assert(t.len() == 148 && f.len() == 77 && a.len() == 42);
    assert(c.subrange(19, 23) == t.subrange(19, 23) && c[22] == t[22]);
    assert(c.subrange(96, 100) == t.subrange(96, 100) && c[99] == t[99]);
    assert(c.subrange(111, 115) == t.subrange(111, 115) && c[114] == t[114]);
    assert(c.subrange(123, 127) == t.subrange(123, 127) && c[126] == t[126]);
    assert(c.subrange(137, 141) == t.subrange(137, 141) && c[140] == t[140]);
    assert(c[29] == t[29] && c[147] == t[147]);
    assert(c[171] == f[23] && c[180] == f[32] && c[189] == f[41]);
    assert(c[210] == f[62] && c[224] == f[76]);
    assert(c.subrange(232, 236) == a.subrange(7, 11) && c[235] == a[10]);
    assert(c[247] == a[22] && c[255] == a[30] && c[263] == a[38]);
    assert forall|k: int| 0 <= k < WALK_CODES implies #[trigger] short_jump(c, 35 + 5 * k)
        == walking() by {
        assert(c[34 + 5 * k] == t[34 + 5 * k]);
    }
}

proof fn lemma_test_jumps()
    ensures
        ({
            let t = code_tests();
            &&& t.len() == 148
            &&& from_le32(t.subrange(19, 23)) == 242 && t[22] == 0
            &&& t[29] == 70
            &&& forall|k: int| 0 <= k < WALK_CODES ==> #[trigger] t[34 + 5 * k] == 65 - 5 * k
            &&& from_le32(t.subrange(96, 100)) == 165 && t[99] == 0
            &&& from_le32(t.subrange(111, 115)) == 150 && t[114] == 0
            &&& from_le32(t.subrange(123, 127)) == 138 && t[126] == 0
            &&& from_le32(t.subrange(137, 141)) == 124 && t[140] == 0
            &&& t[147] == 116
        }),
{
    let t = code_tests();
    lemma_walk_tests(13);
    law_le32_reads_back(242);
    law_le32_reads_back(165);
    law_le32_reads_back(150);
    law_le32_reads_back(138);
    law_le32_reads_back(124);
    assert(t.subrange(19, 23) == le32(242) && t[22] == le32(242)[3]);
    assert(t.subrange(96, 100) == le32(165) && t[99] == le32(165)[3]);
    assert(t.subrange(111, 115) == le32(150) && t[114] == le32(150)[3]);
    assert(t.subrange(123, 127) == le32(138) && t[126] == le32(138)[3]);
    assert(t.subrange(137, 141) == le32(124) && t[140] == le32(124)[3]);
    assert forall|k: int| 0 <= k < WALK_CODES implies #[trigger] t[34 + 5 * k] == 65 - 5 * k by {
        lemma_walk_test_at(13, k);
        assert(t[34 + 5 * k] == walk_tests(13)[5 * k + 4]);
    }
}

proof fn lemma_foot_jumps(table: u32)
    ensures
        ({
            let f = code_foot(table);
            &&& f.len() == 77
            &&& f[23] == 18
            &&& f[32] == 4
            &&& f[41] == 25
            &&& f[62] == 4
            &&& f[76] == 11
        }),
{
}

proof fn lemma_answer_jumps()
    ensures
        ({
            let a = code_answer();
            &&& a.len() == 42
            &&& from_le32(a.subrange(7, 11)) == 29 && a[10] == 0
            &&& a[22] == 8
            &&& a[30] == 9
            &&& a[38] == 1
        }),
{
    let a = code_answer();
    law_le32_reads_back(29);
    assert(a.subrange(7, 11) == le32(29) && a[10] == le32(29)[3]);
}

/// What stands at the place of the hook.
#[derive(Debug, Clone, Copy, PartialEq, Eq, Structural)]
pub enum Site {
    /// A jump: the hook is there already.
    Hooked,
    /// The lookup that the hook replaces.
    Expected,
    /// Something else, which stays.
    Unknown,
}

/// The bytes that the hook replaces.
pub open spec fn expected_bytes() -> Seq<u8> {
    seq![0x8Bu8, 0x44, 0xC2, 0x04, 0x5D]
}

/// What the bytes at the place of the hook are.
pub open spec fn site_of(bytes: Seq<u8>) -> Site {
    if bytes.len() >= 1 && bytes[0] == 0xE9 {
        Site::Hooked
    } else if bytes == expected_bytes() {
        Site::Expected
    } else {
        Site::Unknown
    }
}

/// What the bytes at the place of the hook are.
pub fn classify_site(bytes: &[u8]) -> (r: Site)
    ensures
        r == site_of(bytes@),
{
    if bytes.len() >= 1 && bytes[0] == 0xE9 {
        return Site::Hooked;
    }
    let expected: [u8; 5] = [0x8B, 0x44, 0xC2, 0x04, 0x5D];
    assert(expected@ == expected_bytes());
    if eq_bytes(bytes, &expected) {
        Site::Expected
    } else {
        Site::Unknown
    }
}

/// The jump that replaces the lookup.
pub fn build_hook(cave_addr: u32) -> (r: Vec<u8>)
    ensures
        r@ == jump_code(HOOK_ADDR, cave_addr),
{
    build_jump(HOOK_ADDR, cave_addr)
}

} // verus!

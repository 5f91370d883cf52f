//! The code of the two caves.

use vstd::prelude::*;
use crate::code::{address, emit, emit32, emit_call, emit_jump};
#[allow(unused_imports)]
use crate::code::{call_code, jump_code, le32, offset, short_jump};
use crate::img_hover::{
    BLIT_OFF_COUNT, BLIT_OFF_SCREEN_POS, BLIT_OFF_SURF_PTRS_ADDR, OFF_COUNT, OFF_ELEM_PTR,
    OFF_HL_SURFS, OFF_HOVER_ID, OFF_LEARNED, OFF_MAP, OFF_SURF_PTRS,
};
#[allow(unused_imports)]
use crate::img_hover::OFF_DRAW_ADDR;

verus! {

broadcast use {crate::code::lemma_call_len, crate::code::lemma_jump_len};

/// Draws at once where there are no pictures.
#[verifier::opaque]
pub open spec fn guard(cave: u32) -> Seq<u8> {
    seq![0x50u8, 0xA1] + le32(offset(cave, OFF_COUNT as int)) + seq![
        0x85u8, 0xC0, 0x58, 0x75, 0x05,
    ]
}

/// Goes to the replay where all pictures have been learned.
#[verifier::opaque]
pub open spec fn mode_test(cave: u32) -> Seq<u8> {
    seq![0x50u8, 0xA1] + le32(offset(cave, OFF_LEARNED as int)) + seq![0x3Bu8, 0x05] + le32(
        offset(cave, OFF_COUNT as int),
    ) + seq![0x58u8, 0x7D, 97]
}

/// Fetches the element's number and goes through the pictures: to the end where
/// none has it.
#[verifier::opaque]
pub open spec fn learn_scan(cave: u32) -> Seq<u8> {
    seq![0x50u8, 0x51, 0x52, 0x56, 0x57, 0x8B, 0x45, 0xBC, 0xA3] + le32(
        offset(cave, OFF_ELEM_PTR as int),
    ) + seq![0x8Bu8, 0x40, 0x20, 0x8B, 0x35] + le32(offset(cave, OFF_COUNT as int)) + seq![0xBFu8]
        + le32(offset(cave, OFF_MAP as int)) + seq![0xBAu8] + le32(
        offset(cave, OFF_SURF_PTRS as int),
    ) + seq![
        0x85u8, 0xF6, 0x74, 13, 0x39, 0x07, 0x74, 11, 0x83, 0xC7, 0x08, 0x83, 0xC2, 0x04, 0x4E,
        0xEB, 0xEF, 0xEB, 36,
    ]
}

/// Stores the surface of a picture that has none yet and prepares the call for
/// its highlighted form.
#[verifier::opaque]
pub open spec fn learn_surface(surf_mgr: u32) -> Seq<u8> {
    seq![
        0x83u8, 0x3A, 0x00, 0x75, 31, 0x56, 0x8B, 0x71, 0x04, 0x89, 0x32, 0x5E, 0x52, 0xFF, 0x77,
        0x04, 0xB9,
    ] + le32(surf_mgr)
}

/// Stores the highlighted form's surface, counts the picture as learned and
/// restores the registers.
#[verifier::opaque]
pub open spec fn learn_highlight(cave: u32) -> Seq<u8> {
    seq![0x5Au8, 0x89, 0x42, 0x20, 0xFF, 0x05] + le32(offset(cave, OFF_LEARNED as int)) + seq![
        0x5Fu8, 0x5E, 0x5A, 0x59, 0x58,
    ]
}

/// Replaces the surface by its highlighted form where it is under the cursor.
#[verifier::opaque]
pub open spec fn replay(cave: u32) -> Seq<u8> {
    seq![0x50u8, 0x52, 0x56, 0x57, 0x8B, 0x41, 0x04, 0x3B, 0x05] + le32(
        offset(cave, OFF_HOVER_ID as int),
    ) + seq![0x75u8, 39, 0x8B, 0x35] + le32(offset(cave, OFF_COUNT as int)) + seq![0xBFu8] + le32(
        offset(cave, OFF_SURF_PTRS as int),
    ) + seq![0xBAu8] + le32(offset(cave, OFF_HL_SURFS as int)) + seq![
        0x85u8, 0xF6, 0x74, 19, 0x39, 0x07, 0x74, 9, 0x83, 0xC7, 0x04, 0x83, 0xC2, 0x04, 0x4E, 0xEB,
        0xEF, 0x8B, 0x0A, 0x85, 0xC9, 0x74, 0, 0x5F, 0x5E, 0x5A, 0x58,
    ]
}

/// The code of the drawing cave.
pub open spec fn draw_code(cave: u32, draw_addr: u32, gsr_orig: u32, surf_mgr: u32) -> Seq<u8> {
    guard(cave) + jump_code(offset(cave, 11), draw_addr) + mode_test(cave) + learn_scan(cave)
        + learn_surface(surf_mgr) + call_code(offset(cave, 103), gsr_orig) + learn_highlight(cave)
        + jump_code(offset(cave, 123), draw_addr) + replay(cave) + jump_code(
        offset(cave, 186),
        draw_addr,
    )
}

fn emit_guard(out: &mut Vec<u8>, cave: u32)
    ensures
        final(out)@ == old(out)@ + guard(cave),
{
    let ghost start = out@;
    emit(out, &[0x50, 0xA1]);
    emit32(out, address(cave, OFF_COUNT));
    emit(out, &[0x85, 0xC0, 0x58, 0x75, 0x05]);
    proof {
        reveal(guard);
        assert(out@ == start + guard(cave));
    }
}

fn emit_mode_test(out: &mut Vec<u8>, cave: u32)
    ensures
        final(out)@ == old(out)@ + mode_test(cave),
{
    let ghost start = out@;
    emit(out, &[0x50, 0xA1]);
    emit32(out, address(cave, OFF_LEARNED));
    emit(out, &[0x3B, 0x05]);
    emit32(out, address(cave, OFF_COUNT));
    emit(out, &[0x58, 0x7D, 97]);
    proof {
        reveal(mode_test);
        assert(out@ == start + mode_test(cave));
    }
}

fn emit_learn_scan(out: &mut Vec<u8>, cave: u32)
    ensures
        final(out)@ == old(out)@ + learn_scan(cave),
{
    let ghost start = out@;
    emit(out, &[0x50, 0x51, 0x52, 0x56, 0x57, 0x8B, 0x45, 0xBC, 0xA3]);
    emit32(out, address(cave, OFF_ELEM_PTR));
    emit(out, &[0x8B, 0x40, 0x20, 0x8B, 0x35]);
    emit32(out, address(cave, OFF_COUNT));
    emit(out, &[0xBF]);
    emit32(out, address(cave, OFF_MAP));
    emit(out, &[0xBA]);
    emit32(out, address(cave, OFF_SURF_PTRS));
    emit(
        out,
        &[
            0x85, 0xF6, 0x74, 13, 0x39, 0x07, 0x74, 11, 0x83, 0xC7, 0x08, 0x83, 0xC2, 0x04, 0x4E,
            0xEB, 0xEF, 0xEB, 36,
        ],
    );
    proof {
        reveal(learn_scan);
        assert(out@ == start + learn_scan(cave));
    }
}

fn emit_learn_surface(out: &mut Vec<u8>, surf_mgr: u32)
    ensures
        final(out)@ == old(out)@ + learn_surface(surf_mgr),
{
    let ghost start = out@;
    emit(
        out,
        &[
            0x83, 0x3A, 0x00, 0x75, 31, 0x56, 0x8B, 0x71, 0x04, 0x89, 0x32, 0x5E, 0x52, 0xFF, 0x77,
            0x04, 0xB9,
        ],
    );
    emit32(out, surf_mgr);
    proof {
        reveal(learn_surface);
        assert(out@ == start + learn_surface(surf_mgr));
    }
}

fn emit_learn_highlight(out: &mut Vec<u8>, cave: u32)
    ensures
        final(out)@ == old(out)@ + learn_highlight(cave),
{
    let ghost start = out@;
    emit(out, &[0x5A, 0x89, 0x42, 0x20, 0xFF, 0x05]);
    emit32(out, address(cave, OFF_LEARNED));
    emit(out, &[0x5F, 0x5E, 0x5A, 0x59, 0x58]);
    proof {
        reveal(learn_highlight);
        assert(out@ == start + learn_highlight(cave));
    }
}

fn emit_replay(out: &mut Vec<u8>, cave: u32)
    ensures
        final(out)@ == old(out)@ + replay(cave),
{
    let ghost start = out@;
    emit(out, &[0x50, 0x52, 0x56, 0x57, 0x8B, 0x41, 0x04, 0x3B, 0x05]);
    emit32(out, address(cave, OFF_HOVER_ID));
    emit(out, &[0x75, 39, 0x8B, 0x35]);
    emit32(out, address(cave, OFF_COUNT));
    emit(out, &[0xBF]);
    emit32(out, address(cave, OFF_SURF_PTRS));
    emit(out, &[0xBA]);
    emit32(out, address(cave, OFF_HL_SURFS));
    emit(
        out,
        &[
            0x85, 0xF6, 0x74, 19, 0x39, 0x07, 0x74, 9, 0x83, 0xC7, 0x04, 0x83, 0xC2, 0x04, 0x4E,
            0xEB, 0xEF, 0x8B, 0x0A, 0x85, 0xC9, 0x74, 0, 0x5F, 0x5E, 0x5A, 0x58,
        ],
    );
    proof {
        reveal(replay);
        assert(out@ == start + replay(cave));
    }
}

/// The parts of the drawing cave's code are as long as their jumps assume.
proof fn lemma_draw_lengths(cave: u32, surf_mgr: u32)
    ensures
        guard(cave).len() == 11,
        mode_test(cave).len() == 15,
        learn_scan(cave).len() == 51,
        learn_surface(surf_mgr).len() == 21,
        learn_highlight(cave).len() == 15,
        replay(cave).len() == 58,
{
    reveal(guard);
    reveal(mode_test);
    reveal(learn_scan);
    reveal(learn_surface);
    reveal(learn_highlight);
    reveal(replay);
}

/// The code of the drawing cave.
pub fn build_draw_hook_v2(cave_addr: u32, draw_addr: u32, gsr_orig: u32, surf_mgr: u32) -> (r: Vec<
    u8,
>)
    ensures
        r@ == draw_code(cave_addr, draw_addr, gsr_orig, surf_mgr),
{
    proof {
        lemma_draw_lengths(cave_addr, surf_mgr);
    }
    let mut out: Vec<u8> = Vec::new();
    emit_guard(&mut out, cave_addr);
    assert(out@ == guard(cave_addr));
    emit_jump(&mut out, cave_addr, draw_addr);
    emit_mode_test(&mut out, cave_addr);
    emit_learn_scan(&mut out, cave_addr);
    emit_learn_surface(&mut out, surf_mgr);
    emit_call(&mut out, cave_addr, gsr_orig);
    emit_learn_highlight(&mut out, cave_addr);
    emit_jump(&mut out, cave_addr, draw_addr);
    emit_replay(&mut out, cave_addr);
    emit_jump(&mut out, cave_addr, draw_addr);
    out
}

/// The drawing cave's code ends in front of its data, its short jumps lead to
/// the parts that they are meant for, and its calls and long jumps stand where
/// their displacements were computed for.
pub proof fn law_draw_jumps(cave: u32, draw_addr: u32, gsr_orig: u32, surf_mgr: u32)
    ensures
        ({
            let c = draw_code(cave, draw_addr, gsr_orig, surf_mgr);
            &&& c.len() == 191
            &&& c.len() <= OFF_DRAW_ADDR
            &&& short_jump(c, 11) == 16
            &&& c.subrange(11, 16) == jump_code(offset(cave, 11), draw_addr)
            &&& short_jump(c, 31) == 128
            &&& c.subrange(128, 186) == replay(cave)
            &&& short_jump(c, 67) == 80
            &&& short_jump(c, 71) == 82
            &&& short_jump(c, 80) == 63
            &&& short_jump(c, 82) == 118
            &&& c.subrange(82, 103) == learn_surface(surf_mgr)
            &&& short_jump(c, 87) == 118
            &&& c.subrange(103, 108) == call_code(offset(cave, 103), gsr_orig)
            &&& c.subrange(118, 123) == seq![0x5Fu8, 0x5E, 0x5A, 0x59, 0x58]
            &&& c.subrange(123, 128) == jump_code(offset(cave, 123), draw_addr)
            &&& short_jump(c, 143) == 182
            &&& short_jump(c, 163) == 182
            &&& short_jump(c, 167) == 176
            &&& short_jump(c, 176) == 159
            &&& short_jump(c, 182) == 182
            &&& c.subrange(182, 186) == seq![0x5Fu8, 0x5E, 0x5A, 0x58]
            &&& c.subrange(186, 191) == jump_code(offset(cave, 186), draw_addr)
        }),
{
    lemma_draw_lengths(cave, surf_mgr);
    let c = draw_code(cave, draw_addr, gsr_orig, surf_mgr);
    assert(c.subrange(11, 16) == jump_code(offset(cave, 11), draw_addr));
    assert(c.subrange(16, 31) == mode_test(cave));
    assert(c.subrange(31, 82) == learn_scan(cave));
    assert(c.subrange(82, 103) == learn_surface(surf_mgr));
    assert(c.subrange(103, 108) == call_code(offset(cave, 103), gsr_orig));
    assert(c.subrange(108, 123) == learn_highlight(cave));
    assert(c.subrange(123, 128) == jump_code(offset(cave, 123), draw_addr));
    assert(c.subrange(128, 186) == replay(cave));
    assert(c.subrange(186, 191) == jump_code(offset(cave, 186), draw_addr));
    assert(c[10] == guard(cave)[10]);
    assert(c[30] == mode_test(cave)[14]);
    assert(c[66] == learn_scan(cave)[35]);
    assert(c[70] == learn_scan(cave)[39]);
    assert(c[79] == learn_scan(cave)[48]);
    assert(c[81] == learn_scan(cave)[50]);
    assert(c[86] == learn_surface(surf_mgr)[4]);
    assert(c[142] == replay(cave)[14]);
    assert(c[162] == replay(cave)[34]);
    assert(c[166] == replay(cave)[38]);
    assert(c[175] == replay(cave)[47]);
    assert(c[181] == replay(cave)[53]);
    assert(c.subrange(118, 123) == learn_highlight(cave).subrange(10, 15));
    assert(c.subrange(182, 186) == replay(cave).subrange(54, 58));
    lemma_draw_displacements(cave, surf_mgr);
}

/// The displacements of the drawing cave's short jumps, part by part.
proof fn lemma_draw_displacements(cave: u32, surf_mgr: u32)
    ensures
        guard(cave)[10] == 5,
        mode_test(cave)[14] == 97,
        learn_scan(cave)[35] == 13,
        learn_scan(cave)[39] == 11,
        learn_scan(cave)[48] == 0xEF,
        learn_scan(cave)[50] == 36,
        learn_surface(surf_mgr)[4] == 31,
        replay(cave)[14] == 39,
        replay(cave)[34] == 19,
        replay(cave)[38] == 9,
        replay(cave)[47] == 0xEF,
        replay(cave)[53] == 0,
        learn_highlight(cave).subrange(10, 15) == seq![0x5Fu8, 0x5E, 0x5A, 0x59, 0x58],
        replay(cave).subrange(54, 58) == seq![0x5Fu8, 0x5E, 0x5A, 0x58],
{
    reveal(guard);
    reveal(mode_test);
    reveal(learn_scan);
    reveal(learn_surface);
    reveal(learn_highlight);
    reveal(replay);
}

/// Records where a picture's surface goes on the screen and restores the
/// registers.
pub open spec fn blit_body(cave: u32) -> Seq<u8> {
    seq![0x50u8, 0x51, 0x56, 0x57, 0x8B, 0x44, 0x24, 20, 0x8B, 0x0D] + le32(
        offset(cave, BLIT_OFF_COUNT as int),
    ) + seq![0x85u8, 0xC9, 0x74, 43, 0x8B, 0x35] + le32(
        offset(cave, BLIT_OFF_SURF_PTRS_ADDR as int),
    ) + seq![
        0x8Bu8, 0xFE, 0x3B, 0x06, 0x74, 8, 0x83, 0xC6, 0x04, 0x49, 0x75, 0xF6, 0xEB, 23, 0x2B, 0xF7,
        0xD1, 0xE6, 0x81, 0xC6,
    ] + le32(offset(cave, BLIT_OFF_SCREEN_POS as int)) + seq![
        0x8Bu8, 0x7C, 0x24, 32, 0x89, 0x3E, 0x8B, 0x7C, 0x24, 36, 0x89, 0x7E, 0x04, 0x5F, 0x5E,
        0x59, 0x58,
    ]
}

/// The code of the copying cave: the record, the replaced instructions and the
/// jump behind them.
pub open spec fn blit_code(cave: u32, retn: u32, prologue: Seq<u8>) -> Seq<u8> {
    blit_body(cave) + prologue + jump_code(
        offset(cave, (blit_body(cave) + prologue).len() as int),
        retn,
    )
}

/// The code of the copying cave.
pub fn build_blit_hook(blit_cave: u32, blit_retn: u32, blit_prologue: &[u8]) -> (r: Vec<u8>)
    ensures
        r@ == blit_code(blit_cave, blit_retn, blit_prologue@),
{
    let mut out: Vec<u8> = Vec::new();
    emit(&mut out, &[0x50, 0x51, 0x56, 0x57, 0x8B, 0x44, 0x24, 20, 0x8B, 0x0D]);
    emit32(&mut out, address(blit_cave, BLIT_OFF_COUNT));
    emit(&mut out, &[0x85, 0xC9, 0x74, 43, 0x8B, 0x35]);
    emit32(&mut out, address(blit_cave, BLIT_OFF_SURF_PTRS_ADDR));
    emit(
        &mut out,
        &[
            0x8B, 0xFE, 0x3B, 0x06, 0x74, 8, 0x83, 0xC6, 0x04, 0x49, 0x75, 0xF6, 0xEB, 23, 0x2B,
            0xF7, 0xD1, 0xE6, 0x81, 0xC6,
        ],
    );
    emit32(&mut out, address(blit_cave, BLIT_OFF_SCREEN_POS));
    emit(
        &mut out,
        &[
            0x8B, 0x7C, 0x24, 32, 0x89, 0x3E, 0x8B, 0x7C, 0x24, 36, 0x89, 0x7E, 0x04, 0x5F, 0x5E,
            0x59, 0x58,
        ],
    );
    assert(out@ == blit_body(blit_cave));
    emit(&mut out, blit_prologue);
    emit_jump(&mut out, blit_cave, blit_retn);
    out
}

/// The copying cave's code ends in front of its data for every prologue that is
/// replaced, and its short jumps lead to the parts that they are meant for.
pub proof fn law_blit_jumps(cave: u32, retn: u32, prologue: Seq<u8>)
    requires
        prologue.len() <= 8,
    ensures
        ({
            let c = blit_code(cave, retn, prologue);
            let n = prologue.len() as int;
            &&& c.len() == 70 + n
            &&& c.len() <= BLIT_OFF_COUNT
            &&& short_jump(c, 18) == 61
            &&& short_jump(c, 30) == 38
            &&& short_jump(c, 36) == 26
            &&& short_jump(c, 38) == 61
            &&& c.subrange(61, 65) == seq![0x5Fu8, 0x5E, 0x59, 0x58]
            &&& c.subrange(65, 65 + n) == prologue
            &&& c.subrange(65 + n, 70 + n) == jump_code(offset(cave, 65 + n), retn)
        }),
{
    let c = blit_code(cave, retn, prologue);
    let n = prologue.len() as int;
    let b = blit_body(cave);
    assert(b.len() == 65);
    assert(c.subrange(0, 65) == b);
    assert(c[17] == b[17] && c[29] == b[29] && c[35] == b[35] && c[37] == b[37]);
    assert(b[17] == 43 && b[29] == 8 && b[35] == 0xF6 && b[37] == 23);
    assert(c.subrange(61, 65) == b.subrange(61, 65));
    assert(b.subrange(61, 65) == seq![0x5Fu8, 0x5E, 0x59, 0x58]);
    assert(c.subrange(65, 65 + n) == prologue);
    assert(c.subrange(65 + n, 70 + n) == jump_code(offset(cave, 65 + n), retn));
}

} // verus!

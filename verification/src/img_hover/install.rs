//! What is read and written to install the two hooks.

use vstd::prelude::*;
use vstd::slice::slice_subrange;
use crate::code::{
    address, build_padded_jump, emit, emit32, emit_call, emit_jump, eq_bytes, read32, read_target,
};
#[allow(unused_imports)]
use crate::code::{call_code, from_le32, jump_code, le32, offset, padded_jump, target_of};
use crate::img_hover::code::{build_blit_hook, build_draw_hook_v2};
#[allow(unused_imports)]
use crate::img_hover::code::{blit_code, draw_code};
use crate::img_hover::{
    BLIT_B_ADDR, BLIT_OFF_COUNT, BLIT_OFF_SCREEN_POS, BLIT_OFF_SURF_PTRS_ADDR, DRAW_CALL_SITE,
    GSR_CALL_SITE, OFF_COUNT, OFF_DRAW_ADDR, OFF_ELEM_PTR, OFF_GSR_ORIG, OFF_HL_SURFS, OFF_HOVER_ID,
    OFF_LEARNED, OFF_MAP, OFF_SURF_MGR, OFF_SURF_PTRS, OFF_TRAMPOLINE,
};
use crate::memory::{push_write, zero_bytes, Write};
#[allow(unused_imports)]
use crate::memory::{write_at, writes_of, zeros, WriteModel};
use crate::text::{chars_of, hex_chars, own, push_all, push_str, string_of};
#[allow(unused_imports)]
use crate::text::hex_of;

verus! {

/// Why the drawing hook cannot be installed.
#[derive(Debug, Clone, Copy, PartialEq, Eq, Structural)]
pub enum HoverError {
    /// The surface call does not stand where it should.
    SurfaceSite,
    /// What stands there is no call.
    SurfaceCall,
    /// The drawing call is another instruction, with this first byte.
    DrawCall(u8),
    /// The surface function begins with these bytes.
    Prologue(u8, u8, u8),
    /// The surface function's fourth byte is another one.
    PrologueByte(u8),
}

impl HoverError {
    /// The message for the user.
    pub fn to_string(&self) -> (r: String)
        ensures
            r@ == (match *self {
                HoverError::SurfaceSite => "GSR call site 不符"@,
                HoverError::SurfaceCall => "GSR call site +9 不是 E8"@,
                HoverError::DrawCall(b) => "draw call site 0x00491174 不是 E8，而是 "@ + hex_of(
                    seq![b],
                    true,
                ),
                HoverError::Prologue(x, y, z) => "GSR prologue 不符: "@ + hex_of(seq![x], true)
                    + " "@ + hex_of(seq![y], true) + " "@ + hex_of(seq![z], true),
                HoverError::PrologueByte(b) => "GSR prologue byte 4: "@ + hex_of(seq![b], true),
            }),
    {
        match self {
            HoverError::SurfaceSite => own("GSR call site 不符"),
            HoverError::SurfaceCall => own("GSR call site +9 不是 E8"),
            HoverError::DrawCall(b) => {
                let mut out = chars_of("draw call site 0x00491174 不是 E8，而是 ");
                push_hex(&mut out, *b);
                string_of(out.as_slice())
            },
            HoverError::Prologue(x, y, z) => {
                let mut out = chars_of("GSR prologue 不符: ");
                push_hex(&mut out, *x);
                push_str(&mut out, " ");
                push_hex(&mut out, *y);
                push_str(&mut out, " ");
                push_hex(&mut out, *z);
                string_of(out.as_slice())
            },
            HoverError::PrologueByte(b) => {
                let mut out = chars_of("GSR prologue byte 4: ");
                push_hex(&mut out, *b);
                string_of(out.as_slice())
            },
        }
    }
}

fn push_hex(out: &mut Vec<char>, b: u8)
    ensures
        final(out)@ == old(out)@ + hex_of(seq![b], true),
{
    let one: [u8; 1] = [b];
    assert(one@ == seq![b]);
    push_all(out, hex_chars(&one, true).as_slice());
}

/// How the surface call site begins.
pub open spec fn site_check() -> Seq<u8> {
    seq![0x8Bu8, 0x48, 0x20, 0x51, 0xB9]
}

/// The surface manager and the surface function, from the fourteen bytes at
/// [`GSR_CALL_SITE`].
pub fn resolve_surface(site: &[u8]) -> (r: Result<(u32, u32), HoverError>)
    requires
        site@.len() == 14,
    ensures
        r == (if site@.take(5) != site_check() {
            Err(HoverError::SurfaceSite)
        } else if site@[9] != 0xE8 {
            Err(HoverError::SurfaceCall)
        } else {
            Ok(
                (
                    from_le32(site@.subrange(5, 9)),
                    target_of((GSR_CALL_SITE + 9) as u32, site@.skip(9)),
                ),
            )
        }),
{
    let check: [u8; 5] = [0x8B, 0x48, 0x20, 0x51, 0xB9];
    assert(check@ == site_check());
    let head = slice_subrange(site, 0, 5);
    assert(head@ == site@.take(5));
    if !eq_bytes(head, &check) {
        return Err(HoverError::SurfaceSite);
    }
    if site[9] != 0xE8 {
        return Err(HoverError::SurfaceCall);
    }
    let call = slice_subrange(site, 9, 14);
    assert(call@ == site@.skip(9));
    Ok((read32(site, 5), read_target(GSR_CALL_SITE + 9, call)))
}

/// The drawing function, from the five bytes at [`DRAW_CALL_SITE`].
pub fn resolve_draw(site: &[u8]) -> (r: Result<u32, HoverError>)
    requires
        site@.len() == 5,
    ensures
        r == (if site@[0] != 0xE8 {
            Err::<u32, HoverError>(HoverError::DrawCall(site@[0]))
        } else {
            Ok(target_of(DRAW_CALL_SITE, site@))
        }),
{
    if site[0] != 0xE8 {
        Err(HoverError::DrawCall(site[0]))
    } else {
        Ok(read_target(DRAW_CALL_SITE, site))
    }
}

/// How many bytes the first instructions of a function take that are replaced:
/// `push ebp; mov ebp, esp` and an instruction that makes room on the stack.
pub open spec fn prologue_of(d: Seq<u8>) -> Option<nat> {
    if d.take(3) != seq![0x55u8, 0x8B, 0xEC] {
        None
    } else if d[3] == 0x83 {
        Some(6)
    } else if d[3] == 0x81 {
        Some(8)
    } else {
        None
    }
}

fn starts_function(d: &[u8]) -> (r: bool)
    requires
        d@.len() >= 3,
    ensures
        r == (d@.take(3) == seq![0x55u8, 0x8B, 0xEC]),
{
    proof {
        let p = seq![0x55u8, 0x8B, 0xEC];
        assert(p.len() == 3 && p[0] == 0x55 && p[1] == 0x8B && p[2] == 0xEC);
        if d@[0] == 0x55 && d@[1] == 0x8B && d@[2] == 0xEC {
            assert(d@.take(3) == p);
        }
        if d@.take(3) == p {
            assert(d@.take(3)[0] == d@[0] && d@.take(3)[1] == d@[1] && d@.take(3)[2] == d@[2]);
        }
    }
    d[0] == 0x55 && d[1] == 0x8B && d[2] == 0xEC
}

/// How many bytes of the surface function are copied, from its first ten.
pub fn surface_prologue(d: &[u8]) -> (r: Result<usize, HoverError>)
    requires
        d@.len() >= 4,
    ensures
        match r {
            Ok(n) => prologue_of(d@) == Some(n as nat) && n <= 8,
            Err(HoverError::Prologue(x, y, z)) => d@.take(3) != seq![0x55u8, 0x8B, 0xEC] && x
                == d@[0] && y == d@[1] && z == d@[2],
            Err(HoverError::PrologueByte(b)) => d@.take(3) == seq![0x55u8, 0x8B, 0xEC] && b
                == d@[3] && b != 0x83 && b != 0x81,
            Err(_) => false,
        },
{
    if !starts_function(d) {
        return Err(HoverError::Prologue(d[0], d[1], d[2]));
    }
    if d[3] == 0x83 {
        Ok(6)
    } else if d[3] == 0x81 {
        Ok(8)
    } else {
        Err(HoverError::PrologueByte(d[3]))
    }
}

/// How many bytes of the copying function are replaced, from its first ten.
/// `None` where it begins otherwise and stays as it is.
pub fn blit_prologue(d: &[u8]) -> (r: Option<usize>)
    requires
        d@.len() >= 4,
    ensures
        match r {
            Some(n) => prologue_of(d@) == Some(n as nat) && n <= 8,
            None => prologue_of(d@) is None,
        },
{
    match surface_prologue(d) {
        Ok(n) => Some(n),
        Err(_) => None,
    }
}

/// The way into a function at `func` round its hook: its first instructions,
/// copied to `at`, and a jump behind them.
pub open spec fn trampoline(prologue: Seq<u8>, at: u32, func: u32) -> Seq<u8> {
    prologue + jump_code(offset(at, prologue.len() as int), offset(func, prologue.len() as int))
}

fn build_trampoline(prologue: &[u8], at: u32, func: u32) -> (r: Vec<u8>)
    requires
        prologue@.len() <= 8,
    ensures
        r@ == trampoline(prologue@, at, func),
{
    let mut out: Vec<u8> = Vec::new();
    emit(&mut out, prologue);
    assert(out@ == prologue@);
    emit_jump(&mut out, at, address(func, prologue.len() as u32));
    out
}

fn number(x: u32) -> (r: Vec<u8>)
    ensures
        r@ == le32(x),
{
    let mut out: Vec<u8> = Vec::new();
    emit32(&mut out, x);
    assert(out@ == le32(x));
    out
}

/// What is written into the drawing cave, in order: the way round the hook, the
/// code, the addresses that it uses, and zeros for everything else.
pub open spec fn draw_writes(
    cave: u32,
    draw_addr: u32,
    surf_mgr: u32,
    gsr_addr: u32,
    prologue: Seq<u8>,
) -> Seq<WriteModel> {
    let round = offset(cave, OFF_TRAMPOLINE as int);
    seq![
        write_at(round, trampoline(prologue, round, gsr_addr)),
        write_at(cave, draw_code(cave, draw_addr, round, surf_mgr)),
        write_at(offset(cave, OFF_DRAW_ADDR as int), le32(draw_addr)),
        write_at(offset(cave, OFF_GSR_ORIG as int), le32(round)),
        write_at(offset(cave, OFF_SURF_MGR as int), le32(surf_mgr)),
        write_at(offset(cave, OFF_COUNT as int), le32(0)),
        write_at(offset(cave, OFF_HOVER_ID as int), le32(0)),
        write_at(offset(cave, OFF_MAP as int), zeros(64)),
        write_at(offset(cave, OFF_SURF_PTRS as int), zeros(32)),
        write_at(offset(cave, OFF_HL_SURFS as int), zeros(32)),
        write_at(offset(cave, OFF_LEARNED as int), le32(0)),
        write_at(offset(cave, OFF_ELEM_PTR as int), le32(0)),
    ]
}

/// What is written into the drawing cave, in order.
pub fn plan_draw(cave: u32, draw_addr: u32, surf_mgr: u32, gsr_addr: u32, prologue: &[u8]) -> (r: Vec<
    Write,
>)
    requires
        prologue@.len() <= 8,
    ensures
        writes_of(r@) == draw_writes(cave, draw_addr, surf_mgr, gsr_addr, prologue@),
{
    let round: u32 = address(cave, OFF_TRAMPOLINE);
    let mut out: Vec<Write> = Vec::new();
    assert(writes_of(out@) == Seq::<WriteModel>::empty());
    push_write(&mut out, round, build_trampoline(prologue, round, gsr_addr));
    push_write(&mut out, cave, build_draw_hook_v2(cave, draw_addr, round, surf_mgr));
    push_write(&mut out, address(cave, OFF_DRAW_ADDR), number(draw_addr));
    push_write(&mut out, address(cave, OFF_GSR_ORIG), number(round));
    push_write(&mut out, address(cave, OFF_SURF_MGR), number(surf_mgr));
    push_write(&mut out, address(cave, OFF_COUNT), number(0));
    push_write(&mut out, address(cave, OFF_HOVER_ID), number(0));
    push_write(&mut out, address(cave, OFF_MAP), zero_bytes(64));
    push_write(&mut out, address(cave, OFF_SURF_PTRS), zero_bytes(32));
    push_write(&mut out, address(cave, OFF_HL_SURFS), zero_bytes(32));
    push_write(&mut out, address(cave, OFF_LEARNED), number(0));
    push_write(&mut out, address(cave, OFF_ELEM_PTR), number(0));
    out
}

/// The call of the drawing cave that replaces the drawing call.
pub fn build_draw_call(cave: u32) -> (r: Vec<u8>)
    ensures
        r@ == call_code(DRAW_CALL_SITE, cave),
{
    let mut out: Vec<u8> = Vec::new();
    emit_call(&mut out, DRAW_CALL_SITE, cave);
    proof {
        assert(offset(DRAW_CALL_SITE, 0) == DRAW_CALL_SITE);
        assert(out@ == call_code(DRAW_CALL_SITE, cave));
    }
    out
}

/// What is written into the copying cave, in order: the code, zeros for the
/// places on the screen, the number of pictures and where their surfaces lie.
pub open spec fn blit_writes(blit_cave: u32, draw_cave: u32, prologue: Seq<u8>) -> Seq<WriteModel> {
    seq![
        write_at(
            blit_cave,
            blit_code(blit_cave, offset(BLIT_B_ADDR, prologue.len() as int), prologue),
        ),
        write_at(offset(blit_cave, BLIT_OFF_SCREEN_POS as int), zeros(64)),
        write_at(offset(blit_cave, BLIT_OFF_COUNT as int), le32(0)),
        write_at(
            offset(blit_cave, BLIT_OFF_SURF_PTRS_ADDR as int),
            le32(offset(draw_cave, OFF_SURF_PTRS as int)),
        ),
    ]
}

/// What is written into the copying cave, in order.
pub fn plan_blit(blit_cave: u32, draw_cave: u32, prologue: &[u8]) -> (r: Vec<Write>)
    requires
        prologue@.len() <= 8,
    ensures
        writes_of(r@) == blit_writes(blit_cave, draw_cave, prologue@),
{
    let retn: u32 = address(BLIT_B_ADDR, prologue.len() as u32);
    let mut out: Vec<Write> = Vec::new();
    assert(writes_of(out@) == Seq::<WriteModel>::empty());
    push_write(&mut out, blit_cave, build_blit_hook(blit_cave, retn, prologue));
    push_write(&mut out, address(blit_cave, BLIT_OFF_SCREEN_POS), zero_bytes(64));
    push_write(&mut out, address(blit_cave, BLIT_OFF_COUNT), number(0));
    push_write(
        &mut out,
        address(blit_cave, BLIT_OFF_SURF_PTRS_ADDR),
        number(address(draw_cave, OFF_SURF_PTRS)),
    );
    out
}

/// The jump to the copying cave that replaces the copying function's first
/// instructions of `n` bytes.
pub fn build_blit_jump(blit_cave: u32, n: usize) -> (r: Vec<u8>)
    requires
        n >= 5,
    ensures
        r@ == padded_jump(BLIT_B_ADDR, blit_cave, (n - 5) as nat),
{
    build_padded_jump(BLIT_B_ADDR, blit_cave, n - 5)
}

} // verus!

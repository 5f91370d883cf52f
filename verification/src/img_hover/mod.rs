//! Highlighted pictures in the client's dialogs.
//!
//! Two functions of the client are hooked. The one that draws a surface learns,
//! while a dialog opens, which surfaces belong to pictures with a highlighted
//! form, and later draws that form in place of the one under the cursor. The
//! one that copies a surface to the screen records where it went.

pub mod code;
pub mod install;
pub mod laws;
pub mod poll;
pub mod tags;

use vstd::prelude::*;
use crate::code::address;
#[allow(unused_imports)]
use crate::code::offset;

verus! {

/// The call that names the surface function and its manager.
pub const GSR_CALL_SITE: u32 = 0x004263AB;

/// The call that draws a surface.
pub const DRAW_CALL_SITE: u32 = 0x00491174;

/// The function that copies a surface to the screen.
pub const BLIT_B_ADDR: u32 = 0x00555CE0;

/// The size of the drawing cave.
pub const DRAW_CAVE_SIZE: usize = 0x200;

/// The size of the copying cave.
pub const BLIT_CAVE_SIZE: usize = 0x100;

// Where the drawing cave holds what.
pub const OFF_DRAW_ADDR: u32 = 0x100;

pub const OFF_GSR_ORIG: u32 = 0x104;

pub const OFF_SURF_MGR: u32 = 0x108;

/// The number of pictures.
pub const OFF_COUNT: u32 = 0x10C;

/// The surface under the cursor.
pub const OFF_HOVER_ID: u32 = 0x110;

/// The numbers of each picture and of its highlighted form.
pub const OFF_MAP: u32 = 0x120;

/// The surface of each picture.
pub const OFF_SURF_PTRS: u32 = 0x160;

/// The surface of each highlighted form.
pub const OFF_HL_SURFS: u32 = 0x180;

/// How many pictures have been learned.
pub const OFF_LEARNED: u32 = 0x1A0;

/// The element drawn last while learning.
pub const OFF_ELEM_PTR: u32 = 0x1A4;

/// The way into the surface function round the hook.
pub const OFF_TRAMPOLINE: u32 = 0x1C0;

/// Where the copying cave records each picture's place on the screen.
pub const BLIT_OFF_SCREEN_POS: u32 = 0x80;

pub const BLIT_OFF_COUNT: u32 = 0x60;

/// Where the copying cave keeps the address of the pictures' surfaces.
pub const BLIT_OFF_SURF_PTRS_ADDR: u32 = 0x64;

/// How many pictures there is room for.
pub const MAX_HOVER_ENTRIES: usize = 8;

/// Where the number of pictures lies in a drawing cave.
pub fn hover_count_addr(cave_draw: u32) -> (r: u32)
    ensures
        r == offset(cave_draw, OFF_COUNT as int),
{
    address(cave_draw, OFF_COUNT)
}

} // verus!

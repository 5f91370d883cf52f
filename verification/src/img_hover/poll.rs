//! The surface under the cursor.

use vstd::prelude::*;
use crate::code::{address, emit32, read32};
#[allow(unused_imports)]
use crate::code::{from_le32, le32, offset};
use crate::img_hover::{
    BLIT_OFF_COUNT, BLIT_OFF_SCREEN_POS, MAX_HOVER_ENTRIES, OFF_COUNT, OFF_HL_SURFS, OFF_LEARNED,
    OFF_MAP, OFF_SURF_PTRS,
};
use crate::memory::{push_write, zero_bytes, Write};
#[allow(unused_imports)]
use crate::memory::{write_at, writes_of, zeros, WriteModel};

verus! {

/// The shift of the screen against the window at the start.
pub const CALIB_OFF_X: i64 = -121;

/// The shift of the screen against the window at the start.
pub const CALIB_OFF_Y: i64 = -94;

/// The largest shift in either direction.
pub const MAX_SHIFT: i64 = 0x100_0000_0000;

/// Whether the pictures are looked for at this tick: every tenth, while there
/// are none.
pub fn wants_scan(count: u32, tick: u32) -> (r: bool)
    ensures
        r == (count == 0 && tick % 10 == 0),
{
    count == 0 && tick % 10 == 0
}

/// A number as one with a sign.
pub open spec fn signed(x: u32) -> int {
    if x < 0x8000_0000 {
        x as int
    } else {
        x - 0x1_0000_0000
    }
}

fn read_signed(d: &[u8], at: usize) -> (r: i64)
    requires
        at + 4 <= d@.len(),
    ensures
        r == signed(from_le32(d@.subrange(at as int, at + 4))),
        -0x8000_0000 <= r < 0x8000_0000,
{
    let x: u32 = read32(d, at);
    if x < 0x8000_0000 {
        x as i64
    } else {
        x as i64 - 0x1_0000_0000
    }
}

/// Half of a number, rounded towards zero.
pub open spec fn half(x: int) -> int {
    if x >= 0 {
        x / 2
    } else {
        -((-x) / 2)
    }
}

fn half_of(x: i64) -> (r: i64)
    requires
        -0x1000_0000_0000 <= x <= 0x1000_0000_0000,
    ensures
        r == half(x as int),
{
    if x >= 0 {
        (x as u64 / 2) as i64
    } else {
        -(((-x) as u64 / 2) as i64)
    }
}

/// Where a coordinate of the screen lies in the window.
pub open spec fn client(v: int, shift: int) -> int {
    half(3 * v) + shift
}

/// Where the i-th picture lies on the screen.
pub open spec fn place_of(pos: Seq<u8>, i: int) -> (int, int) {
    (
        signed(from_le32(pos.subrange(8 * i, 8 * i + 4))),
        signed(from_le32(pos.subrange(8 * i + 4, 8 * i + 8))),
    )
}

/// The picture is shown and the cursor is over it: 60 by 80 on the screen.
pub open spec fn covers(p: (int, int), cursor: (int, int), shift: (int, int)) -> bool {
    &&& !(p.0 == 0 && p.1 == 0)
    &&& client(p.0, shift.0) <= cursor.0 < client(p.0 + 60, shift.0)
    &&& client(p.1, shift.1) <= cursor.1 < client(p.1 + 80, shift.1)
}

/// A shift that can be reckoned with.
pub open spec fn shift_ok(x: int) -> bool {
    -MAX_SHIFT <= x <= MAX_SHIFT
}

fn client_of(v: i64, shift: i64) -> (r: i64)
    requires
        -0x1_0000_0000 <= v <= 0x1_0000_0000,
        shift_ok(shift as int),
    ensures
        r == client(v as int, shift as int),
{
    half_of(3 * v) + shift
}

/// The first of the `n` pictures that the cursor is over.
pub fn hovered_index(
    pos: &[u8],
    n: usize,
    cursor_x: i32,
    cursor_y: i32,
    shift_x: i64,
    shift_y: i64,
) -> (r: Option<usize>)
    requires
        8 * n <= pos@.len(),
        shift_ok(shift_x as int),
        shift_ok(shift_y as int),
    ensures
        ({
            let cursor = (cursor_x as int, cursor_y as int);
            let shift = (shift_x as int, shift_y as int);
            match r {
                Some(i) => {
                    &&& i < n
                    &&& covers(place_of(pos@, i as int), cursor, shift)
                    &&& forall|k: int| 0 <= k < i ==> !covers(
                        #[trigger] place_of(pos@, k),
                        cursor,
                        shift,
                    )
                },
                None => forall|k: int| 0 <= k < n ==> !covers(
                    #[trigger] place_of(pos@, k),
                    cursor,
                    shift,
                ),
            }
        }),
{
    let mut i: usize = 0;
    while i < n
        invariant
            i <= n,
            8 * n <= pos@.len(),
            pos.len() == pos@.len(),
            shift_ok(shift_x as int),
            shift_ok(shift_y as int),
            forall|k: int|
                0 <= k < i ==> !covers(
                    #[trigger] place_of(pos@, k),
                    (cursor_x as int, cursor_y as int),
                    (shift_x as int, shift_y as int),
                ),
        decreases n - i,
    {
        let sx: i64 = read_signed(pos, 8 * i);
        let sy: i64 = read_signed(pos, 8 * i + 4);
        assert(place_of(pos@, i as int) == (sx as int, sy as int));
        if !(sx == 0 && sy == 0) {
            let cx: i64 = cursor_x as i64;
            let cy: i64 = cursor_y as i64;
            if cx >= client_of(sx, shift_x) && cx < client_of(sx + 60, shift_x) && cy >= client_of(
                sy,
                shift_y,
            ) && cy < client_of(sy + 80, shift_y) {
                return Some(i);
            }
        }
        i += 1;
    }
    None
}

/// Where the surface of the i-th picture lies.
pub fn surface_addr(cave_draw: u32, i: usize) -> (r: u32)
    requires
        i < 0x1000_0000,
    ensures
        r == offset(cave_draw, OFF_SURF_PTRS + 4 * i),
{
    address(cave_draw, OFF_SURF_PTRS + 4 * (i as u32))
}

/// How far the cursor is from the middle of a picture, across and down.
pub open spec fn distance_to(p: (int, int), cursor: (int, int), shift: (int, int)) -> int {
    let dx = cursor.0 - client(p.0 + 30, shift.0);
    let dy = cursor.1 - client(p.1 + 40, shift.1);
    (if dx >= 0 {
        dx
    } else {
        -dx
    }) + (if dy >= 0 {
        dy
    } else {
        -dy
    })
}

/// The picture nearest to the cursor among the first `k` that are shown, the
/// first of several, and its distance. The first picture where none is nearer
/// than 2^31 - 1.
pub open spec fn nearest(pos: Seq<u8>, k: nat, cursor: (int, int), shift: (int, int)) -> (int, int)
    decreases k,
{
    if k == 0 {
        (0, 0x7fff_ffff)
    } else {
        let best = nearest(pos, (k - 1) as nat, cursor, shift);
        let p = place_of(pos, k - 1);
        if !(p.0 == 0 && p.1 == 0) && distance_to(p, cursor, shift) < best.1 {
            (k - 1, distance_to(p, cursor, shift))
        } else {
            best
        }
    }
}

/// The shift at which the picture nearest to the cursor has its middle under
/// the cursor. `None` where there are no pictures.
pub fn calibrate(
    pos: &[u8],
    n: usize,
    cursor_x: i32,
    cursor_y: i32,
    shift_x: i64,
    shift_y: i64,
) -> (r: Option<(i64, i64)>)
    requires
        8 * n <= pos@.len(),
        shift_ok(shift_x as int),
        shift_ok(shift_y as int),
    ensures
        ({
            let cursor = (cursor_x as int, cursor_y as int);
            let shift = (shift_x as int, shift_y as int);
            let p = place_of(pos@, nearest(pos@, n as nat, cursor, shift).0);
            match r {
                Some(s) => {
                    &&& n > 0
                    &&& s.0 == cursor.0 - half(3 * (p.0 + 30))
                    &&& s.1 == cursor.1 - half(3 * (p.1 + 40))
                    &&& shift_ok(s.0 as int)
                    &&& shift_ok(s.1 as int)
                },
                None => n == 0,
            }
        }),
{
    if n == 0 {
        return None;
    }
    let mut best: usize = 0;
    let mut dist: i64 = 0x7fff_ffff;
    let mut i: usize = 0;
    while i < n
        invariant
            n > 0,
            i <= n,
            best < n,
            8 * n <= pos@.len(),
            pos.len() == pos@.len(),
            shift_ok(shift_x as int),
            shift_ok(shift_y as int),
            nearest(
                pos@,
                i as nat,
                (cursor_x as int, cursor_y as int),
                (shift_x as int, shift_y as int),
            ) == (best as int, dist as int),
        decreases n - i,
    {
        let sx: i64 = read_signed(pos, 8 * i);
        let sy: i64 = read_signed(pos, 8 * i + 4);
        assert(place_of(pos@, i as int) == (sx as int, sy as int));
        if !(sx == 0 && sy == 0) {
            let dx: i64 = cursor_x as i64 - client_of(sx + 30, shift_x);
            let dy: i64 = cursor_y as i64 - client_of(sy + 40, shift_y);
            let ax: i64 = if dx >= 0 {
                dx
            } else {
                -dx
            };
            let ay: i64 = if dy >= 0 {
                dy
            } else {
                -dy
            };
            if ax + ay < dist {
                dist = ax + ay;
                best = i;
            }
        }
        i += 1;
    }
    let sx: i64 = read_signed(pos, 8 * best);
    let sy: i64 = read_signed(pos, 8 * best + 4);
    assert(place_of(pos@, best as int) == (sx as int, sy as int));
    Some((cursor_x as i64 - half_of(3 * (sx + 30)), cursor_y as i64 - half_of(3 * (sy + 40))))
}

/// After a calibration the cursor is over the picture that was nearest, where
/// that picture is shown.
pub proof fn law_calibrated_is_covered(p: (int, int), cursor: (int, int))
    requires
        !(p.0 == 0 && p.1 == 0),
    ensures
        covers(p, cursor, (cursor.0 - half(3 * (p.0 + 30)), cursor.1 - half(3 * (p.1 + 40)))),
{
}

/// How many pictures fit.
pub open spec fn fitting(n: nat) -> nat {
    if n <= MAX_HOVER_ENTRIES {
        n
    } else {
        MAX_HOVER_ENTRIES as nat
    }
}

/// The writes of the first `k` pictures' numbers.
pub open spec fn entry_writes(cave: u32, mappings: Seq<(u32, u32)>, k: nat) -> Seq<WriteModel>
    decreases k,
{
    if k == 0 {
        seq![]
    } else {
        let at = OFF_MAP + 8 * (k - 1);
        entry_writes(cave, mappings, (k - 1) as nat).push(
            write_at(offset(cave, at), le32(mappings[k - 1].0)),
        ).push(write_at(offset(cave, at + 4), le32(mappings[k - 1].1)))
    }
}

/// What is written to make the pictures known, in order. Everything that has
/// been learned is forgotten.
pub open spec fn map_writes(cave: u32, blit_cave: u32, mappings: Seq<(u32, u32)>) -> Seq<WriteModel> {
    let n = fitting(mappings.len());
    let known = seq![write_at(offset(cave, OFF_COUNT as int), le32(n as u32))] + entry_writes(
        cave,
        mappings,
        n,
    ) + seq![
        write_at(offset(cave, OFF_SURF_PTRS as int), zeros(4 * n)),
        write_at(offset(cave, OFF_HL_SURFS as int), zeros(4 * n)),
        write_at(offset(cave, OFF_LEARNED as int), le32(0)),
    ];
    if blit_cave == 0 {
        known
    } else {
        known + seq![
            write_at(offset(blit_cave, BLIT_OFF_COUNT as int), le32(n as u32)),
            write_at(offset(blit_cave, BLIT_OFF_SCREEN_POS as int), zeros(8 * n)),
        ]
    }
}

fn number(x: u32) -> (r: Vec<u8>)
    ensures
        r@ == le32(x),
{
    let mut out: Vec<u8> = Vec::new();
    emit32(&mut out, x);
    assert(out@ == le32(x));
    out
}

/// What is written to make the pictures known, in order.
pub fn plan_map(cave_draw: u32, blit_cave: u32, mappings: &[(u32, u32)]) -> (r: Vec<Write>)
    ensures
        writes_of(r@) == map_writes(cave_draw, blit_cave, mappings@),
{
    let n: usize = if mappings.len() <= MAX_HOVER_ENTRIES {
        mappings.len()
    } else {
        MAX_HOVER_ENTRIES
    };
    let mut out: Vec<Write> = Vec::new();
    push_write(&mut out, address(cave_draw, OFF_COUNT), number(n as u32));
    let ghost first = seq![write_at(offset(cave_draw, OFF_COUNT as int), le32(n as u32))];
    assert(writes_of(out@) == first + entry_writes(cave_draw, mappings@, 0));
    let mut i: usize = 0;
    while i < n
        invariant
            i <= n,
            n <= 8,
            n <= mappings@.len(),
            mappings.len() == mappings@.len(),
            first == seq![write_at(offset(cave_draw, OFF_COUNT as int), le32(n as u32))],
            writes_of(out@) == first + entry_writes(cave_draw, mappings@, i as nat),
        decreases n - i,
    {
        let ghost before = entry_writes(cave_draw, mappings@, i as nat);
        let at: u32 = OFF_MAP + 8 * (i as u32);
        push_write(&mut out, address(cave_draw, at), number(mappings[i].0));
        push_write(&mut out, address(cave_draw, at + 4), number(mappings[i].1));
        proof {
            let a = write_at(offset(cave_draw, at as int), le32(mappings@[i as int].0));
            let b = write_at(offset(cave_draw, at + 4), le32(mappings@[i as int].1));
            assert(entry_writes(cave_draw, mappings@, (i + 1) as nat) == before.push(a).push(b));
            assert(first + before.push(a).push(b) == (first + before).push(a).push(b));
        }
        i += 1;
    }
    let ghost entries = writes_of(out@);
    push_write(&mut out, address(cave_draw, OFF_SURF_PTRS), zero_bytes(4 * n));
    push_write(&mut out, address(cave_draw, OFF_HL_SURFS), zero_bytes(4 * n));
    push_write(&mut out, address(cave_draw, OFF_LEARNED), number(0));
    let ghost known = entries + seq![
        write_at(offset(cave_draw, OFF_SURF_PTRS as int), zeros(4 * n as nat)),
        write_at(offset(cave_draw, OFF_HL_SURFS as int), zeros(4 * n as nat)),
        write_at(offset(cave_draw, OFF_LEARNED as int), le32(0)),
    ];
    assert(writes_of(out@) == known);
    if blit_cave != 0 {
        push_write(&mut out, address(blit_cave, BLIT_OFF_COUNT), number(n as u32));
        push_write(&mut out, address(blit_cave, BLIT_OFF_SCREEN_POS), zero_bytes(8 * n));
        assert(writes_of(out@) == known + seq![
            write_at(offset(blit_cave, BLIT_OFF_COUNT as int), le32(n as u32)),
            write_at(offset(blit_cave, BLIT_OFF_SCREEN_POS as int), zeros(8 * n as nat)),
        ]);
    }
    out
}

/// Whether a window is the client's: it belongs to the process, has a title and
/// stands in no other window.
pub fn is_main_window(owner: u32, pid: u32, title_len: i32, parent: i64) -> (r: bool)
    ensures
        r == (owner == pid && title_len > 0 && parent == 0),
{
    owner == pid && title_len > 0 && parent == 0
}

} // verus!

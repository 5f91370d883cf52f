//! Redirection of the client's connections.
//!
//! The first bytes of a connecting function are replaced by a jump to a cave.
//! The code in the cave writes the server's address into the socket address,
//! runs the replaced bytes and jumps back behind them.

use vstd::prelude::*;
use crate::code::{begins_with_jump, build_jump, emit, emit32, emit_jump, offset_by};
#[allow(unused_imports)]
use crate::code::{jump_code, le32, offset, short_jump};
use crate::text::{chars_of, joined, own, parse_u8, split, string_of};
#[allow(unused_imports)]
use crate::text::{parse_dec, rows, split_of};
use vstd::slice::slice_subrange;

verus! {

broadcast use {crate::code::lemma_call_len, crate::code::lemma_jump_len};

/// How many bytes of a connecting function are replaced.
pub const HOOK_SIZE: usize = 5;

/// The size of a cave.
pub const CAVE_SIZE: usize = 96;

/// How often the socket library is looked for, a tenth of a second apart.
pub const MODULE_POLLS: u32 = 600;

/// Why no connecting function could be redirected.
#[derive(Debug, Clone, PartialEq, Eq)]
pub enum HookError {
    /// The address has not four parts.
    PartCount(String),
    /// A part of the address is no number below 256.
    Segment(String),
    /// The socket library was not loaded in time.
    ModuleMissing,
    /// None of the functions is exported.
    NothingHooked,
}

impl HookError {
    /// The message for the user.
    pub fn to_string(&self) -> (r: String)
        ensures
            r@ == (match *self {
                HookError::PartCount(s) => "invalid IPv4: "@ + s@,
                HookError::Segment(s) => "invalid IPv4 segment: "@ + s@,
                HookError::ModuleMissing => "ws2_32.dll not loaded after 60s"@,
                HookError::NothingHooked =>
                    "connect/WSAConnect hook install failed: no exports hooked"@,
            }),
    {
        match self {
            HookError::PartCount(s) => joined("invalid IPv4: ", s.as_str()),
            HookError::Segment(s) => joined("invalid IPv4 segment: ", s.as_str()),
            HookError::ModuleMissing => own("ws2_32.dll not loaded after 60s"),
            HookError::NothingHooked => own(
                "connect/WSAConnect hook install failed: no exports hooked",
            ),
        }
    }
}

/// The part at `i` is the first one of an address that is no number below 256.
pub open spec fn first_bad_part(parts: Seq<Seq<char>>, i: int) -> bool {
    &&& 0 <= i < parts.len()
    &&& parse_dec(parts[i], 255) is None
    &&& forall|k: int| 0 <= k < i ==> parse_dec(#[trigger] parts[k], 255) is Some
}

/// The four bytes of an address in dotted form.
pub fn parse_ip(ip: &str) -> (r: Result<[u8; 4], HookError>)
    ensures
        ({
            let parts = split_of(ip@, '.');
            match r {
                Ok(b) => parts.len() == 4 && forall|i: int|
                    0 <= i < 4 ==> parse_dec(#[trigger] parts[i], 255) == Some(b@[i] as nat),
                Err(HookError::PartCount(s)) => s@ == ip@ && parts.len() != 4,
                Err(HookError::Segment(s)) => parts.len() == 4 && exists|i: int| #[trigger]
                    first_bad_part(parts, i) && s@ == parts[i],
                Err(_) => false,
            }
        }),
{
    let cs = chars_of(ip);
    let parts = split(cs.as_slice(), '.');
    if parts.len() != 4 {
        return Err(HookError::PartCount(string_of(cs.as_slice())));
    }
    let mut bytes: [u8; 4] = [0, 0, 0, 0];
    let mut i: usize = 0;
    while i < 4
        invariant
            i <= 4,
            parts@.len() == 4,
            parts.len() == 4,
            rows(parts@) == split_of(ip@, '.'),
            forall|k: int|
                0 <= k < i ==> parse_dec(#[trigger] rows(parts@)[k], 255) == Some(bytes@[k] as nat),
        decreases 4 - i,
    {
        assert(rows(parts@)[i as int] == parts@[i as int]@);
        match parse_u8(parts[i].as_slice()) {
            Some(b) => {
                bytes[i] = b;
            },
            None => {
                assert(first_bad_part(split_of(ip@, '.'), i as int));
                return Err(HookError::Segment(string_of(parts[i].as_slice())));
            },
        }
        i += 1;
    }
    Ok(bytes)
}

/// The two bytes of a port, the higher one first.
pub fn port_bytes(port: u16) -> (r: [u8; 2])
    ensures
        r@ == seq![(port / 256) as u8, (port % 256) as u8],
{
    [(port / 256) as u8, (port % 256) as u8]
}

/// The code that redirects: for an IPv4 address it writes the port and the
/// address and, where `hover` is given, clears the number at it.
pub open spec fn redirect_code(ip: Seq<u8>, port: Seq<u8>, hover: u32) -> Seq<u8> {
    let skip: u8 = if hover != 0 {
        23
    } else {
        13
    };
    let clear = if hover != 0 {
        seq![0xC7u8, 0x05] + le32(hover) + le32(0)
    } else {
        seq![]
    };
    seq![0x60u8, 0x8B, 0x44, 0x24, 0x28, 0x66, 0x83, 0x38, 0x02, 0x75, skip] + seq![
        0x66u8,
        0xC7,
        0x40,
        0x02,
    ] + port + seq![0xC7u8, 0x40, 0x04] + ip + clear + seq![0x61u8]
}

/// The code of the cave: the redirection, the replaced bytes and the jump back.
pub open spec fn connect_code(
    ip: Seq<u8>,
    port: Seq<u8>,
    original: Seq<u8>,
    connect_addr: u32,
    cave_addr: u32,
    hover: u32,
) -> Seq<u8> {
    let head = redirect_code(ip, port, hover) + original;
    head + jump_code(
        offset(cave_addr, head.len() as int),
        offset(connect_addr, original.len() as int),
    )
}

/// The code of the cave: the redirection, the replaced bytes and the jump back.
pub fn build_shellcode(
    ip_bytes: [u8; 4],
    port_be: [u8; 2],
    original_bytes: &[u8],
    connect_addr: u32,
    cave_addr: u32,
    hover_count_addr: u32,
) -> (r: Vec<u8>)
    ensures
        r@ == connect_code(
            ip_bytes@,
            port_be@,
            original_bytes@,
            connect_addr,
            cave_addr,
            hover_count_addr,
        ),
{
    let mut out: Vec<u8> = Vec::new();
    let skip: u8 = if hover_count_addr != 0 {
        23
    } else {
        13
    };
    emit(&mut out, &[0x60, 0x8B, 0x44, 0x24, 0x28, 0x66, 0x83, 0x38, 0x02, 0x75, skip]);
    emit(&mut out, &[0x66, 0xC7, 0x40, 0x02]);
    emit(&mut out, &port_be);
    emit(&mut out, &[0xC7, 0x40, 0x04]);
    emit(&mut out, &ip_bytes);
    if hover_count_addr != 0 {
        emit(&mut out, &[0xC7, 0x05]);
        emit32(&mut out, hover_count_addr);
        emit32(&mut out, 0);
    }
    emit(&mut out, &[0x61]);
    assert(out@ == redirect_code(ip_bytes@, port_be@, hover_count_addr));
    emit(&mut out, original_bytes);
    emit_jump(&mut out, cave_addr, offset_by(connect_addr, original_bytes.len()));
    out
}

/// The jump over the redirection leads to the instruction that restores the
/// registers, and the last instruction leads behind the replaced bytes.
pub proof fn law_connect_code_returns(
    ip: Seq<u8>,
    port: Seq<u8>,
    original: Seq<u8>,
    connect_addr: u32,
    cave_addr: u32,
    hover: u32,
)
    requires
        ip.len() == 4,
        port.len() == 2,
    ensures
        ({
            let c = connect_code(ip, port, original, connect_addr, cave_addr, hover);
            let n = c.len();
            let skip = short_jump(c, 11);
            &&& c[skip] == 0x61
            &&& n == skip + 1 + original.len() + 5
            &&& c.subrange(skip + 1, n - 5) == original
            &&& c.subrange(n - 5, n as int) == jump_code(
                offset(cave_addr, n - 5),
                offset(connect_addr, original.len() as int),
            )
            &&& original.len() == HOOK_SIZE ==> n <= CAVE_SIZE
        }),
{
    let head = redirect_code(ip, port, hover) + original;
    let c = connect_code(ip, port, original, connect_addr, cave_addr, hover);
    let n = c.len();
    let skip = short_jump(c, 11);
    assert(c.subrange(skip + 1, n - 5) == original);
    assert(c.subrange(n - 5, n as int) == jump_code(
        offset(cave_addr, n - 5),
        offset(connect_addr, original.len() as int),
    ));
}

/// What is written to redirect a connecting function: the code of the cave and
/// the jump to it. Nothing where the function begins with a jump already.
pub fn plan_redirect(
    original: &[u8],
    connect_addr: u32,
    cave_addr: u32,
    ip_bytes: [u8; 4],
    port: u16,
    hover_count_addr: u32,
) -> (r: Option<(Vec<u8>, Vec<u8>)>)
    requires
        original@.len() >= HOOK_SIZE,
    ensures
        match r {
            Some(p) => {
                &&& original@[0] != 0xE9
                &&& p.0@ == connect_code(
                    ip_bytes@,
                    seq![(port / 256) as u8, (port % 256) as u8],
                    original@.take(HOOK_SIZE as int),
                    connect_addr,
                    cave_addr,
                    hover_count_addr,
                )
                &&& p.1@ == jump_code(connect_addr, cave_addr)
            },
            None => original@[0] == 0xE9,
        },
{
    if begins_with_jump(original) {
        return None;
    }
    let head = slice_subrange(original, 0, HOOK_SIZE);
    assert(head@ == original@.take(HOOK_SIZE as int));
    let port_be: [u8; 2] = port_bytes(port);
    let code = build_shellcode(
        ip_bytes,
        port_be,
        head,
        connect_addr,
        cave_addr,
        hover_count_addr,
    );
    Some((code, build_jump(connect_addr, cave_addr)))
}

/// What is done once the socket library was looked for.
#[derive(Debug, Clone, Copy, PartialEq, Eq, Structural)]
pub enum ModuleWait {
    /// It is loaded there.
    Found(u32),
    /// It is looked for once more, after a while.
    Again,
    /// It was looked for often enough.
    Missing,
}

/// What is done once the socket library was looked for, so often without success
/// before.
pub fn module_wait(found: Option<u32>, polls: u32) -> (r: ModuleWait)
    ensures
        r == (match found {
            Some(base) => ModuleWait::Found(base),
            None => if polls + 1 < MODULE_POLLS {
                ModuleWait::Again
            } else {
                ModuleWait::Missing
            },
        }),
{
    match found {
        Some(base) => ModuleWait::Found(base),
        None => if polls < MODULE_POLLS - 1 {
            ModuleWait::Again
        } else {
            ModuleWait::Missing
        },
    }
}

/// Whether the installation has succeeded, from which of the two functions are
/// redirected.
pub fn installed(connect_ok: bool, wsa_ok: bool) -> (r: Result<(), HookError>)
    ensures
        match r {
            Ok(_) => connect_ok || wsa_ok,
            Err(HookError::NothingHooked) => !connect_ok && !wsa_ok,
            Err(_) => false,
        },
{
    if !connect_ok && !wsa_ok {
        Err(HookError::NothingHooked)
    } else {
        Ok(())
    }
}

} // verus!

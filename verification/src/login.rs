//! The client's login hooks.
//!
//! One cave holds the account, the password, the packet's format and three
//! runs of code: one keeps the account that was typed, one keeps each byte of
//! the password, and one sends the login packet with both.

use vstd::prelude::*;
use crate::code::{address, build_padded_jump, emit, emit32, emit_call, emit_jump};
#[allow(unused_imports)]
use crate::code::{call_code, jump_code, le32, offset, padded_jump, short_jump};
use crate::memory::{push_write, zero_bytes, Write};
#[allow(unused_imports)]
use crate::memory::{write_at, writes_of, zeros, WriteModel};

verus! {

broadcast use {crate::code::lemma_call_len, crate::code::lemma_jump_len};

pub const USER_HOOK_ADDR: u32 = 0x0077317D;

pub const USER_RETN_ADDR: u32 = 0x00773183;

pub const PASS_HOOK_ADDR: u32 = 0x004AA38E;

pub const PASS_RETN_ADDR: u32 = 0x004AA395;

pub const LOGIN77_HOOK_ADDR: u32 = 0x00772E07;

pub const LOGIN77_RETN_ADDR: u32 = 0x00772E77;

/// The first byte of the login packet.
pub const LOGIN77_OPCODE: u32 = 0x77;

/// The client's decoder of a password byte.
pub const PASS_BYTE_CONVERTER: u32 = 0x00402800;

/// The client's packet sender.
pub const SEND_PACKET_DATA: u32 = 0x00580E50;

/// The size of the cave.
pub const CAVE_SIZE: usize = 1024;

/// Where the account lies in the cave.
pub const G_ID_OFF: u32 = 0x000;

/// Where the password lies in the cave.
pub const G_PWD_OFF: u32 = 0x080;

/// Where the length of the password lies in the cave.
pub const G_PWD_POS_OFF: u32 = 0x100;

/// Where the packet's format lies in the cave.
pub const G_FMT_OFF: u32 = 0x110;

pub const USER_CODE_OFF: u32 = 0x120;

pub const PASS_CODE_OFF: u32 = 0x180;

pub const LOGIN77_CODE_OFF: u32 = 0x280;

/// The packet's format, `cssddddddd`, with its terminator.
pub open spec fn packet_format() -> Seq<u8> {
    seq![0x63u8, 0x73, 0x73, 0x64, 0x64, 0x64, 0x64, 0x64, 0x64, 0x64, 0]
}

/// The instructions that copy 32 bytes of the account.
pub open spec fn user_body(cave: u32) -> Seq<u8> {
    seq![0x8Du8, 0x85, 0x68, 0xFF, 0xFF, 0xFF, 0x60, 0x8B, 0xF0, 0xBF] + le32(
        offset(cave, G_ID_OFF as int),
    ) + seq![0xB9u8] + le32(32) + seq![0xFCu8, 0xF3, 0xA4, 0x61]
}

/// The code that copies 32 bytes of the account.
pub open spec fn user_code(cave: u32) -> Seq<u8> {
    user_body(cave) + jump_code(
        offset(offset(cave, USER_CODE_OFF as int), user_body(cave).len() as int),
        USER_RETN_ADDR,
    )
}

/// The code that copies 32 bytes of the account.
pub fn build_user_shellcode(cave: u32) -> (r: Vec<u8>)
    ensures
        r@ == user_code(cave),
{
    let mut out: Vec<u8> = Vec::new();
    emit(&mut out, &[0x8D, 0x85, 0x68, 0xFF, 0xFF, 0xFF, 0x60, 0x8B, 0xF0, 0xBF]);
    emit32(&mut out, address(cave, G_ID_OFF));
    emit(&mut out, &[0xB9]);
    emit32(&mut out, 32);
    emit(&mut out, &[0xFC, 0xF3, 0xA4, 0x61]);
    assert(out@ == user_body(cave));
    emit_jump(&mut out, address(cave, USER_CODE_OFF), USER_RETN_ADDR);
    out
}

/// The instructions that append a byte of the password. For the first byte they
/// clear the password before.
pub open spec fn pass_body(cave: u32) -> Seq<u8> {
    let pwd = offset(cave, G_PWD_OFF as int);
    let pos = offset(cave, G_PWD_POS_OFF as int);
    seq![0x8Bu8, 0x55, 0xF4, 0x8B, 0x4C, 0x8A, 0x3C, 0x60, 0xB8] + le32(
        PASS_BYTE_CONVERTER,
    ) + seq![0xFFu8, 0xD0, 0x8B, 0x0D] + le32(pos) + seq![
        0x85u8,
        0xC9,
        0x75,
        0x13,
        0x50,
        0x57,
        0xBF,
    ] + le32(pwd) + seq![
        0x33u8,
        0xC0,
        0xAB,
        0xAB,
        0xAB,
        0xAB,
        0xAB,
        0xAB,
        0xAB,
        0xAB,
        0x5F,
        0x58,
        0xBA,
    ] + le32(pwd) + seq![0x88u8, 0x04, 0x0A, 0x41, 0x89, 0x0D] + le32(pos) + seq![0x61u8]
}

/// The code that appends a byte of the password.
pub open spec fn pass_code(cave: u32) -> Seq<u8> {
    pass_body(cave) + jump_code(
        offset(offset(cave, PASS_CODE_OFF as int), pass_body(cave).len() as int),
        PASS_RETN_ADDR,
    )
}

/// The code that appends a byte of the password.
pub fn build_pass_shellcode(cave: u32) -> (r: Vec<u8>)
    ensures
        r@ == pass_code(cave),
{
    let pwd: u32 = address(cave, G_PWD_OFF);
    let pos: u32 = address(cave, G_PWD_POS_OFF);
    let mut out: Vec<u8> = Vec::new();
    emit(&mut out, &[0x8B, 0x55, 0xF4, 0x8B, 0x4C, 0x8A, 0x3C, 0x60, 0xB8]);
    emit32(&mut out, PASS_BYTE_CONVERTER);
    emit(&mut out, &[0xFF, 0xD0, 0x8B, 0x0D]);
    emit32(&mut out, pos);
    emit(&mut out, &[0x85, 0xC9, 0x75, 0x13, 0x50, 0x57, 0xBF]);
    emit32(&mut out, pwd);
    emit(
        &mut out,
        &[0x33, 0xC0, 0xAB, 0xAB, 0xAB, 0xAB, 0xAB, 0xAB, 0xAB, 0xAB, 0x5F, 0x58, 0xBA],
    );
    emit32(&mut out, pwd);
    emit(&mut out, &[0x88, 0x04, 0x0A, 0x41, 0x89, 0x0D]);
    emit32(&mut out, pos);
    emit(&mut out, &[0x61]);
    assert(out@ == pass_body(cave));
    emit_jump(&mut out, address(cave, PASS_CODE_OFF), PASS_RETN_ADDR);
    out
}

/// The instruction that pushes a number.
pub open spec fn push_code(value: u32) -> Seq<u8> {
    seq![0x68u8] + le32(value)
}

/// Appends the instruction that pushes a number.
pub fn push_imm32(sc: &mut Vec<u8>, value: u32)
    ensures
        final(sc)@ == old(sc)@ + push_code(value),
{
    let ghost start = sc@;
    emit(sc, &[0x68]);
    emit32(sc, value);
    assert(sc@ == start + push_code(value));
}

/// The instructions that push the arguments of a call, the last one first.
pub open spec fn pushes(args: Seq<u32>) -> Seq<u8>
    decreases args.len(),
{
    if args.len() == 0 {
        seq![]
    } else {
        push_code(args.last()) + pushes(args.drop_last())
    }
}

fn push_arguments(sc: &mut Vec<u8>, args: &[u32])
    ensures
        final(sc)@ == old(sc)@ + pushes(args@),
{
    let ghost start = sc@;
    let mut n: usize = args.len();
    proof {
        assert(args@.take(n as int) == args@);
    }
    while n > 0
        invariant
            n <= args@.len(),
            args.len() == args@.len(),
            start + pushes(args@) == sc@ + pushes(args@.take(n as int)),
        decreases n,
    {
        let ghost before = sc@;
        n -= 1;
        push_imm32(sc, args[n]);
        proof {
            let done = args@.take(n + 1);
            assert(done.last() == args@[n as int]);
            assert(done.drop_last() == args@.take(n as int));
            assert(before + (push_code(args@[n as int]) + pushes(args@.take(n as int))) == sc@
                + pushes(args@.take(n as int)));
        }
    }
    assert(sc@ + pushes(args@.take(0)) == sc@);
}

/// The arguments of the packet sender: the format, the opcode, the account, the
/// password, the address 127.0.0.1, five zeros and 0x1F.
pub open spec fn login_arguments(cave: u32) -> Seq<u32> {
    seq![
        offset(cave, G_FMT_OFF as int),
        LOGIN77_OPCODE,
        offset(cave, G_ID_OFF as int),
        offset(cave, G_PWD_OFF as int),
        0x0100007F,
        0,
        0,
        0,
        0,
        0,
        0x1F,
    ]
}

/// The instructions that clear the stack and forget the length of the password.
pub open spec fn login_end(cave: u32) -> Seq<u8> {
    seq![0x83u8, 0xC4, 0x2C, 0xC7, 0x05] + le32(offset(cave, G_PWD_POS_OFF as int)) + le32(0)
}

/// The instructions that send the login packet and forget the length of the
/// password.
pub open spec fn login_body(cave: u32) -> Seq<u8> {
    let args = pushes(login_arguments(cave));
    args + call_code(
        offset(offset(cave, LOGIN77_CODE_OFF as int), args.len() as int),
        SEND_PACKET_DATA,
    ) + login_end(cave)
}

/// The code that sends the login packet and forgets the length of the password.
pub open spec fn login_code(cave: u32) -> Seq<u8> {
    login_body(cave) + jump_code(
        offset(offset(cave, LOGIN77_CODE_OFF as int), login_body(cave).len() as int),
        LOGIN77_RETN_ADDR,
    )
}

fn build_login_end(cave: u32) -> (r: Vec<u8>)
    ensures
        r@ == login_end(cave),
{
    let mut out: Vec<u8> = Vec::new();
    emit(&mut out, &[0x83, 0xC4, 0x2C, 0xC7, 0x05]);
    emit32(&mut out, address(cave, G_PWD_POS_OFF));
    emit32(&mut out, 0);
    out
}

/// The code that sends the login packet.
pub fn build_login77_shellcode(cave: u32) -> (r: Vec<u8>)
    ensures
        r@ == login_code(cave),
{
    let here: u32 = address(cave, LOGIN77_CODE_OFF);
    let args: [u32; 11] = [
        address(cave, G_FMT_OFF),
        LOGIN77_OPCODE,
        address(cave, G_ID_OFF),
        address(cave, G_PWD_OFF),
        0x0100007F,
        0,
        0,
        0,
        0,
        0,
        0x1F,
    ];
    assert(args@ == login_arguments(cave));
    let mut out: Vec<u8> = Vec::new();
    push_arguments(&mut out, &args);
    assert(out@ == pushes(login_arguments(cave)));
    emit_call(&mut out, here, SEND_PACKET_DATA);
    let end = build_login_end(cave);
    emit(&mut out, end.as_slice());
    assert(out@ == login_body(cave));
    emit_jump(&mut out, here, LOGIN77_RETN_ADDR);
    out
}

proof fn lemma_pushes(args: Seq<u32>)
    ensures
        pushes(args).len() == 5 * args.len(),
    decreases args.len(),
{
    if args.len() > 0 {
        lemma_pushes(args.drop_last());
    }
}

/// The three runs of code keep within their places in the cave, and the jump
/// over the clearing of the password leads to the instruction behind it.
pub proof fn law_code_fits(cave: u32)
    ensures
        user_code(cave).len() == 28,
        USER_CODE_OFF + user_code(cave).len() <= PASS_CODE_OFF,
        pass_code(cave).len() == 65,
        PASS_CODE_OFF + pass_code(cave).len() <= LOGIN77_CODE_OFF,
        login_code(cave).len() == 78,
        LOGIN77_CODE_OFF + login_code(cave).len() <= CAVE_SIZE,
        short_jump(pass_code(cave), 25) == 44,
        pass_code(cave).subrange(44, 49) == seq![0xBAu8] + le32(offset(cave, G_PWD_OFF as int)),
{
    lemma_pushes(login_arguments(cave));
    assert(pass_code(cave).subrange(44, 49) == seq![0xBAu8] + le32(
        offset(cave, G_PWD_OFF as int),
    ));
}

/// The k-th argument of a call is pushed by the k-th instruction from the end.
pub proof fn law_arguments_in_order(args: Seq<u32>, k: int)
    requires
        0 <= k < args.len(),
    ensures
        pushes(args).len() == 5 * args.len(),
        pushes(args).subrange(5 * (args.len() - 1 - k), 5 * (args.len() - k)) == push_code(args[k]),
    decreases args.len(),
{
    lemma_pushes(args);
    lemma_pushes(args.drop_last());
    let n = args.len();
    if k == n - 1 {
        assert(pushes(args).subrange(0, 5) == push_code(args[k]));
    } else {
        law_arguments_in_order(args.drop_last(), k);
        assert(pushes(args).subrange(5 * (n - 1 - k), 5 * (n - k)) == pushes(
            args.drop_last(),
        ).subrange(5 * (n - 2 - k), 5 * (n - 1 - k)));
    }
}

/// What the cave holds: the format and the three runs of code in their places,
/// and zeros elsewhere.
pub open spec fn cave_image(cave: u32) -> Seq<u8> {
    zeros(0x110) + packet_format() + zeros(5) + user_code(cave) + zeros(0x44) + pass_code(cave)
        + zeros(0xBF) + login_code(cave) + zeros(0x132)
}

fn emit_zeros(out: &mut Vec<u8>, n: usize)
    ensures
        final(out)@ == old(out)@ + zeros(n as nat),
{
    let z = zero_bytes(n);
    emit(out, z.as_slice());
}

/// What the cave holds.
pub fn build_cave(cave: u32) -> (r: Vec<u8>)
    ensures
        r@ == cave_image(cave),
        r@.len() == CAVE_SIZE,
{
    let mut out: Vec<u8> = Vec::new();
    emit_zeros(&mut out, 0x110);
    let format: [u8; 11] = [0x63, 0x73, 0x73, 0x64, 0x64, 0x64, 0x64, 0x64, 0x64, 0x64, 0];
    assert(format@ == packet_format());
    emit(&mut out, &format);
    emit_zeros(&mut out, 5);
    let user = build_user_shellcode(cave);
    emit(&mut out, user.as_slice());
    emit_zeros(&mut out, 0x44);
    let pass = build_pass_shellcode(cave);
    emit(&mut out, pass.as_slice());
    emit_zeros(&mut out, 0xBF);
    let login = build_login77_shellcode(cave);
    emit(&mut out, login.as_slice());
    emit_zeros(&mut out, 0x132);
    proof {
        law_code_fits(cave);
        assert(out@ == cave_image(cave));
    }
    out
}

/// Everything in the cave lies where the code and the hooks expect it.
pub proof fn law_cave_places(cave: u32)
    ensures
        ({
            let c = cave_image(cave);
            &&& c.len() == CAVE_SIZE
            &&& c.subrange(0, G_FMT_OFF as int) == zeros(G_FMT_OFF as nat)
            &&& c.subrange(G_FMT_OFF as int, G_FMT_OFF + 11) == packet_format()
            &&& c.subrange(USER_CODE_OFF as int, USER_CODE_OFF + 28) == user_code(cave)
            &&& c.subrange(PASS_CODE_OFF as int, PASS_CODE_OFF + 65) == pass_code(cave)
            &&& c.subrange(LOGIN77_CODE_OFF as int, LOGIN77_CODE_OFF + 78) == login_code(cave)
        }),
{
    law_code_fits(cave);
    let c = cave_image(cave);
    assert(c.subrange(0, G_FMT_OFF as int) == zeros(G_FMT_OFF as nat));
    assert(c.subrange(G_FMT_OFF as int, G_FMT_OFF + 11) == packet_format());
    assert(c.subrange(USER_CODE_OFF as int, USER_CODE_OFF + 28) == user_code(cave));
    assert(c.subrange(PASS_CODE_OFF as int, PASS_CODE_OFF + 65) == pass_code(cave));
    assert(c.subrange(LOGIN77_CODE_OFF as int, LOGIN77_CODE_OFF + 78) == login_code(cave));
}

/// The jumps into the cave: of the account, the password and the packet.
pub open spec fn hooks(cave: u32) -> Seq<WriteModel> {
    seq![
        write_at(
            USER_HOOK_ADDR,
            padded_jump(USER_HOOK_ADDR, offset(cave, USER_CODE_OFF as int), 1),
        ),
        write_at(
            PASS_HOOK_ADDR,
            padded_jump(PASS_HOOK_ADDR, offset(cave, PASS_CODE_OFF as int), 2),
        ),
        write_at(
            LOGIN77_HOOK_ADDR,
            padded_jump(LOGIN77_HOOK_ADDR, offset(cave, LOGIN77_CODE_OFF as int), 5),
        ),
    ]
}

/// The jumps into the cave.
pub fn build_hooks(cave: u32) -> (r: Vec<Write>)
    ensures
        writes_of(r@) == hooks(cave),
{
    let mut out: Vec<Write> = Vec::new();
    push_write(
        &mut out,
        USER_HOOK_ADDR,
        build_padded_jump(USER_HOOK_ADDR, address(cave, USER_CODE_OFF), 1),
    );
    push_write(
        &mut out,
        PASS_HOOK_ADDR,
        build_padded_jump(PASS_HOOK_ADDR, address(cave, PASS_CODE_OFF), 2),
    );
    push_write(
        &mut out,
        LOGIN77_HOOK_ADDR,
        build_padded_jump(LOGIN77_HOOK_ADDR, address(cave, LOGIN77_CODE_OFF), 5),
    );
    assert(writes_of(out@) == hooks(cave));
    out
}

} // verus!

//! Little-endian integers and runs of machine code bytes.

use vstd::prelude::*;

verus! {

/// A 32-bit number in little-endian bytes.
pub open spec fn le32(x: u32) -> Seq<u8> {
    seq![
        (x % 256) as u8,
        (x / 256 % 256) as u8,
        (x / 65536 % 256) as u8,
        (x / 16777216) as u8,
    ]
}

/// The 32-bit number of four little-endian bytes.
pub open spec fn from_le32(s: Seq<u8>) -> u32 {
    (s[0] + 256 * s[1] + 65536 * s[2] + 16777216 * s[3]) as u32
}

/// Writing a 32-bit number and reading it back.
pub proof fn law_le32_reads_back(x: u32)
    ensures
        le32(x).len() == 4,
        from_le32(le32(x)) == x,
{
}

/// Reading four bytes and writing them back.
pub proof fn law_le32_writes_back(s: Seq<u8>)
    requires
        s.len() == 4,
    ensures
        le32(from_le32(s)) == s,
{
    let x = from_le32(s);
    assert(x % 256 == s[0]);
    assert(x / 256 % 256 == s[1]);
    assert(x / 65536 % 256 == s[2]);
    assert(x / 16777216 == s[3]);
}

/// A 16-bit number in little-endian bytes.
pub open spec fn le16(x: u16) -> Seq<u8> {
    seq![(x % 256) as u8, (x / 256) as u8]
}

/// The 16-bit number of two little-endian bytes.
pub open spec fn from_le16(s: Seq<u8>) -> u16 {
    (s[0] + 256 * s[1]) as u16
}

/// A 64-bit number in little-endian bytes.
pub open spec fn le64(x: u64) -> Seq<u8> {
    le32((x % 0x1_0000_0000) as u32) + le32((x / 0x1_0000_0000) as u32)
}

/// How far `target` lies behind `next`, modulo 2^32.
pub open spec fn distance(next: u32, target: u32) -> u32 {
    if target >= next {
        (target - next) as u32
    } else {
        (target - next + 0x1_0000_0000) as u32
    }
}

/// Where a relative jump leads that ends at `next` and has the displacement
/// `rel`.
pub open spec fn jump_target(next: u32, rel: u32) -> u32 {
    ((next + rel) % 0x1_0000_0000) as u32
}

/// A displacement leads to the address that it was computed for.
pub proof fn law_jump_lands(next: u32, target: u32)
    ensures
        jump_target(next, distance(next, target)) == target,
        jump_target(next, from_le32(le32(distance(next, target)))) == target,
{
    law_le32_reads_back(distance(next, target));
}

/// The address `k` bytes behind `a`, modulo 2^32.
pub open spec fn offset(a: u32, k: int) -> u32 {
    ((a + k) % 0x1_0000_0000) as u32
}

/// Where the short jump leads that ends at offset `end` of a run of code.
pub open spec fn short_jump(c: Seq<u8>, end: int) -> int {
    if c[end - 1] < 0x80 {
        end + c[end - 1]
    } else {
        end + c[end - 1] - 0x100
    }
}

/// Where the near jump leads that ends at offset `end` of a run of code.
pub open spec fn near_jump(c: Seq<u8>, end: int) -> int {
    if c[end - 1] < 0x80 {
        end + from_le32(c.subrange(end - 4, end))
    } else {
        end + from_le32(c.subrange(end - 4, end)) - 0x1_0000_0000
    }
}

/// The address `n` bytes behind `a`, modulo 2^32.
pub fn offset_by(a: u32, n: usize) -> (r: u32)
    ensures
        r == offset(a, n as int),
{
    let k: u32 = (n as u64 % 0x1_0000_0000) as u32;
    proof {
        vstd::arithmetic::div_mod::lemma_add_mod_noop_right(a as int, n as int, 0x1_0000_0000);
        vstd::arithmetic::div_mod::lemma_add_mod_noop_right(a as int, k as int, 0x1_0000_0000);
    }
    a.wrapping_add(k)
}

/// The address `k` bytes behind `a`, modulo 2^32.
pub fn address(a: u32, k: u32) -> (r: u32)
    ensures
        r == offset(a, k as int),
{
    a.wrapping_add(k)
}

/// Appends a jump to `target` to code that stands at `base`.
pub fn emit_jump(out: &mut Vec<u8>, base: u32, target: u32)
    ensures
        final(out)@ == old(out)@ + jump_code(offset(base, old(out)@.len() as int), target),
{
    let ghost start = out@;
    let here: u32 = offset_by(base, out.len());
    emit(out, &[0xE9]);
    emit32(out, target.wrapping_sub(here.wrapping_add(5)));
    proof {
        reveal(jump_code);
        assert(out@ == start + jump_code(here, target));
    }
}

/// A call instruction at `from` that leads to `to`.
#[verifier::opaque]
pub open spec fn call_code(from: u32, to: u32) -> Seq<u8> {
    seq![0xE8u8] + le32(distance(((from + 5) % 0x1_0000_0000) as u32, to))
}

/// Appends a call of `target` to code that stands at `base`.
pub fn emit_call(out: &mut Vec<u8>, base: u32, target: u32)
    ensures
        final(out)@ == old(out)@ + call_code(offset(base, old(out)@.len() as int), target),
{
    let ghost start = out@;
    let here: u32 = offset_by(base, out.len());
    emit(out, &[0xE8]);
    emit32(out, target.wrapping_sub(here.wrapping_add(5)));
    proof {
        reveal(call_code);
        assert(out@ == start + call_code(here, target));
    }
}

/// The target of a call or jump instruction of five bytes at `from`.
pub open spec fn target_of(from: u32, code: Seq<u8>) -> u32 {
    jump_target(((from + 5) % 0x1_0000_0000) as u32, from_le32(code.subrange(1, 5)))
}

/// The target of a call or jump instruction of five bytes at `from`.
pub fn read_target(from: u32, code: &[u8]) -> (r: u32)
    requires
        code@.len() >= 5,
    ensures
        r == target_of(from, code@),
{
    from.wrapping_add(5).wrapping_add(read32(code, 1))
}

/// Appends bytes.
pub fn emit(out: &mut Vec<u8>, code: &[u8])
    ensures
        final(out)@ == old(out)@ + code@,
{
    let ghost start = out@;
    let mut i: usize = 0;
    while i < code.len()
        invariant
            i <= code@.len(),
            out@ == start + code@.take(i as int),
        decreases code@.len() - i,
    {
        out.push(code[i]);
        proof {
            assert(code@.take(i + 1) == code@.take(i as int).push(code@[i as int]));
            assert(out@ == start + code@.take(i + 1));
        }
        i += 1;
    }
    assert(code@.take(i as int) == code@);
}

/// Appends a 32-bit number.
pub fn emit32(out: &mut Vec<u8>, x: u32)
    ensures
        final(out)@ == old(out)@ + le32(x),
{
    let ghost start = out@;
    out.push((x % 256) as u8);
    out.push((x / 256 % 256) as u8);
    out.push((x / 65536 % 256) as u8);
    out.push((x / 16777216) as u8);
    assert(out@ == start + le32(x));
}

/// Appends a 64-bit number.
pub fn emit64(out: &mut Vec<u8>, x: u64)
    ensures
        final(out)@ == old(out)@ + le64(x),
{
    let ghost start = out@;
    emit32(out, (x % 0x1_0000_0000) as u32);
    emit32(out, (x / 0x1_0000_0000) as u32);
    assert(out@ == start + le64(x));
}

/// Reads a 32-bit number.
pub fn read32(s: &[u8], at: usize) -> (r: u32)
    requires
        at + 4 <= s@.len(),
    ensures
        r == from_le32(s@.subrange(at as int, at + 4)),
{
    s[at] as u32 + 256 * (s[at + 1] as u32) + 65536 * (s[at + 2] as u32) + 16777216 * (s[at
        + 3] as u32)
}

/// Reads a 16-bit number.
pub fn read16(s: &[u8], at: usize) -> (r: u16)
    requires
        at + 2 <= s@.len(),
    ensures
        r == from_le16(s@.subrange(at as int, at + 2)),
{
    s[at] as u16 + 256 * (s[at + 1] as u16)
}

/// Whether two runs of bytes are the same.
pub fn eq_bytes(a: &[u8], b: &[u8]) -> (r: bool)
    ensures
        r == (a@ == b@),
{
    if a.len() != b.len() {
        return false;
    }
    let mut i: usize = 0;
    while i < a.len()
        invariant
            i <= a@.len(),
            a@.len() == b@.len(),
            forall|j: int| 0 <= j < i ==> a@[j] == b@[j],
        decreases a@.len() - i,
    {
        if a[i] != b[i] {
            return false;
        }
        i += 1;
    }
    assert(a@ == b@);
    true
}

/// A jump instruction at `from` that leads to `to`.
#[verifier::opaque]
pub open spec fn jump_code(from: u32, to: u32) -> Seq<u8> {
    seq![0xE9u8] + le32(distance(((from + 5) % 0x1_0000_0000) as u32, to))
}

/// The jump instruction at `from` that leads to `to`.
pub fn build_jump(from: u32, to: u32) -> (r: Vec<u8>)
    ensures
        r@ == jump_code(from, to),
{
    let mut out: Vec<u8> = Vec::new();
    emit(&mut out, &[0xE9]);
    emit32(&mut out, to.wrapping_sub(from.wrapping_add(5)));
    proof {
        reveal(jump_code);
    }
    out
}

/// A jump instruction takes five bytes.
pub broadcast proof fn lemma_jump_len(from: u32, to: u32)
    ensures
        #[trigger] jump_code(from, to).len() == 5,
{
    reveal(jump_code);
}

/// A call instruction takes five bytes.
pub broadcast proof fn lemma_call_len(from: u32, to: u32)
    ensures
        #[trigger] call_code(from, to).len() == 5,
{
    reveal(call_code);
}

/// `n` instructions that do nothing.
pub open spec fn nops(n: nat) -> Seq<u8> {
    Seq::new(n, |i: int| 0x90u8)
}

/// A jump instruction at `from` that leads to `to`, with `n` instructions behind
/// it that do nothing.
pub open spec fn padded_jump(from: u32, to: u32, n: nat) -> Seq<u8> {
    jump_code(from, to) + nops(n)
}

/// A jump instruction with `n` instructions behind it that do nothing.
pub fn build_padded_jump(from: u32, to: u32, n: usize) -> (r: Vec<u8>)
    ensures
        r@ == padded_jump(from, to, n as nat),
{
    let mut out = build_jump(from, to);
    let mut i: usize = 0;
    assert(out@ == jump_code(from, to) + nops(0));
    while i < n
        invariant
            i <= n,
            out@ == jump_code(from, to) + nops(i as nat),
        decreases n - i,
    {
        out.push(0x90);
        proof {
            assert(nops((i + 1) as nat) == nops(i as nat).push(0x90));
            assert(out@ == jump_code(from, to) + nops((i + 1) as nat));
        }
        i += 1;
    }
    out
}

/// A jump or call instruction leads where it was built for.
pub proof fn law_jump_code_lands(from: u32, to: u32)
    ensures
        jump_code(from, to).len() == 5,
        target_of(from, jump_code(from, to)) == to,
        call_code(from, to).len() == 5,
        target_of(from, call_code(from, to)) == to,
{
    reveal(jump_code);
    reveal(call_code);
    let next = ((from + 5) % 0x1_0000_0000) as u32;
    law_jump_lands(next, to);
    assert(jump_code(from, to).subrange(1, 5) == le32(distance(next, to)));
    assert(call_code(from, to).subrange(1, 5) == le32(distance(next, to)));
}

/// Whether code begins with a jump: what has been replaced once begins so.
pub fn begins_with_jump(bytes: &[u8]) -> (r: bool)
    ensures
        r == (bytes@.len() > 0 && bytes@[0] == 0xE9),
{
    bytes.len() > 0 && bytes[0] == 0xE9
}

} // verus!

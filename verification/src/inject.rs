//! The sprite table that the client reads in place of its own.
//!
//! A packed file holds the length of the table, a key, the table encrypted with
//! the key, packed or as it is, and a tag over all of it.

use vstd::prelude::*;
use vstd::slice::slice_subrange;
#[allow(unused_imports)]
use vstd::utf8::encode_utf8;
use crate::code::{build_jump, emit, emit32, emit_jump, offset_by, read32};
#[allow(unused_imports)]
use crate::code::{from_le32, jump_code, law_jump_code_lands, le32, offset, target_of};
use crate::logger::is_falsy_env;
#[allow(unused_imports)]
use crate::logger::says_no;
use crate::memory::{push_write, Write};
#[allow(unused_imports)]
use crate::memory::{write_at, writes_of};
use crate::morph_auth::{has_tag, MORPH_MAC_LEN};
#[allow(unused_imports)]
use crate::morph_auth::is_tagged;
use crate::paths::extension;
#[allow(unused_imports)]
use crate::paths::extension_of;
use crate::server_list::cipher::config_decrypt;
#[allow(unused_imports)]
use crate::server_list::cipher::decrypted;
use crate::smooth_run::strip_variant_lines;
#[allow(unused_imports)]
use crate::smooth_run::{emit::emitted, parse::parsed, pipeline::pairs_of};
use crate::text::{chars_of, decimal_chars, eq_str, own, push_all, push_str, string_of, to_lowercase};
#[allow(unused_imports)]
use crate::text::{decimal, lower_of};
use crate::unicode::{read_lossy, utf8_bytes};
#[allow(unused_imports)]
use crate::unicode::lossy_utf8;
use crate::zlib::inflate;
#[allow(unused_imports)]
use crate::zlib::zlib_inflated;

verus! {

broadcast use crate::code::lemma_jump_len;

/// Where the client is about to read its table.
pub const FILE_HOOK_ADDR: u32 = 0x0058788B;

/// Where the client goes on once it has its table.
pub const FILE_RETN_ADDR: u32 = 0x0058794F;

/// What stands at [`FILE_HOOK_ADDR`] once the client is unpacked.
pub const EXPECTED_BYTES: u32 = 0x4D8D016A;

/// How often the client is looked at before the worker gives up.
pub const HOOK_TRIES: u32 = 12000;

/// How long the worker waits between two looks, in milliseconds.
pub const HOOK_WAIT_MS: u64 = 10;

/// The size of the memory for the hook's code.
pub const HOOK_CODE_SIZE: usize = 64;

/// The smallest packed file: a length, a key and a tag.
pub const MIN_PAK_SIZE: usize = 36;

/// The longest table that a packed file may announce.
pub const MAX_PAK_TABLE: u32 = 100000000;

/// The table is prepared unless a variable says no.
pub open spec fn prepares(value: Option<Seq<char>>) -> bool {
    match value {
        Some(v) => !says_no(v),
        None => true,
    }
}

/// Whether the table is prepared for smooth running, given the value of
/// `LOGIN38_MORPH_PREPROCESS`.
pub fn morph_preprocess_enabled(value: Option<&str>) -> (r: bool)
    ensures
        r == prepares(
            match value {
                Some(v) => Some(v@),
                None => None,
            },
        ),
{
    match value {
        Some(v) => !is_falsy_env(v),
        None => true,
    }
}

/// Why a packed file was refused.
#[derive(Debug, Clone, Copy, PartialEq, Eq, Structural)]
pub enum InjectError {
    /// It has only that many bytes.
    TooSmall(usize),
    /// Its tag is not the one of its bytes.
    BadMac,
    /// It announces a table of that length.
    BadLength(u32),
    /// Its contents cannot be unpacked.
    Zlib,
    /// The client never came to the place of the hook.
    TimedOut,
    /// That stands at the place of the hook.
    Verify(u32),
}

impl InjectError {
    /// The error in words.
    pub fn to_string(&self) -> (r: String)
        ensures
            r@ == (match *self {
                InjectError::TooSmall(n) => ".pak file too small: "@ + decimal(n as nat)
                    + " bytes"@,
                InjectError::BadMac =>
                    "invalid .pak MAC; please rebuild with launcher/encoder.exe"@,
                InjectError::BadLength(n) => "invalid .pak orig_len="@ + decimal(n as nat),
                InjectError::Zlib => "corrupt deflate stream"@,
                InjectError::TimedOut =>
                    "FileHook wait timed out before target bytes appeared"@,
                InjectError::Verify(v) => "FileHook verify failed: 0x0058788B=0x"@ + hex8(v)
                    + ", expected 0x4D8D016A"@,
            }),
    {
        match *self {
            InjectError::TooSmall(n) => {
                let mut out = chars_of(".pak file too small: ");
                push_all(&mut out, decimal_chars(n as u64).as_slice());
                push_str(&mut out, " bytes");
                string_of(out.as_slice())
            },
            InjectError::BadMac => own(
                "invalid .pak MAC; please rebuild with launcher/encoder.exe",
            ),
            InjectError::BadLength(n) => {
                let mut out = chars_of("invalid .pak orig_len=");
                push_all(&mut out, decimal_chars(n as u64).as_slice());
                string_of(out.as_slice())
            },
            InjectError::Zlib => own("corrupt deflate stream"),
            InjectError::TimedOut => own("FileHook wait timed out before target bytes appeared"),
            InjectError::Verify(v) => {
                let mut out = chars_of("FileHook verify failed: 0x0058788B=0x");
                push_all(&mut out, hex8_chars(v).as_slice());
                push_str(&mut out, ", expected 0x4D8D016A");
                string_of(out.as_slice())
            },
        }
    }
}

/// A 32-bit number as eight hexadecimal digits in capitals.
pub open spec fn hex8(v: u32) -> Seq<char> {
    let le = le32(v);
    crate::text::hex_of(seq![le[3], le[2], le[1], le[0]], true)
}

/// A 32-bit number as eight hexadecimal digits in capitals.
pub fn hex8_chars(v: u32) -> (r: Vec<char>)
    ensures
        r@ == hex8(v),
{
    let b: [u8; 4] = [
        (v / 16777216) as u8,
        (v / 65536 % 256) as u8,
        (v / 256 % 256) as u8,
        (v % 256) as u8,
    ];
    proof {
        let le = le32(v);
        assert(b@ == seq![le[3], le[2], le[1], le[0]]);
    }
    crate::text::hex_chars(&b, true)
}

/// The table of a packed file with the letter in front of it, as it was packed.
pub open spec fn unpacked(raw: Seq<u8>) -> Result<Seq<u8>, InjectError> {
    let split = raw.len() - MORPH_MAC_LEN;
    let table = decrypted(raw.subrange(4, 20), raw.subrange(20, split));
    if raw.len() < MIN_PAK_SIZE {
        Err(InjectError::TooSmall(raw.len() as usize))
    } else if !is_tagged(raw) {
        Err(InjectError::BadMac)
    } else if from_le32(raw.subrange(0, 4)) > MAX_PAK_TABLE {
        Err(InjectError::BadLength(from_le32(raw.subrange(0, 4))))
    } else if table.len() > 0 && table[0] == 0x53 {
        Ok(table)
    } else {
        match zlib_inflated(table) {
            Some(t) => Ok(t),
            None => Err(InjectError::Zlib),
        }
    }
}

fn unpack(raw: &[u8]) -> (r: Result<Vec<u8>, InjectError>)
    ensures
        match unpacked(raw@) {
            Ok(t) => r matches Ok(v) && v@ == t,
            Err(e) => r == Err::<Vec<u8>, InjectError>(e),
        },
{
    let n: usize = raw.len();
    if n < MIN_PAK_SIZE {
        return Err(InjectError::TooSmall(n));
    }
    if !has_tag(raw) {
        return Err(InjectError::BadMac);
    }
    let split: usize = n - MORPH_MAC_LEN;
    let len: u32 = read32(raw, 0);
    if len > MAX_PAK_TABLE {
        return Err(InjectError::BadLength(len));
    }
    let mut key: [u8; 16] = [0; 16];
    let mut i: usize = 0;
    while i < 16
        invariant
            i <= 16,
            n == raw@.len(),
            n >= 36,
            forall|k: int| 0 <= k < i ==> key@[k] == raw@[4 + k],
        decreases 16 - i,
    {
        key[i] = raw[4 + i];
        i += 1;
    }
    assert(key@ == raw@.subrange(4, 20));
    let mut table: Vec<u8> = Vec::new();
    emit(&mut table, slice_subrange(raw, 20, split));
    assert(table@ == raw@.subrange(20, split as int));
    config_decrypt(&key, table.as_mut_slice());
    if table.len() > 0 && table[0] == 0x53 {
        return Ok(table);
    }
    match inflate(table.as_slice()) {
        Some(t) => Ok(t),
        None => Err(InjectError::Zlib),
    }
}

/// A table with the letter in front of it, prepared for smooth running where that
/// is wanted.
pub open spec fn prepared(table: Seq<u8>, prepare: bool) -> Seq<u8> {
    if prepare && table.len() > 1 && table[0] == 0x53 {
        let text = parsed(lossy_utf8(table.skip(1)));
        seq![0x53u8] + encode_utf8(emitted(text, pairs_of(text)))
    } else {
        table
    }
}

/// Prepares a table for smooth running where that is wanted.
pub fn prepare_table(table: Vec<u8>, prepare: bool) -> (r: Vec<u8>)
    ensures
        r@ == prepared(table@, prepare),
{
    let n: usize = table.len();
    if prepare && n > 1 && table[0] == 0x53 {
        let body = slice_subrange(table.as_slice(), 1, n);
        assert(body@ == table@.skip(1));
        let text = read_lossy(body);
        let cleaned = strip_variant_lines(text.as_str());
        let mut out: Vec<u8> = Vec::new();
        out.push(0x53);
        emit(&mut out, utf8_bytes(cleaned.0.as_str()).as_slice());
        return out;
    }
    table
}

/// The extension `pak`, in lower case.
pub open spec fn is_pak(path: Seq<char>) -> bool {
    lower_of(
        match extension_of(path) {
            Some(e) => e,
            None => seq![],
        },
    ) == "pak"@
}

fn names_pak(path: &str) -> (r: bool)
    ensures
        r == is_pak(path@),
{
    let ext: Vec<char> = match extension(path) {
        Some(e) => chars_of(e.as_str()),
        None => Vec::new(),
    };
    eq_str(to_lowercase(ext.as_slice()).as_slice(), "pak")
}

/// What the client is given of a file: the table of a packed file, prepared where
/// that is wanted, and the bytes of any other file behind the letter.
pub open spec fn injected(path: Seq<char>, raw: Seq<u8>, prepare: bool) -> Result<
    Seq<u8>,
    InjectError,
> {
    if is_pak(path) {
        match unpacked(raw) {
            Ok(t) => Ok(prepared(t, prepare)),
            Err(e) => Err(e),
        }
    } else {
        Ok(seq![0x53u8] + raw)
    }
}

/// What the client is given of a file, from the file's bytes.
pub fn load_inject_file(path: &str, raw: &[u8], prepare: bool) -> (r: Result<Vec<u8>, InjectError>)
    ensures
        match injected(path@, raw@, prepare) {
            Ok(t) => r matches Ok(v) && v@ == t,
            Err(e) => r == Err::<Vec<u8>, InjectError>(e),
        },
{
    if names_pak(path) {
        match unpack(raw) {
            Ok(t) => Ok(prepare_table(t, prepare)),
            Err(e) => Err(e),
        }
    } else {
        let mut out: Vec<u8> = Vec::new();
        out.push(0x53);
        emit(&mut out, raw);
        assert(out@ == seq![0x53u8] + raw@);
        Ok(out)
    }
}

/// A packed file that is taken: long enough, with a length that may be, and with
/// its tag.
pub open spec fn valid_pak(raw: Seq<u8>) -> bool {
    raw.len() >= MIN_PAK_SIZE && from_le32(raw.subrange(0, 4)) <= MAX_PAK_TABLE && is_tagged(raw)
}

/// Whether a file, given its bytes where it can be read, is a packed file that is
/// taken.
pub fn is_valid_pak(raw: Option<&[u8]>) -> (r: bool)
    ensures
        r == (match raw {
            Some(b) => valid_pak(b@),
            None => false,
        }),
{
    match raw {
        None => false,
        Some(b) => {
            if b.len() < MIN_PAK_SIZE {
                return false;
            }
            if read32(b, 0) > MAX_PAK_TABLE {
                return false;
            }
            has_tag(b)
        },
    }
}

/// A packed file is refused for its length, its tag or the length that it
/// announces exactly where it is not valid.
pub proof fn law_valid_pak_is_accepted(raw: Seq<u8>)
    ensures
        valid_pak(raw) == !(unpacked(raw) matches Err(e) && e != InjectError::Zlib),
{
}

/// The code that hands the client a table of a length that lies at an address.
pub open spec fn file_hook_code(buffer_len: u32, data_addr: u32, sc_addr: u32) -> Seq<u8> {
    let body = seq![0xB8u8] + le32(buffer_len) + seq![0x89u8, 0x45, 0xEC, 0xB8] + le32(
        offset(data_addr, 1),
    ) + seq![0x8Bu8, 0x95, 0xC4, 0xFD, 0xFF, 0xFF, 0x89, 0x42, 0x08];
    body + jump_code(offset(sc_addr, body.len() as int), FILE_RETN_ADDR)
}

/// The code that hands the client a table. It skips the letter in front of the
/// table.
pub fn build_file_hook_shellcode(buffer_len: u32, data_addr: u32, sc_addr: u32) -> (r: Vec<u8>)
    ensures
        r@ == file_hook_code(buffer_len, data_addr, sc_addr),
{
    let mut sc: Vec<u8> = Vec::new();
    emit(&mut sc, &[0xB8]);
    emit32(&mut sc, buffer_len);
    emit(&mut sc, &[0x89, 0x45, 0xEC]);
    emit(&mut sc, &[0xB8]);
    emit32(&mut sc, offset_by(data_addr, 1));
    emit(&mut sc, &[0x8B, 0x95, 0xC4, 0xFD, 0xFF, 0xFF]);
    emit(&mut sc, &[0x89, 0x42, 0x08]);
    assert(sc@ == seq![0xB8u8] + le32(buffer_len) + seq![0x89u8, 0x45, 0xEC, 0xB8] + le32(
        offset(data_addr, 1),
    ) + seq![0x8Bu8, 0x95, 0xC4, 0xFD, 0xFF, 0xFF, 0x89, 0x42, 0x08]);
    emit_jump(&mut sc, sc_addr, FILE_RETN_ADDR);
    sc
}

/// The code fits into its memory and ends in a jump to the place where the client
/// goes on, and the jump at the place of the hook leads to the code.
pub proof fn law_file_hook_returns(buffer_len: u32, data_addr: u32, sc_addr: u32)
    ensures
        file_hook_code(buffer_len, data_addr, sc_addr).len() == 27,
        27 <= HOOK_CODE_SIZE,
        target_of(
            offset(sc_addr, 22),
            file_hook_code(buffer_len, data_addr, sc_addr).subrange(22, 27),
        ) == FILE_RETN_ADDR,
        target_of(FILE_HOOK_ADDR, jump_code(FILE_HOOK_ADDR, sc_addr)) == sc_addr,
{
    let c = file_hook_code(buffer_len, data_addr, sc_addr);
    let j = jump_code(offset(sc_addr, 22), FILE_RETN_ADDR);
    assert(c.subrange(22, 27) == j);
    law_jump_code_lands(offset(sc_addr, 22), FILE_RETN_ADDR);
    law_jump_code_lands(FILE_HOOK_ADDR, sc_addr);
}

/// What the worker does after a look at the client.
#[derive(Debug, Clone, Copy, PartialEq, Eq, Structural)]
pub enum FileHookStep {
    /// Install the hook.
    Install,
    /// Leave it: a hook is there.
    Done,
    /// Wait and look again.
    Wait,
    /// Give up.
    TimedOut,
}

/// What the worker does after it has looked `tries` times and seen something at
/// the place of the hook the last time.
pub fn file_hook_step(tries: u32, seen: Option<u32>) -> (r: FileHookStep)
    ensures
        r == ({
            let v = match seen {
                Some(v) => v,
                None => 0,
            };
            if v == EXPECTED_BYTES {
                FileHookStep::Install
            } else if v % 256 == 0xE9 {
                FileHookStep::Done
            } else if tries < HOOK_TRIES {
                FileHookStep::Wait
            } else {
                FileHookStep::TimedOut
            }
        }),
{
    let v: u32 = match seen {
        Some(v) => v,
        None => 0,
    };
    if v == EXPECTED_BYTES {
        FileHookStep::Install
    } else if v % 256 == 0xE9 {
        FileHookStep::Done
    } else if tries < HOOK_TRIES {
        FileHookStep::Wait
    } else {
        FileHookStep::TimedOut
    }
}

/// Whether the hook may be installed, from what stands at its place.
pub fn verify_file_hook(seen: u32) -> (r: Result<(), InjectError>)
    ensures
        r == (if seen == EXPECTED_BYTES {
            Ok::<(), InjectError>(())
        } else {
            Err::<(), InjectError>(InjectError::Verify(seen))
        }),
{
    if seen == EXPECTED_BYTES {
        Ok(())
    } else {
        Err(InjectError::Verify(seen))
    }
}

/// What is written to install the hook, in order: the table, the code, and the
/// jump to the code.
pub fn plan_file_hook(buffer: &[u8], data_addr: u32, sc_addr: u32) -> (r: Vec<Write>)
    requires
        buffer@.len() <= u32::MAX,
    ensures
        writes_of(r@) == seq![
            write_at(data_addr, buffer@),
            write_at(sc_addr, file_hook_code(buffer@.len() as u32, data_addr, sc_addr)),
            write_at(FILE_HOOK_ADDR, jump_code(FILE_HOOK_ADDR, sc_addr)),
        ],
{
    let mut out: Vec<Write> = Vec::new();
    let mut data: Vec<u8> = Vec::new();
    emit(&mut data, buffer);
    assert(data@ == buffer@);
    push_write(&mut out, data_addr, data);
    push_write(
        &mut out,
        sc_addr,
        build_file_hook_shellcode(buffer.len() as u32, data_addr, sc_addr),
    );
    push_write(&mut out, FILE_HOOK_ADDR, build_jump(FILE_HOOK_ADDR, sc_addr));
    out
}

} // verus!

//! Packing sprite tables.

use vstd::prelude::*;
use crate::code::{emit, emit32, emit64, read32};
#[allow(unused_imports)]
use crate::code::{from_le32, law_le32_reads_back, le32, le64};
#[allow(unused_imports)]
use crate::inject::{unpacked, InjectError, MAX_PAK_TABLE};
use crate::morph_auth::{has_tag, morph_mac};
#[allow(unused_imports)]
use crate::morph_auth::{is_tagged, mac_of};
use crate::paths::has_extension;
#[allow(unused_imports)]
use crate::paths::has_extension_of;
use crate::rsa32::{seed_nanos, Lcg};
#[allow(unused_imports)]
use crate::rsa32::{advanced, mixed, seeded};
use crate::server_list::cipher::config_encrypt;
#[allow(unused_imports)]
use crate::server_list::cipher::encrypted;
use crate::text::{hex_chars, own, string_of};
#[allow(unused_imports)]
use crate::text::hex_of;
use crate::zlib::deflate;
#[allow(unused_imports)]
use crate::zlib::{zlib_deflated, zlib_inflated};

verus! {

/// The smallest packed file that the encoder makes of a table of a block.
pub const MIN_OWN_PAK: usize = 52;

/// Why a table was not packed.
#[derive(Debug, Clone, Copy, PartialEq, Eq, Structural)]
pub enum EncodeError {
    /// The file is a packed one.
    PackedSource,
    /// The table could not be compressed.
    Zlib,
    /// The table is too long for its length to be written.
    TooLarge,
}

impl EncodeError {
    /// The error in words.
    pub fn to_string(&self) -> (r: String)
        ensures
            r@ == (match *self {
                EncodeError::PackedSource =>
                    "請選 TW13081901.txt 原始檔，不要把已編碼的 .pak 再拿去編碼"@,
                EncodeError::Zlib => "zlib 寫入失敗"@,
                EncodeError::TooLarge => "檔案過大，無法寫入 4-byte 長度欄位"@,
            }),
    {
        match self {
            EncodeError::PackedSource => own(
                "請選 TW13081901.txt 原始檔，不要把已編碼的 .pak 再拿去編碼",
            ),
            EncodeError::Zlib => own("zlib 寫入失敗"),
            EncodeError::TooLarge => own("檔案過大，無法寫入 4-byte 長度欄位"),
        }
    }
}

/// Whether a file may be packed: a packed one may not.
pub fn validate_morph_source_path(input: &str) -> (r: Result<(), EncodeError>)
    ensures
        r == (if has_extension_of(input@, "pak"@) {
            Err::<(), EncodeError>(EncodeError::PackedSource)
        } else {
            Ok::<(), EncodeError>(())
        }),
{
    if has_extension(input, "pak") {
        Err(EncodeError::PackedSource)
    } else {
        Ok(())
    }
}

/// The table that is packed: the bytes of the file as they are.
pub fn prepare_morph_plaintext(raw: &[u8]) -> (r: Result<Vec<u8>, EncodeError>)
    ensures
        match r {
            Ok(table) => table@ == raw@,
            Err(_) => false,
        },
{
    let mut out: Vec<u8> = Vec::new();
    emit(&mut out, raw);
    assert(out@ == raw@);
    Ok(out)
}

/// The key that a clock reading gives.
pub open spec fn key_of(nanos: u64) -> Seq<u8> {
    let a = advanced(seeded(nanos));
    let b = advanced(a);
    le64(mixed(a)) + le64(mixed(b))
}

/// The key that a clock reading gives.
pub fn key_from_nanos(nanos: u64) -> (r: [u8; 16])
    ensures
        r@ == key_of(nanos),
{
    let mut rng = Lcg::from_nanos(nanos);
    let mut bytes: Vec<u8> = Vec::new();
    emit64(&mut bytes, rng.next());
    emit64(&mut bytes, rng.next());
    assert(bytes@ == key_of(nanos));
    let mut key: [u8; 16] = [0; 16];
    let mut i: usize = 0;
    while i < 16
        invariant
            i <= 16,
            bytes@.len() == 16,
            forall|k: int| 0 <= k < i ==> key@[k] == bytes@[k],
        decreases 16 - i,
    {
        key[i] = bytes[i];
        i += 1;
    }
    assert(key@ == bytes@);
    key
}

/// A key from the clock.
pub fn gen_random_key() -> (r: [u8; 16])
    ensures
        exists|nanos: u64| r@ == key_of(nanos),
{
    let nanos: u64 = seed_nanos();
    key_from_nanos(nanos)
}

/// How a table was packed.
#[derive(Debug, Clone)]
pub struct EncodeStat {
    /// The length of the table with the letter in front of it.
    pub orig_len: usize,
    /// The length of what was encrypted.
    pub compressed_len: usize,
    /// The length of the packed file.
    pub pak_size: usize,
    /// The key in hexadecimal.
    pub key_hex: String,
}

/// A packed file.
#[derive(Debug, Clone)]
pub struct EncodedPak {
    pub pak: Vec<u8>,
    pub stat: EncodeStat,
}

/// A packed file in front of its tag.
pub open spec fn pak_body(orig_len: nat, key: Seq<u8>, payload: Seq<u8>) -> Seq<u8> {
    le32(orig_len as u32) + key + encrypted(key, payload)
}

/// A packed file.
pub open spec fn pak_of(orig_len: nat, key: Seq<u8>, payload: Seq<u8>) -> Seq<u8> {
    pak_body(orig_len, key, payload) + mac_of(pak_body(orig_len, key, payload))
}

/// The letter and the table.
pub open spec fn lettered(raw: Seq<u8>) -> Seq<u8> {
    seq![0x53u8] + raw
}

/// What is encrypted of a table: the letter and the table, compressed where that
/// is wanted.
pub open spec fn payload_of(raw: Seq<u8>, compress: bool, level: u32) -> Option<Seq<u8>> {
    if compress {
        zlib_deflated(lettered(raw), level)
    } else {
        Some(lettered(raw))
    }
}

/// A packed file of the encoder's own.
pub open spec fn is_ours(raw: Seq<u8>) -> bool {
    raw.len() >= MIN_OWN_PAK && 1 <= from_le32(raw.subrange(0, 4)) <= MAX_PAK_TABLE && is_tagged(
        raw,
    )
}

/// Whether a file, given its bytes where it can be read, is one of the encoder's
/// own.
pub fn is_our_morph_pak(raw: Option<&[u8]>) -> (r: bool)
    ensures
        r == (match raw {
            Some(b) => is_ours(b@),
            None => false,
        }),
{
    match raw {
        None => false,
        Some(b) => {
            if b.len() < MIN_OWN_PAK {
                return false;
            }
            let orig_len: u32 = read32(b, 0);
            if orig_len < 1 || orig_len > MAX_PAK_TABLE {
                return false;
            }
            has_tag(b)
        },
    }
}

/// Packs a table under a key. What the launcher unpacks is the letter and the
/// table, and the encoder takes the file for its own, as long as the table is no
/// longer than the launcher takes and what was encrypted fills a block.
pub fn encode_morph_to_pak(
    input: &str,
    raw: &[u8],
    compress: bool,
    level: u32,
    key: &[u8; 16],
) -> (r: Result<EncodedPak, EncodeError>)
    requires
        level <= 10,
        raw@.len() < usize::MAX,
    ensures
        match r {
            Ok(e) => {
                &&& !has_extension_of(input@, "pak"@)
                &&& raw@.len() + 1 <= u32::MAX
                &&& payload_of(raw@, compress, level) matches Some(p) && {
                    &&& e.pak@ == pak_of(raw@.len() + 1, key@, p)
                    &&& e.stat.compressed_len == p.len()
                    &&& is_ours(e.pak@) == (p.len() >= 16 && raw@.len() + 1 <= MAX_PAK_TABLE)
                }
                &&& e.stat.orig_len == raw@.len() + 1
                &&& e.stat.pak_size == e.pak@.len()
                &&& e.stat.key_hex@ == hex_of(key@, false)
                &&& raw@.len() + 1 <= MAX_PAK_TABLE ==> unpacked(e.pak@) == Ok::<
                    Seq<u8>,
                    InjectError,
                >(lettered(raw@))
            },
            Err(EncodeError::PackedSource) => has_extension_of(input@, "pak"@),
            Err(EncodeError::Zlib) => !has_extension_of(input@, "pak"@) && payload_of(
                raw@,
                compress,
                level,
            ) is None,
            Err(EncodeError::TooLarge) => !has_extension_of(input@, "pak"@) && payload_of(
                raw@,
                compress,
                level,
            ) is Some && raw@.len() + 1 > u32::MAX,
        },
{
    match validate_morph_source_path(input) {
        Ok(_) => {},
        Err(e) => {
            return Err(e);
        },
    }
    let table = match prepare_morph_plaintext(raw) {
        Ok(table) => table,
        Err(e) => return Err(e),
    };
    let mut with_prefix: Vec<u8> = Vec::new();
    with_prefix.push(0x53);
    emit(&mut with_prefix, table.as_slice());
    assert(with_prefix@ == lettered(raw@));
    let orig_len: usize = with_prefix.len();
    let mut payload: Vec<u8> = if compress {
        match deflate(with_prefix.as_slice(), level) {
            Some(p) => p,
            None => {
                return Err(EncodeError::Zlib);
            },
        }
    } else {
        with_prefix
    };
    let ghost p = payload@;
    assert(payload_of(raw@, compress, level) == Some(p));
    assert(p.len() > 0 && (if p[0] == 0x53 {
        p == lettered(raw@)
    } else {
        zlib_inflated(p) == Some(lettered(raw@))
    }));
    let compressed_len: usize = payload.len();
    config_encrypt(key, payload.as_mut_slice());
    if orig_len > u32::MAX as usize {
        return Err(EncodeError::TooLarge);
    }
    let mut pak: Vec<u8> = Vec::new();
    emit32(&mut pak, orig_len as u32);
    emit(&mut pak, key);
    emit(&mut pak, payload.as_slice());
    assert(pak@ == pak_body(orig_len as nat, key@, p));
    let mac = morph_mac(pak.as_slice());
    emit(&mut pak, &mac);
    proof {
        let body = pak_body(orig_len as nat, key@, p);
        let n = pak@.len() as int;
        law_le32_reads_back(orig_len as u32);
        assert(pak@.take(n - 16) == body);
        assert(pak@.skip(n - 16) == mac@);
        assert(pak@.subrange(0, 4) == le32(orig_len as u32));
        assert(pak@.subrange(4, 20) == key@);
        assert(pak@.subrange(20, n - 16) == payload@);
    }
    let pak_size: usize = pak.len();
    let key_hex = string_of(hex_chars(key, false).as_slice());
    Ok(EncodedPak { pak, stat: EncodeStat { orig_len, compressed_len, pak_size, key_hex } })
}

} // verus!

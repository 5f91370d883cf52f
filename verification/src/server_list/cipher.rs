//! The encryption of the server list: a mask, and AES over whole blocks.

use vstd::prelude::*;
use vstd::slice::slice_subrange;
use crate::block_cipher::{block_at, decrypt_block, encrypt_block};
#[allow(unused_imports)]
use crate::block_cipher::{aes128_decrypted, aes128_encrypted, lemma_xor_twice};
use crate::code::emit;

verus! {

/// The key of the server list, the characters `4zF8sAc5bYkCRM3w`.
pub const SERVER_LIST_KEY: [u8; 16] = [
    0x34, 0x7A, 0x46, 0x38, 0x73, 0x41, 0x63, 0x35, 0x62, 0x59, 0x6B, 0x43, 0x52, 0x4D, 0x33, 0x77,
];

/// The mask before the key is mixed in.
pub const XOR_TABLE: [u8; 256] = [
    0x7E, 0x89, 0xDC, 0x78, 0x7F, 0x4B, 0xB6, 0x4F, 0x7D, 0x0D, 0x08, 0x16, 0x7C, 0xCF, 0x62, 0x21,
    0x79, 0x80, 0x74, 0xA4, 0x78, 0x42, 0x1E, 0x93, 0x7A, 0x04, 0xA0, 0xCA, 0x7B, 0xC6, 0xCA, 0xFD,
    0x6C, 0xBC, 0x2E, 0xB0, 0x6D, 0x7E, 0x44, 0x87, 0x6F, 0x38, 0xFA, 0xDE, 0x6E, 0xFA, 0x90, 0xE9,
    0x6B, 0xB5, 0x86, 0x6C, 0x6A, 0x77, 0xEC, 0x5B, 0x68, 0x31, 0x52, 0x02, 0x69, 0xF3, 0x38, 0x35,
    0x62, 0xAF, 0x7F, 0x08, 0x63, 0x6D, 0x15, 0x3F, 0x61, 0x2B, 0xAB, 0x66, 0x60, 0xE9, 0xC1, 0x51,
    0x65, 0xA6, 0xD7, 0xD4, 0x64, 0x64, 0xBD, 0xE3, 0x66, 0x22, 0x03, 0xBA, 0x67, 0xE0, 0x69, 0x8D,
    0x48, 0xD7, 0xCB, 0x20, 0x49, 0x15, 0xA1, 0x17, 0x4B, 0x53, 0x1F, 0x4E, 0x4A, 0x91, 0x75, 0x79,
    0x4F, 0xDE, 0x63, 0xFC, 0x4E, 0x1C, 0x09, 0xCB, 0x4C, 0x5A, 0xB7, 0x92, 0x4D, 0x98, 0xDD, 0xA5,
    0x46, 0xC4, 0x9A, 0x98, 0x47, 0x06, 0xF0, 0xAF, 0x45, 0x40, 0x4E, 0xF6, 0x44, 0x82, 0x24, 0xC1,
    0x41, 0xCD, 0x32, 0x44, 0x40, 0x0F, 0x58, 0x73, 0x42, 0x49, 0xE6, 0x2A, 0x43, 0x8B, 0x8C, 0x1D,
    0x54, 0xF1, 0x68, 0x50, 0x55, 0x33, 0x02, 0x67, 0x57, 0x75, 0xBC, 0x3E, 0x56, 0xB7, 0xD6, 0x09,
    0x53, 0xF8, 0xC0, 0x8C, 0x52, 0x3A, 0xAA, 0xBB, 0x50, 0x7C, 0x14, 0xE2, 0x51, 0xBE, 0x7E, 0xD5,
    0x5A, 0xE2, 0x39, 0xE8, 0x5B, 0x20, 0x53, 0xDF, 0x59, 0x66, 0xED, 0x86, 0x58, 0xA4, 0x87, 0xB1,
    0x5D, 0xEB, 0x91, 0x34, 0x5C, 0x29, 0xFB, 0x03, 0x5E, 0x6F, 0x45, 0x5A, 0x5F, 0xAD, 0x2F, 0x6D,
    0xE1, 0x35, 0x1B, 0x80, 0xE0, 0xF7, 0x71, 0xB7, 0xE2, 0xB1, 0xCF, 0xEE, 0xE3, 0x73, 0xA5, 0xD9,
    0xE6, 0x3C, 0xB3, 0x5C, 0xE7, 0xFE, 0xD9, 0x6B, 0xE5, 0xB8, 0x67, 0x32, 0xE4, 0x7A, 0x0D, 0x05,
];

/// A byte of the mask before the key is mixed in.
#[verifier::opaque]
pub open spec fn table_byte(i: int) -> u8 {
    XOR_TABLE@[i]
}

/// The mask of the byte at `i`.
pub open spec fn mask(key: Seq<u8>, i: int) -> u8 {
    table_byte(i % 256) ^ key[i % 16]
}

/// Bytes under the mask.
pub open spec fn masked(key: Seq<u8>, s: Seq<u8>) -> Seq<u8> {
    Seq::new(s.len(), |i: int| s[i] ^ mask(key, i))
}

/// Bytes with each whole block of sixteen encrypted. What is left at the end
/// stays.
pub open spec fn blocks_encrypted(key: Seq<u8>, s: Seq<u8>) -> Seq<u8>
    decreases s.len(),
{
    if s.len() < 16 {
        s
    } else {
        aes128_encrypted(key, s.take(16)) + blocks_encrypted(key, s.skip(16))
    }
}

/// Bytes with each whole block of sixteen decrypted. What is left at the end
/// stays.
pub open spec fn blocks_decrypted(key: Seq<u8>, s: Seq<u8>) -> Seq<u8>
    decreases s.len(),
{
    if s.len() < 16 {
        s
    } else {
        aes128_decrypted(key, s.take(16)) + blocks_decrypted(key, s.skip(16))
    }
}

/// Bytes as they are stored.
pub open spec fn encrypted(key: Seq<u8>, s: Seq<u8>) -> Seq<u8> {
    blocks_encrypted(key, masked(key, s))
}

/// Bytes that were stored.
pub open spec fn decrypted(key: Seq<u8>, s: Seq<u8>) -> Seq<u8> {
    masked(key, blocks_decrypted(key, s))
}

/// The mask with the key mixed in.
pub fn build_xor_table(key: &[u8; 16]) -> (r: [u8; 256])
    ensures
        forall|i: int| 0 <= i < 256 ==> #[trigger] r@[i] == mask(key@, i),
{
    let mut table: [u8; 256] = XOR_TABLE;
    proof {
        reveal(table_byte);
        assert forall|k: int| 0 <= k < 256 implies #[trigger] table@[k] == table_byte(k) by {}
    }
    let mut i: usize = 0;
    while i < 256
        invariant
            i <= 256,
            forall|k: int| 0 <= k < i ==> #[trigger] table@[k] == mask(key@, k),
            forall|k: int| i <= k < 256 ==> #[trigger] table@[k] == table_byte(k),
        decreases 256 - i,
    {
        let b: u8 = table[i];
        table[i] = b ^ key[i % 16];
        i += 1;
    }
    table
}

/// Bytes under the mask.
fn mask_bytes(key: &[u8; 16], s: &[u8]) -> (r: Vec<u8>)
    ensures
        r@ == masked(key@, s@),
{
    let table = build_xor_table(key);
    let mut out: Vec<u8> = Vec::new();
    let mut i: usize = 0;
    while i < s.len()
        invariant
            i <= s@.len(),
            s.len() == s@.len(),
            forall|k: int| 0 <= k < 256 ==> #[trigger] table@[k] == mask(key@, k),
            out@ == masked(key@, s@).take(i as int),
        decreases s@.len() - i,
    {
        proof {
            assert(table@[i as int % 256] == mask(key@, i as int % 256));
            assert((i as int % 256) % 16 == i as int % 16);
        }
        out.push(s[i] ^ table[i % 256]);
        assert(out@ == masked(key@, s@).take(i + 1));
        i += 1;
    }
    assert(out@ == masked(key@, s@));
    out
}

/// The mask taken twice leaves the bytes as they were.
pub proof fn law_mask_twice(key: Seq<u8>, s: Seq<u8>)
    ensures
        masked(key, masked(key, s)) == s,
{
    assert forall|i: int| 0 <= i < s.len() implies masked(key, masked(key, s))[i] == s[i] by {
        lemma_xor_twice(s[i], mask(key, i));
    }
    assert(masked(key, masked(key, s)) == s);
}

fn encrypt_blocks(key: &[u8; 16], s: &[u8]) -> (r: Vec<u8>)
    ensures
        r@ == blocks_encrypted(key@, s@),
        r@.len() == s@.len(),
        blocks_decrypted(key@, r@) == s@,
{
    let n: usize = s.len();
    let mut out: Vec<u8> = Vec::new();
    let mut i: usize = 0;
    proof {
        assert(s@.skip(0) == s@);
        assert(Seq::<u8>::empty() + blocks_encrypted(key@, s@) == blocks_encrypted(key@, s@));
        assert forall|x: Seq<u8>| #[trigger] blocks_decrypted(key@, out@ + x) == s@.take(0)
            + blocks_decrypted(key@, x) by {
            assert(out@ + x == x);
            assert(s@.take(0) + blocks_decrypted(key@, x) == blocks_decrypted(key@, x));
        }
    }
    while n - i >= 16
        invariant
            i <= n,
            n == s@.len(),
            n == s.len(),
            out@.len() == i,
            out@ + blocks_encrypted(key@, s@.skip(i as int)) == blocks_encrypted(key@, s@),
            forall|x: Seq<u8>| #[trigger] blocks_decrypted(key@, out@ + x) == s@.take(i as int)
                + blocks_decrypted(key@, x),
        decreases n - i,
    {
        let ghost before = out@;
        let block = block_at(s, i);
        let first = encrypt_block(key, &block);
        emit(&mut out, &first);
        proof {
            let rest = s@.skip(i as int);
            assert(rest.take(16) == block@);
            assert(rest.skip(16) == s@.skip(i + 16));
            assert(before + (first@ + blocks_encrypted(key@, rest.skip(16))) == out@ + blocks_encrypted(
                key@,
                rest.skip(16),
            ));
            assert forall|x: Seq<u8>| #[trigger] blocks_decrypted(key@, out@ + x) == s@.take(i + 16)
                + blocks_decrypted(key@, x) by {
                let y = first@ + x;
                assert(out@ + x == before + y);
                assert(y.take(16) == first@);
                assert(y.skip(16) == x);
                assert(blocks_decrypted(key@, before + y) == s@.take(i as int) + blocks_decrypted(key@, y));
                assert(s@.take(i + 16) + blocks_decrypted(key@, x) == s@.take(i as int) + (block@
                    + blocks_decrypted(key@, x)));
            }
        }
        i += 16;
    }
    let rest = slice_subrange(s, i, n);
    let ghost before = out@;
    emit(&mut out, rest);
    proof {
        assert(rest@ == s@.skip(i as int));
        assert(out@ == before + rest@);
        assert(blocks_decrypted(key@, before + rest@) == s@.take(i as int) + rest@);
        assert(s@.take(i as int) + rest@ == s@);
    }
    out
}

fn decrypt_blocks(key: &[u8; 16], s: &[u8]) -> (r: Vec<u8>)
    ensures
        r@ == blocks_decrypted(key@, s@),
        r@.len() == s@.len(),
        blocks_encrypted(key@, r@) == s@,
{
    let n: usize = s.len();
    let mut out: Vec<u8> = Vec::new();
    let mut i: usize = 0;
    proof {
        assert(s@.skip(0) == s@);
        assert(Seq::<u8>::empty() + blocks_decrypted(key@, s@) == blocks_decrypted(key@, s@));
        assert forall|x: Seq<u8>| #[trigger] blocks_encrypted(key@, out@ + x) == s@.take(0)
            + blocks_encrypted(key@, x) by {
            assert(out@ + x == x);
            assert(s@.take(0) + blocks_encrypted(key@, x) == blocks_encrypted(key@, x));
        }
    }
    while n - i >= 16
        invariant
            i <= n,
            n == s@.len(),
            n == s.len(),
            out@.len() == i,
            out@ + blocks_decrypted(key@, s@.skip(i as int)) == blocks_decrypted(key@, s@),
            forall|x: Seq<u8>| #[trigger] blocks_encrypted(key@, out@ + x) == s@.take(i as int)
                + blocks_encrypted(key@, x),
        decreases n - i,
    {
        let ghost before = out@;
        let block = block_at(s, i);
        let first = decrypt_block(key, &block);
        emit(&mut out, &first);
        proof {
            let rest = s@.skip(i as int);
            assert(rest.take(16) == block@);
            assert(rest.skip(16) == s@.skip(i + 16));
            assert(before + (first@ + blocks_decrypted(key@, rest.skip(16))) == out@ + blocks_decrypted(
                key@,
                rest.skip(16),
            ));
            assert forall|x: Seq<u8>| #[trigger] blocks_encrypted(key@, out@ + x) == s@.take(i + 16)
                + blocks_encrypted(key@, x) by {
                let y = first@ + x;
                assert(out@ + x == before + y);
                assert(y.take(16) == first@);
                assert(y.skip(16) == x);
                assert(blocks_encrypted(key@, before + y) == s@.take(i as int) + blocks_encrypted(key@, y));
                assert(s@.take(i + 16) + blocks_encrypted(key@, x) == s@.take(i as int) + (block@
                    + blocks_encrypted(key@, x)));
            }
        }
        i += 16;
    }
    let rest = slice_subrange(s, i, n);
    let ghost before = out@;
    emit(&mut out, rest);
    proof {
        assert(rest@ == s@.skip(i as int));
        assert(out@ == before + rest@);
        assert(blocks_encrypted(key@, before + rest@) == s@.take(i as int) + rest@);
        assert(s@.take(i as int) + rest@ == s@);
    }
    out
}

/// Puts bytes in the place of as many others.
fn put_bytes(data: &mut [u8], new: &[u8])
    requires
        new@.len() == old(data)@.len(),
    ensures
        final(data)@ == new@,
{
    let n: usize = new.len();
    let mut i: usize = 0;
    while i < n
        invariant
            i <= n,
            n == new@.len(),
            data@.len() == n,
            forall|k: int| 0 <= k < i ==> data@[k] == new@[k],
        decreases n - i,
    {
        data[i] = new[i];
        i += 1;
    }
    assert(data@ == new@);
}

/// Encrypts bytes in their place. [`config_decrypt`] under the same key gives
/// them back.
pub fn config_encrypt(key: &[u8; 16], data: &mut [u8])
    ensures
        final(data)@ == encrypted(key@, old(data)@),
        final(data)@.len() == old(data)@.len(),
        decrypted(key@, final(data)@) == old(data)@,
{
    let m = mask_bytes(key, data);
    let out = encrypt_blocks(key, m.as_slice());
    proof {
        law_mask_twice(key@, data@);
    }
    put_bytes(data, out.as_slice());
}

/// Decrypts bytes in their place. [`config_encrypt`] under the same key gives
/// them back.
pub fn config_decrypt(key: &[u8; 16], data: &mut [u8])
    ensures
        final(data)@ == decrypted(key@, old(data)@),
        final(data)@.len() == old(data)@.len(),
        encrypted(key@, final(data)@) == old(data)@,
{
    let m = decrypt_blocks(key, data);
    let out = mask_bytes(key, m.as_slice());
    proof {
        law_mask_twice(key@, m@);
    }
    put_bytes(data, out.as_slice());
}

} // verus!

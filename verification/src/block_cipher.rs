//! Single blocks of AES with a 128-bit key.

use vstd::prelude::*;
use aes::cipher::{BlockDecrypt, BlockEncrypt, KeyInit};

verus! {

/// A block under AES-128.
pub uninterp spec fn aes128_encrypted(key: Seq<u8>, block: Seq<u8>) -> Seq<u8>;

/// A block that AES-128 is undone on.
pub uninterp spec fn aes128_decrypted(key: Seq<u8>, block: Seq<u8>) -> Seq<u8>;

/// `encrypt_block` of `aes::Aes128` depends on the key and the block alone, and
/// `decrypt_block` under the same key undoes it.
#[verifier::external_body]
pub(crate) fn encrypt_block(key: &[u8; 16], block: &[u8; 16]) -> (r: [u8; 16])
    ensures
        r@ == aes128_encrypted(key@, block@),
        aes128_decrypted(key@, r@) == block@,
{
    let cipher = aes::Aes128::new(key.into());
    let mut b = aes::Block::from(*block);
    cipher.encrypt_block(&mut b);
    b.into()
}

/// `decrypt_block` of `aes::Aes128` depends on the key and the block alone, and
/// `encrypt_block` under the same key undoes it.
#[verifier::external_body]
pub(crate) fn decrypt_block(key: &[u8; 16], block: &[u8; 16]) -> (r: [u8; 16])
    ensures
        r@ == aes128_decrypted(key@, block@),
        aes128_encrypted(key@, r@) == block@,
{
    let cipher = aes::Aes128::new(key.into());
    let mut b = aes::Block::from(*block);
    cipher.decrypt_block(&mut b);
    b.into()
}

/// The sixteen bytes at `at`.
pub(crate) fn block_at(s: &[u8], at: usize) -> (r: [u8; 16])
    requires
        at + 16 <= s@.len(),
    ensures
        r@ == s@.subrange(at as int, at + 16),
{
    let mut r: [u8; 16] = [0, 0, 0, 0, 0, 0, 0, 0, 0, 0, 0, 0, 0, 0, 0, 0];
    let mut i: usize = 0;
    while i < 16
        invariant
            i <= 16,
            at + 16 <= s@.len(),
            s.len() == s@.len(),
            forall|k: int| 0 <= k < i ==> r@[k] == s@[at + k],
        decreases 16 - i,
    {
        r[i] = s[at + i];
        i += 1;
    }
    assert(r@ == s@.subrange(at as int, at + 16));
    r
}

/// Two numbers of eight bits, bit by bit, and the same again.
pub proof fn lemma_xor_twice(a: u8, b: u8)
    ensures
        a ^ b ^ b == a,
{
    assert(a ^ b ^ b == a) by (bit_vector);
}

} // verus!

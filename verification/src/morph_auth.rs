//! The authentication tag of a packed morph file.
//!
//! A packed file ends in sixteen bytes that are computed from all bytes in front
//! of them: AES in a chain over the length and the padded bytes, under a key
//! that the encoder and the launcher share.

use vstd::prelude::*;
use crate::block_cipher::encrypt_block;
#[allow(unused_imports)]
use crate::block_cipher::{aes128_decrypted, aes128_encrypted};
#[allow(unused_imports)]
use crate::code::le64;
#[allow(unused_imports)]
use crate::memory::zeros;

verus! {

/// The key of the tag.
pub const MORPH_AUTH_KEY: [u8; 16] = [
    0xC7, 0x9A, 0x14, 0xFE, 0x81, 0x23, 0x6B, 0x4D, 0xA8, 0x50, 0xE2, 0x9C, 0x3F, 0x17, 0xDA, 0x6B,
];

/// The length of the tag.
pub const MORPH_MAC_LEN: usize = 16;

/// Two blocks, bit by bit.
pub open spec fn mixed(a: Seq<u8>, b: Seq<u8>) -> Seq<u8> {
    Seq::new(16, |i: int| a[i] ^ b[i])
}

/// The state of the chain behind one more block.
pub open spec fn chained(state: Seq<u8>, block: Seq<u8>) -> Seq<u8> {
    aes128_encrypted(MORPH_AUTH_KEY@, mixed(state, block))
}

/// Fewer than sixteen bytes as a block: one bit is set behind them.
pub open spec fn padded(d: Seq<u8>) -> Seq<u8> {
    Seq::new(
        16,
        |i: int|
            if i < d.len() {
                d[i]
            } else if i == d.len() {
                0x80u8
            } else {
                0u8
            },
    )
}

/// The state of the chain behind all bytes. Behind a last block that is full
/// comes one of padding alone. No block comes of no bytes.
pub open spec fn absorbed(state: Seq<u8>, d: Seq<u8>) -> Seq<u8>
    decreases d.len(),
{
    if d.len() == 0 {
        state
    } else if d.len() < 16 {
        chained(state, padded(d))
    } else if d.len() == 16 {
        chained(chained(state, d), padded(seq![]))
    } else {
        absorbed(chained(state, d.take(16)), d.skip(16))
    }
}

/// The tag of some bytes: the chain over their number and over themselves.
pub open spec fn mac_of(data: Seq<u8>) -> Seq<u8> {
    absorbed(counted(data.len()), data)
}

/// The cipher can be undone on a block of the chain.
pub open spec fn undoes(state: Seq<u8>, block: Seq<u8>) -> bool {
    &&& chained(state, block).len() == 16
    &&& aes128_decrypted(MORPH_AUTH_KEY@, chained(state, block)) == mixed(state, block)
}

/// The cipher can be undone on every block of the chain from a state on.
pub open spec fn undoes_all(state: Seq<u8>, d: Seq<u8>) -> bool
    decreases d.len(),
{
    if d.len() == 0 {
        true
    } else if d.len() < 16 {
        undoes(state, padded(d))
    } else if d.len() == 16 {
        undoes(state, d) && undoes(chained(state, d), padded(seq![]))
    } else {
        undoes(state, d.take(16)) && undoes_all(chained(state, d.take(16)), d.skip(16))
    }
}

/// The state behind the number of some bytes.
pub open spec fn counted(n: nat) -> Seq<u8> {
    chained(zeros(16), padded(le64(n as u64)))
}

/// The chain over some bytes can be undone block by block.
pub open spec fn is_reversible(data: Seq<u8>) -> bool {
    undoes(zeros(16), padded(le64(data.len() as u64))) && undoes_all(counted(data.len()), data)
}

/// Two runs of bytes are the same outside their k-th blocks.
pub open spec fn same_outside(a: Seq<u8>, b: Seq<u8>, k: nat) -> bool {
    &&& a.len() == b.len()
    &&& forall|i: int|
        0 <= i < a.len() && !(16 * k <= i < 16 * k + 16) ==> #[trigger] a[i] == b[i]
}

proof fn lemma_mixed_block(state: Seq<u8>, a: Seq<u8>, b: Seq<u8>)
    requires
        a.len() == 16,
        b.len() == 16,
        mixed(state, a) == mixed(state, b),
    ensures
        a == b,
{
    assert forall|i: int| 0 <= i < 16 implies a[i] == b[i] by {
        let s = state[i];
        let x = a[i];
        let y = b[i];
        assert(mixed(state, a)[i] == s ^ x);
        assert(mixed(state, b)[i] == s ^ y);
        assert(s ^ x == s ^ y ==> x == y) by (bit_vector);
    }
    assert(a == b);
}

proof fn lemma_mixed_state(s: Seq<u8>, t: Seq<u8>, block: Seq<u8>)
    requires
        s.len() == 16,
        t.len() == 16,
        mixed(s, block) == mixed(t, block),
    ensures
        s == t,
{
    assert forall|i: int| 0 <= i < 16 implies s[i] == t[i] by {
        let b = block[i];
        let x = s[i];
        let y = t[i];
        assert(mixed(s, block)[i] == x ^ b);
        assert(mixed(t, block)[i] == y ^ b);
        assert(x ^ b == y ^ b ==> x == y) by (bit_vector);
    }
    assert(s == t);
}

proof fn lemma_same_tail(s: Seq<u8>, t: Seq<u8>, d: Seq<u8>)
    requires
        s.len() == 16,
        t.len() == 16,
        undoes_all(s, d),
        undoes_all(t, d),
        absorbed(s, d) == absorbed(t, d),
    ensures
        s == t,
    decreases d.len(),
{
    if d.len() == 0 {
    } else if d.len() < 16 {
        lemma_mixed_state(s, t, padded(d));
    } else if d.len() == 16 {
        lemma_mixed_state(chained(s, d), chained(t, d), padded(seq![]));
        lemma_mixed_state(s, t, d);
    } else {
        let first = d.take(16);
        lemma_same_tail(chained(s, first), chained(t, first), d.skip(16));
        lemma_mixed_state(s, t, first);
    }
}

proof fn lemma_one_block(state: Seq<u8>, a: Seq<u8>, b: Seq<u8>, k: nat)
    requires
        undoes_all(state, a),
        undoes_all(state, b),
        same_outside(a, b, k),
        a != b,
    ensures
        absorbed(state, a) != absorbed(state, b),
    decreases a.len(),
{
    if absorbed(state, a) == absorbed(state, b) {
        if a.len() == 0 {
            assert(a == b);
        } else if a.len() < 16 {
            lemma_mixed_block(state, padded(a), padded(b));
            assert forall|i: int| 0 <= i < a.len() implies a[i] == b[i] by {
                assert(padded(a)[i] == a[i]);
                assert(padded(b)[i] == b[i]);
            }
            assert(a == b);
        } else if a.len() == 16 {
            lemma_mixed_state(chained(state, a), chained(state, b), padded(seq![]));
            lemma_mixed_block(state, a, b);
        } else if k == 0 {
            assert(a.skip(16) == b.skip(16));
            lemma_same_tail(
                chained(state, a.take(16)),
                chained(state, b.take(16)),
                a.skip(16),
            );
            lemma_mixed_block(state, a.take(16), b.take(16));
            assert(a == a.take(16) + a.skip(16));
            assert(b == b.take(16) + b.skip(16));
        } else {
            assert(a.take(16) == b.take(16));
            let x = a.skip(16);
            let y = b.skip(16);
            assert forall|i: int|
                0 <= i < x.len() && !(16 * (k - 1) <= i < 16 * (k - 1) + 16) implies
                #[trigger] x[i] == y[i] by {
                assert(a[i + 16] == b[i + 16]);
            }
            assert(x != y) by {
                if x == y {
                    assert(a == a.take(16) + a.skip(16));
                    assert(b == b.take(16) + b.skip(16));
                }
            }
            lemma_one_block(chained(state, a.take(16)), x, y, (k - 1) as nat);
        }
    }
}

/// A change within one block shows: bytes of the same number that are the same
/// but for one block of sixteen have another tag. [`morph_mac`] shows of the
/// bytes that it is given that their chain can be undone.
pub proof fn law_mac_shows_a_change(a: Seq<u8>, b: Seq<u8>, k: nat)
    requires
        is_reversible(a),
        is_reversible(b),
        same_outside(a, b, k),
        a != b,
    ensures
        mac_of(a) != mac_of(b),
{
    lemma_one_block(counted(a.len()), a, b, k);
}

/// Takes one more block into the state.
fn cbc_step(state: &[u8; 16], blk: &[u8; 16]) -> (r: [u8; 16])
    ensures
        r@ == chained(state@, blk@),
        undoes(state@, blk@),
{
    let mut m: [u8; 16] = [0, 0, 0, 0, 0, 0, 0, 0, 0, 0, 0, 0, 0, 0, 0, 0];
    let mut i: usize = 0;
    while i < 16
        invariant
            i <= 16,
            forall|k: int| 0 <= k < i ==> m@[k] == state@[k] ^ blk@[k],
        decreases 16 - i,
    {
        m[i] = state[i] ^ blk[i];
        i += 1;
    }
    assert(m@ == mixed(state@, blk@));
    encrypt_block(&MORPH_AUTH_KEY, &m)
}

/// At most sixteen bytes as a block.
fn pad_block(s: &[u8], at: usize, n: usize) -> (r: [u8; 16])
    requires
        at + n <= s@.len(),
        n <= 16,
    ensures
        r@ == padded(s@.subrange(at as int, at + n)),
        n == 16 ==> r@ == s@.subrange(at as int, at + 16),
{
    let mut r: [u8; 16] = [0, 0, 0, 0, 0, 0, 0, 0, 0, 0, 0, 0, 0, 0, 0, 0];
    let mut i: usize = 0;
    while i < n
        invariant
            i <= n,
            n <= 16,
            at + n <= s@.len(),
            s.len() == s@.len(),
            forall|k: int| 0 <= k < i ==> r@[k] == s@[at + k],
            forall|k: int| i <= k < 16 ==> r@[k] == 0,
        decreases n - i,
    {
        r[i] = s[at + i];
        i += 1;
    }
    if n < 16 {
        r[n] = 0x80;
    }
    assert(r@ == padded(s@.subrange(at as int, at + n)));
    r
}

/// The tag of some bytes.
pub fn morph_mac(data: &[u8]) -> (r: [u8; 16])
    ensures
        r@ == mac_of(data@),
        is_reversible(data@),
{
    let n: usize = data.len();
    let mut length: Vec<u8> = Vec::new();
    crate::code::emit64(&mut length, n as u64);
    assert(length@ == le64(data@.len() as u64));
    let first = pad_block(length.as_slice(), 0, 8);
    assert(length@.subrange(0, 8) == length@);
    let zero: [u8; 16] = [0, 0, 0, 0, 0, 0, 0, 0, 0, 0, 0, 0, 0, 0, 0, 0];
    assert(zero@ == zeros(16));
    let mut state = cbc_step(&zero, &first);
    let mut i: usize = 0;
    assert(data@.skip(0) == data@);
    while n - i > 16
        invariant
            i <= n,
            n == data@.len(),
            n == data.len(),
            absorbed(state@, data@.skip(i as int)) == mac_of(data@),
            undoes_all(state@, data@.skip(i as int)) ==> is_reversible(data@),
        decreases n - i,
    {
        let blk = pad_block(data, i, 16);
        proof {
            let rest = data@.skip(i as int);
            assert(rest.take(16) == blk@);
            assert(rest.skip(16) == data@.skip(i + 16));
        }
        state = cbc_step(&state, &blk);
        i += 16;
    }
    let left: usize = n - i;
    if left > 0 {
        let blk = pad_block(data, i, left);
        assert(data@.skip(i as int) == data@.subrange(i as int, i + left));
        state = cbc_step(&state, &blk);
        if left == 16 {
            let last = pad_block(data, n, 0);
            assert(data@.subrange(n as int, n as int) == Seq::<u8>::empty());
            state = cbc_step(&state, &last);
        }
    }
    state
}

/// Whether a packed file ends in its tag, and the bytes in front of the tag.
pub open spec fn is_tagged(raw: Seq<u8>) -> bool {
    &&& raw.len() >= MORPH_MAC_LEN
    &&& raw.skip(raw.len() - MORPH_MAC_LEN) == mac_of(raw.take(raw.len() - MORPH_MAC_LEN))
}

/// Whether a packed file ends in its tag.
pub fn has_tag(raw: &[u8]) -> (r: bool)
    ensures
        r == is_tagged(raw@),
{
    let n: usize = raw.len();
    if n < MORPH_MAC_LEN {
        return false;
    }
    let split: usize = n - MORPH_MAC_LEN;
    let head = vstd::slice::slice_subrange(raw, 0, split);
    let tail = vstd::slice::slice_subrange(raw, split, n);
    assert(head@ == raw@.take(split as int));
    assert(tail@ == raw@.skip(split as int));
    let tag = morph_mac(head);
    crate::code::eq_bytes(&tag, tail)
}

} // verus!

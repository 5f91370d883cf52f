//! Bytes as base64, with the standard alphabet and padding.

use vstd::prelude::*;
use base64::engine::general_purpose::STANDARD;
use base64::Engine;

verus! {

/// The character of six bits.
#[verifier::opaque]
pub open spec fn symbol(v: int) -> char {
    if v < 26 {
        ('A' as int + v) as char
    } else if v < 52 {
        ('a' as int + v - 26) as char
    } else if v < 62 {
        ('0' as int + v - 52) as char
    } else if v == 62 {
        '+'
    } else {
        '/'
    }
}

/// The four characters of three bytes.
pub open spec fn quad(a: u8, b: u8, c: u8) -> Seq<char> {
    let n = a * 65536 + b * 256 + c;
    seq![symbol(n / 262144), symbol(n / 4096 % 64), symbol(n / 64 % 64), symbol(n % 64)]
}

/// Bytes as base64.
pub open spec fn base64_of(s: Seq<u8>) -> Seq<char>
    decreases s.len(),
{
    if s.len() == 0 {
        seq![]
    } else if s.len() == 1 {
        quad(s[0], 0, 0).take(2) + seq!['=', '=']
    } else if s.len() == 2 {
        quad(s[0], s[1], 0).take(3) + seq!['=']
    } else {
        quad(s[0], s[1], s[2]) + base64_of(s.skip(3))
    }
}

/// `encode` of base64's `STANDARD` engine gives [`base64_of`] the bytes. It
/// panics where the text would be longer than any allocation can be, which is
/// half of the address space.
#[verifier::external_body]
fn encode_standard(data: &[u8]) -> (r: String)
    requires
        data@.len() <= usize::MAX / 8 * 3,
    ensures
        r@ == base64_of(data@),
{
    STANDARD.encode(data)
}

/// `decode` of base64's `STANDARD` engine accepts canonical, padded base64 and
/// nothing else: a text is decoded exactly where it is [`base64_of`] some bytes,
/// and those bytes come back.
#[verifier::external_body]
fn decode_standard(s: &str) -> (r: Option<Vec<u8>>)
    ensures
        match r {
            Some(v) => s@ == base64_of(v@),
            None => forall|v: Seq<u8>| s@ != #[trigger] base64_of(v),
        },
{
    STANDARD.decode(s).ok()
}

proof fn lemma_symbol(v: int)
    requires
        0 <= v < 64,
    ensures
        symbol(v) != '=',
        !crate::text::is_space(symbol(v)),
{
    reveal(symbol);
}

proof fn lemma_symbol_injective(v: int, w: int)
    requires
        0 <= v < 64,
        0 <= w < 64,
        symbol(v) == symbol(w),
    ensures
        v == w,
{
    reveal(symbol);
}

proof fn lemma_six_bits(n: int, m: int)
    requires
        0 <= n < 0x100_0000,
        0 <= m < 0x100_0000,
        n / 262144 == m / 262144,
        n / 4096 % 64 == m / 4096 % 64,
        n / 64 % 64 == m / 64 % 64,
        n % 64 == m % 64,
    ensures
        n == m,
{
    vstd::arithmetic::div_mod::lemma_div_denominator(n, 64, 64);
    vstd::arithmetic::div_mod::lemma_div_denominator(m, 64, 64);
    vstd::arithmetic::div_mod::lemma_div_denominator(n, 4096, 64);
    vstd::arithmetic::div_mod::lemma_div_denominator(m, 4096, 64);
    assert(n / 4096 == m / 4096);
    assert(n / 64 == m / 64);
}

proof fn lemma_low_bits(n: int)
    ensures
        (n * 65536) / 64 % 64 == 0,
        (n * 256) % 64 == 0,
{
    vstd::arithmetic::div_mod::lemma_div_multiples_vanish(n * 1024, 64);
    vstd::arithmetic::div_mod::lemma_mod_multiples_basic(n * 16, 64);
    vstd::arithmetic::div_mod::lemma_mod_multiples_basic(n * 4, 64);
    assert(n * 65536 == 64 * (n * 1024));
    assert(n * 1024 == (n * 16) * 64);
    assert(n * 256 == (n * 4) * 64);
}

proof fn lemma_three_bytes(a: u8, b: u8, c: u8, x: u8, y: u8, z: u8)
    requires
        a * 65536 + b * 256 + c == x * 65536 + y * 256 + z,
    ensures
        a == x && b == y && c == z,
{
}

/// The i-th byte; zero behind the last.
spec fn byte_at(s: Seq<u8>, i: int) -> u8 {
    if i < s.len() {
        s[i]
    } else {
        0
    }
}

/// The number of the first three bytes.
#[verifier::opaque]
spec fn head_number(s: Seq<u8>) -> int {
    byte_at(s, 0) * 65536 + byte_at(s, 1) * 256 + byte_at(s, 2)
}

proof fn lemma_head_number(s: Seq<u8>)
    requires
        s.len() > 0,
    ensures
        0 <= head_number(s) < 0x100_0000,
        s.len() == 1 ==> head_number(s) / 64 % 64 == 0,
        s.len() <= 2 ==> head_number(s) % 64 == 0,
{
    reveal(head_number);
    lemma_low_bits(byte_at(s, 0) as int);
    lemma_low_bits(byte_at(s, 0) * 256 + byte_at(s, 1));
}

proof fn lemma_head(s: Seq<u8>)
    requires
        s.len() > 0,
    ensures
        base64_of(s).len() >= 4,
        base64_of(s)[0] == symbol(head_number(s) / 262144),
        base64_of(s)[1] == symbol(head_number(s) / 4096 % 64),
        base64_of(s)[2] == if s.len() > 1 {
            symbol(head_number(s) / 64 % 64)
        } else {
            '='
        },
        base64_of(s)[3] == if s.len() > 2 {
            symbol(head_number(s) % 64)
        } else {
            '='
        },
        s.len() > 2 ==> base64_of(s).skip(4) == base64_of(s.skip(3)),
        s.len() <= 2 ==> base64_of(s).len() == 4,
{
    reveal(head_number);
    if s.len() > 2 {
        assert(base64_of(s).skip(4) == base64_of(s.skip(3)));
    }
}

proof fn lemma_same_head(s: Seq<u8>, t: Seq<u8>)
    requires
        s.len() > 0,
        t.len() > 0,
        base64_of(s) == base64_of(t),
    ensures
        head_number(s) == head_number(t),
        (s.len() > 1) == (t.len() > 1),
        (s.len() > 2) == (t.len() > 2),
{
    let n = head_number(s);
    let m = head_number(t);
    lemma_head(s);
    lemma_head(t);
    lemma_head_number(s);
    lemma_head_number(t);
    lemma_symbol(n / 64 % 64);
    lemma_symbol(n % 64);
    lemma_symbol(m / 64 % 64);
    lemma_symbol(m % 64);
    lemma_symbol_injective(n / 262144, m / 262144);
    lemma_symbol_injective(n / 4096 % 64, m / 4096 % 64);
    if s.len() > 1 {
        lemma_symbol_injective(n / 64 % 64, m / 64 % 64);
    }
    if s.len() > 2 {
        lemma_symbol_injective(n % 64, m % 64);
    }
    lemma_six_bits(n, m);
}

proof fn lemma_same_bytes(s: Seq<u8>, t: Seq<u8>)
    requires
        head_number(s) == head_number(t),
    ensures
        byte_at(s, 0) == byte_at(t, 0),
        byte_at(s, 1) == byte_at(t, 1),
        byte_at(s, 2) == byte_at(t, 2),
{
    reveal(head_number);
    lemma_three_bytes(
        byte_at(s, 0),
        byte_at(s, 1),
        byte_at(s, 2),
        byte_at(t, 0),
        byte_at(t, 1),
        byte_at(t, 2),
    );
}

/// A text is the base64 of one run of bytes only.
pub proof fn law_base64_injective(s: Seq<u8>, t: Seq<u8>)
    requires
        base64_of(s) == base64_of(t),
    ensures
        s == t,
    decreases s.len(),
{
    if s.len() == 0 {
        if t.len() > 0 {
            lemma_head(t);
        }
        assert(s == t);
    } else if t.len() == 0 {
        lemma_head(s);
    } else {
        lemma_same_head(s, t);
        lemma_same_bytes(s, t);
        if s.len() > 2 {
            lemma_head(s);
            lemma_head(t);
            law_base64_injective(s.skip(3), t.skip(3));
            assert(s == seq![s[0], s[1], s[2]] + s.skip(3));
            assert(t == seq![t[0], t[1], t[2]] + t.skip(3));
        } else {
            assert(s == t);
        }
    }
}

/// Base64 holds no white space.
pub proof fn lemma_base64_solid(s: Seq<u8>)
    ensures
        forall|i: int| 0 <= i < base64_of(s).len() ==> !crate::text::is_space(
            #[trigger] base64_of(s)[i],
        ),
    decreases s.len(),
{
    let b = base64_of(s);
    if s.len() > 0 {
        let sb = if s.len() > 1 {
            s[1]
        } else {
            0
        };
        let sc = if s.len() > 2 {
            s[2]
        } else {
            0
        };
        let n = s[0] * 65536 + sb * 256 + sc;
        lemma_symbol(n / 262144);
        lemma_symbol(n / 4096 % 64);
        lemma_symbol(n / 64 % 64);
        lemma_symbol(n % 64);
        if s.len() > 2 {
            lemma_base64_solid(s.skip(3));
        }
        assert forall|i: int| 0 <= i < b.len() implies !crate::text::is_space(#[trigger] b[i]) by {
            if i >= 4 {
                assert(b[i] == base64_of(s.skip(3))[i - 4]);
            } else if s.len() > 2 {
                assert(b[i] == quad(s[0], s[1], s[2])[i]);
            } else if s.len() == 2 {
                assert(i < 3 ==> b[i] == quad(s[0], s[1], 0)[i]);
            } else {
                assert(i < 2 ==> b[i] == quad(s[0], 0, 0)[i]);
            }
        }
    }
}

/// Bytes as base64.
pub fn encode(data: &[u8]) -> (r: String)
    requires
        data@.len() <= usize::MAX / 8 * 3,
    ensures
        r@ == base64_of(data@),
{
    encode_standard(data)
}

/// The bytes of base64. `None` where the text is not the base64 of any bytes.
pub fn decode(s: &str) -> (r: Option<Vec<u8>>)
    ensures
        match r {
            Some(v) => s@ == base64_of(v@),
            None => forall|v: Seq<u8>| s@ != #[trigger] base64_of(v),
        },
{
    decode_standard(s)
}

} // verus!

//! What holds of servers and settings that are written and read back.

use vstd::prelude::*;
use vstd::utf8::encode_utf8;
use crate::code::{from_le16, law_le32_reads_back, le16, le32};
use crate::legacy_text::lemma_until_zero;
use crate::server_list::info::{
    flag, info_bytes, narrow_field, narrow_text, parsed_info, signed, units_until_zero, unsigned,
    wide_field, wide_text, ServerModel,
};
use crate::unicode::{char_units, law_utf16_reads_back, lemma_char, utf16_of};

verus! {

/// A text fits into 64 bytes and holds no terminator.
pub open spec fn fits_wide(s: Seq<char>) -> bool {
    utf16_of(s).len() <= 31 && !s.contains('\0')
}

/// A text fits into 32 bytes and holds no terminator.
pub open spec fn fits_narrow(s: Seq<char>) -> bool {
    encode_utf8(s).len() <= 31 && !encode_utf8(s).contains(0)
}

/// A server whose texts fit into their fields.
pub open spec fn fits(m: ServerModel) -> bool {
    &&& fits_wide(m.name)
    &&& fits_wide(m.bdfile)
    &&& fits_narrow(m.ip)
    &&& m.key.len() == 16
    &&& i32::MIN <= m.port <= i32::MAX
}

proof fn lemma_units_not_zero(s: Seq<char>)
    requires
        !s.contains('\0'),
    ensures
        forall|i: int| 0 <= i < utf16_of(s).len() ==> #[trigger] utf16_of(s)[i] != 0,
    decreases s.len(),
{
    if s.len() > 0 {
        let rest = s.drop_last();
        let c = s.last();
        assert(!rest.contains('\0')) by {
            if rest.contains('\0') {
                let k = choose|k: int| 0 <= k < rest.len() && rest[k] == '\0';
                assert(s[k] == '\0');
            }
        }
        assert(c != '\0') by {
            assert(s[s.len() - 1] == c);
        }
        lemma_units_not_zero(rest);
        lemma_char(c);
        let u = utf16_of(s);
        let r = utf16_of(rest);
        assert forall|i: int| 0 <= i < u.len() implies #[trigger] u[i] != 0 by {
            if i < r.len() {
                assert(u[i] == r[i]);
            } else {
                assert(u[i] == char_units(c)[i - r.len()]);
            }
        }
    }
}

proof fn lemma_units_from(s: Seq<char>, k: int)
    requires
        fits_wide(s),
        0 <= k <= utf16_of(s).len(),
    ensures
        units_until_zero(wide_field(s).skip(2 * k)) == utf16_of(s).skip(k),
    decreases utf16_of(s).len() - k,
{
    let u = utf16_of(s);
    let w = wide_field(s);
    let rest = w.skip(2 * k);
    assert(rest.len() == 64 - 2 * k);
    assert(rest.take(2)[0] == w[2 * k] && rest.take(2)[1] == w[2 * k + 1]);
    if k == u.len() {
        assert(from_le16(rest.take(2)) == 0);
        assert(u.skip(k) == Seq::<u16>::empty());
    } else {
        lemma_units_not_zero(s);
        lemma_units_from(s, k + 1);
        let x = u[k];
        assert(w[2 * k] == le16(x)[0]);
        assert(w[2 * k + 1] == le16(x)[1]);
        assert(from_le16(rest.take(2)) == x);
        assert(rest.skip(2) == w.skip(2 * (k + 1)));
        assert(u.skip(k) == seq![x] + u.skip(k + 1));
    }
}

proof fn lemma_wide_reads_back(s: Seq<char>)
    requires
        fits_wide(s),
    ensures
        wide_text(wide_field(s)) == s,
{
    lemma_units_from(s, 0);
    assert(wide_field(s).skip(0) == wide_field(s));
    assert(utf16_of(s).skip(0) == utf16_of(s));
    law_utf16_reads_back(s);
}

proof fn lemma_narrow_reads_back(s: Seq<char>)
    requires
        fits_narrow(s),
    ensures
        narrow_text(narrow_field(s)) == s,
{
    let b = encode_utf8(s);
    let f = narrow_field(s);
    let n = b.len() as int;
    assert forall|i: int| 0 <= i < n implies f[i] != 0 by {
        assert(f[i] == b[i]);
        assert(b.contains(b[i]));
    }
    lemma_until_zero(f, n);
    assert(f.take(n) == b);
    vstd::utf8::encode_utf8_valid_utf8(s);
    vstd::utf8::encode_utf8_decode_utf8(s);
}

/// A server whose texts fit into their fields is read back from its bytes.
pub proof fn law_server_reads_back(m: ServerModel)
    requires
        fits(m),
    ensures
        info_bytes(m).len() == 213,
        parsed_info(info_bytes(m)) == m,
{
    let d = info_bytes(m);
    assert(d.len() == 213);
    lemma_wide_reads_back(m.name);
    lemma_wide_reads_back(m.bdfile);
    lemma_narrow_reads_back(m.ip);
    law_le32_reads_back(unsigned(m.port));
    law_le32_reads_back(m.rsa_e);
    law_le32_reads_back(m.rsa_d);
    law_le32_reads_back(m.rsa_n);
    assert(d.subrange(0, 64) == wide_field(m.name));
    assert(d.subrange(64, 96) == narrow_field(m.ip));
    assert(d.subrange(96, 100) == le32(unsigned(m.port)));
    assert(d[100] == flag(m.used));
    assert(d.subrange(101, 117) == m.key);
    assert(d[117] == flag(m.encrypt) && d[118] == flag(m.usehelper) && d[119] == flag(m.usebd));
    assert(d.subrange(120, 184) == wide_field(m.bdfile));
    assert(d[184] == flag(m.randkey));
    assert(d.subrange(185, 189) == le32(m.rsa_e));
    assert(d.subrange(189, 193) == le32(m.rsa_d));
    assert(d.subrange(193, 197) == le32(m.rsa_n));
    assert(signed(unsigned(m.port)) == m.port);
}

} // verus!

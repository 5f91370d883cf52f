//! How the entries of the client's settings lie behind one another.

use crate::code::{law_le32_reads_back, le32};
use crate::lineage_cfg::{
    first_zero, label_of, number_at, overwritten, place_of, spaced_hex, updated, CfgError,
};
use crate::text::hex_of;
use vstd::prelude::*;

verus! {

/// An entry with a number for its key: the key, the length of its value, and the value.
pub open spec fn entry_at(data: Seq<u8>, off: int, key: u32, value: Seq<u8>) -> bool {
    &&& 0 <= off
    &&& off + 8 + value.len() <= data.len()
    &&& data.subrange(off, off + 4) == le32(key)
    &&& data.subrange(off + 4, off + 8) == le32(value.len() as u32)
    &&& data.subrange(off + 8, off + 8 + value.len()) == value
}

/// The entry of a key is found where it stands, with its own length; one of another
/// length is an error, and the entries of other keys are passed over.
pub proof fn law_entries_in_turn(
    data: Seq<u8>,
    off: int,
    k: u32,
    value: Seq<u8>,
    key: u32,
    size: nat,
)
    requires
        entry_at(data, off, k, value),
        k < 0x2710,
        value.len() <= 1024,
    ensures
        k == key && value.len() == size ==> place_of(data, off, key, size) == Ok::<_, CfgError>(
            Some(off + 8),
        ),
        k == key && value.len() != size ==> place_of(data, off, key, size) == Err::<Option<int>, _>(
            CfgError::SizeMismatch(key, size as usize, value.len() as u32),
        ),
        k != key ==> place_of(data, off, key, size) == place_of(
            data,
            off + 8 + value.len(),
            key,
            size,
        ),
{
    law_le32_reads_back(k);
    law_le32_reads_back(value.len() as u32);
    assert(number_at(data, off) == k);
    assert(number_at(data, off + 4) == value.len());
}

/// An entry of text has a key from 10000 on, and its value goes up to the first zero; it
/// is passed over, and it is an error where there is no zero.
pub proof fn law_texts_are_passed_over(
    data: Seq<u8>,
    off: int,
    k: u32,
    text: Seq<u8>,
    key: u32,
    size: nat,
)
    requires
        0 <= off,
        off + 4 + text.len() <= data.len(),
        data.subrange(off, off + 4) == le32(k),
        0x2710 <= k < 0xFFFF_FFFF,
        data.subrange(off + 4, off + 4 + text.len()) == text,
        !text.contains(0),
    ensures
        off + 4 + text.len() < data.len() && data[off + 4 + text.len()] == 0 ==> place_of(
            data,
            off,
            key,
            size,
        ) == place_of(data, off + 4 + text.len() + 1, key, size),
        off + 4 + text.len() == data.len() ==> place_of(data, off, key, size) == Err::<
            Option<int>,
            _,
        >(CfgError::OpenText),
{
    law_le32_reads_back(k);
    assert(number_at(data, off) == k);
    lemma_zero(data, off + 4, off + 4 + text.len(), off + 4, text);
}

proof fn lemma_zero(data: Seq<u8>, from: int, end: int, base: int, text: Seq<u8>)
    requires
        0 <= base <= from <= end <= data.len(),
        end == base + text.len(),
        data.subrange(base, end) == text,
        !text.contains(0),
    ensures
        end < data.len() && data[end] == 0 ==> first_zero(data, from) == Some(end),
        end == data.len() ==> first_zero(data, from) is None,
    decreases end - from,
{
    if from < end {
        assert(data.subrange(base, end)[from - base] == data[from]);
        assert(text.contains(text[from - base]));
        lemma_zero(data, from + 1, end, base, text);
    }
}

/// The entries end at the key of ones alone, or where no key fits in any more.
pub proof fn law_entries_end(data: Seq<u8>, off: int, key: u32, size: nat)
    requires
        0 <= off,
    ensures
        off + 4 > data.len() ==> place_of(data, off, key, size) == Ok::<_, CfgError>(None::<int>),
        off + 4 <= data.len() && data.subrange(off, off + 4) == le32(0xFFFF_FFFF) ==> place_of(
            data,
            off,
            key,
            size,
        ) == Ok::<_, CfgError>(None::<int>),
{
    law_le32_reads_back(0xFFFF_FFFF);
}

/// A key without a length, and a length of more than 1024 or beyond the end, are errors
/// that name the place.
pub proof fn law_broken_entries(data: Seq<u8>, off: int, k: u32, n: u32, key: u32, size: nat)
    requires
        0 <= off,
        off + 4 <= data.len() <= usize::MAX,
        data.subrange(off, off + 4) == le32(k),
        k < 0x2710,
    ensures
        off + 8 > data.len() ==> place_of(data, off, key, size) == Err::<Option<int>, _>(
            CfgError::Truncated(off as usize),
        ),
        off + 8 <= data.len() && data.subrange(off + 4, off + 8) == le32(n) && (n > 1024 || off + 8
            + n > data.len()) ==> place_of(data, off, key, size) == Err::<Option<int>, _>(
            CfgError::Corrupt(off as usize, k, n),
        ),
{
    law_le32_reads_back(k);
    law_le32_reads_back(n);
    assert(number_at(data, off) == k);
}

/// Settings shorter than their header and one key are refused. An update changes the
/// bytes of its own value alone, and nothing where they are there already or the key is
/// missing.
pub proof fn law_update(data: Seq<u8>, key: u32, new: Seq<u8>, i: int)
    requires
        0 <= i < data.len(),
    ensures
        data.len() < 32 ==> updated(data, key, new) == Err::<Option<Seq<u8>>, _>(
            CfgError::TooShort(data.len() as usize),
        ),
        data.len() >= 32 ==> match place_of(data, 28, key, new.len()) {
            Err(e) => updated(data, key, new) == Err::<Option<Seq<u8>>, _>(e),
            Ok(None) => updated(data, key, new) == Ok::<_, CfgError>(None::<Seq<u8>>),
            Ok(Some(p)) => 0 <= p && p + new.len() <= data.len() ==> {
                &&& data.subrange(p, p + new.len()) == new ==> updated(data, key, new) == Ok::<
                    _,
                    CfgError,
                >(None::<Seq<u8>>)
                &&& data.subrange(p, p + new.len()) != new ==> (updated(data, key, new) matches Ok(
                    Some(after),
                ) && {
                    &&& after.len() == data.len()
                    &&& p <= i < p + new.len() ==> after[i] == new[i - p]
                    &&& i < p || i >= p + new.len() ==> after[i] == data[i]
                })
            },
        },
{
    if data.len() >= 32 {
        if let Ok(Some(p)) = place_of(data, 28, key, new.len()) {
            if 0 <= p && p + new.len() <= data.len() && data.subrange(p, p + new.len()) != new {
                let after = overwritten(data, p, new);
                assert(after.len() == data.len());
            }
        }
    }
}

/// The two settings that are named in messages.
pub proof fn law_labels(key: u32)
    ensures
        label_of(0x12) == "FullScreen"@,
        key != 0x12 ==> label_of(key) == "WindowMode"@,
{
}

/// Bytes are shown as two capital hexadecimal digits each, with a blank between them.
pub proof fn law_spaced_hex(bytes: Seq<u8>, b: u8)
    ensures
        spaced_hex(Seq::empty()) == Seq::<char>::empty(),
        spaced_hex(seq![b]) == hex_of(seq![b], true),
        bytes.len() > 0 ==> spaced_hex(bytes.push(b)) == spaced_hex(bytes) + seq![' '] + hex_of(
            seq![b],
            true,
        ),
{
    reveal_strlit(" ");
    assert(" "@ =~= seq![' ']);
    assert(bytes.push(b).drop_last() =~= bytes);
}

} // verus!

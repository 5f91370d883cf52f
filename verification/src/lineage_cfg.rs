//! The game's configuration file: a header and a run of entries, in which the
//! window settings are changed before the game starts.

use vstd::prelude::*;
use vstd::slice::slice_subrange;
use crate::code::{emit, emit32, eq_bytes, read32};
#[allow(unused_imports)]
use crate::code::{from_le32, law_le32_reads_back, le32};
use crate::text::{decimal_chars, hex_chars, hex_number_chars, push_all, push_str, string_of};
#[allow(unused_imports)]
use crate::text::{decimal, hex_number, hex_of};

verus! {

/// The name of the file.
pub const CFG_FILE: &'static str = "lineage.cfg";

pub const HEADER_LEN: usize = 0x1C;

/// "lineage configuration file" and two bytes of padding.
pub const HEADER: [u8; 28] = [
    0x6C, 0x69, 0x6E, 0x65, 0x61, 0x67, 0x65, 0x20, 0x63, 0x6F, 0x6E, 0x66, 0x69, 0x67, 0x75, 0x72,
    0x61, 0x74, 0x69, 0x6F, 0x6E, 0x20, 0x66, 0x69, 0x6C, 0x65, 0x1A, 0x00,
];

/// The key that ends the entries.
pub const TLV_TERMINATOR: u32 = 0xFFFFFFFF;

/// The first key whose value is a text that ends with a zero byte.
pub const STRING_KEY_THRESHOLD: u32 = 0x2710;

pub const KEY_FULLSCREEN: u32 = 0x12;

pub const KEY_WINDOW_MODE: u32 = 0x1A;

pub const KEY_PREV_WINDOW_MODE: u32 = 0x1B;

pub const DEFAULT_WINDOW_MODE: u32 = 5;

/// What is wrong with a configuration or a setting.
#[derive(Debug, Clone, Copy, PartialEq, Eq, Structural)]
pub enum CfgError {
    /// A window mode that is none of the four.
    InvalidMode(u32),
    /// A file of that many bytes.
    TooShort(usize),
    /// A text without its end.
    OpenText,
    /// The file ends within the size of the entry at that offset.
    Truncated(usize),
    /// The entry at that offset, with that key and size, cannot be.
    Corrupt(usize, u32, u32),
    /// The value of that key should have had the first size and has the second.
    SizeMismatch(u32, usize, u32),
}

/// The name of a setting.
pub open spec fn label_of(key: u32) -> Seq<char> {
    if key == KEY_FULLSCREEN {
        "FullScreen"@
    } else {
        "WindowMode"@
    }
}

impl CfgError {
    /// The error in words.
    pub fn to_string(&self) -> (r: String)
        ensures
            r@ == (match *self {
                CfgError::InvalidMode(m) => "無效的 WindowMode "@ + decimal(m as nat)
                    + "(只接受 4..=7)"@,
                CfgError::TooShort(n) => "lineage.cfg 太短(只有 "@ + decimal(n as nat)
                    + " bytes)"@,
                CfgError::OpenText => "cfg 字串值缺結尾 0"@,
                CfgError::Truncated(o) => "cfg 截斷在 size 欄位 @ 0x"@ + hex_number(o as nat),
                CfgError::Corrupt(o, k, n) => "cfg 內容毀損 @ 0x"@ + hex_number(o as nat)
                    + "(key=0x"@ + hex_number(k as nat) + " sz="@ + decimal(n as nat) + ")"@,
                CfgError::SizeMismatch(k, e, n) => label_of(k) + " cfg size 不符(預期 "@ + decimal(
                    e as nat,
                ) + " 但實際 "@ + decimal(n as nat) + ")"@,
            }),
    {
        let mut out: Vec<char> = Vec::new();
        match *self {
            CfgError::InvalidMode(m) => {
                push_str(&mut out, "無效的 WindowMode ");
                push_all(&mut out, decimal_chars(m as u64).as_slice());
                push_str(&mut out, "(只接受 4..=7)");
            },
            CfgError::TooShort(n) => {
                push_str(&mut out, "lineage.cfg 太短(只有 ");
                push_all(&mut out, decimal_chars(n as u64).as_slice());
                push_str(&mut out, " bytes)");
            },
            CfgError::OpenText => {
                push_str(&mut out, "cfg 字串值缺結尾 0");
            },
            CfgError::Truncated(o) => {
                push_str(&mut out, "cfg 截斷在 size 欄位 @ 0x");
                push_all(&mut out, hex_number_chars(o as u64).as_slice());
            },
            CfgError::Corrupt(o, k, n) => {
                push_str(&mut out, "cfg 內容毀損 @ 0x");
                push_all(&mut out, hex_number_chars(o as u64).as_slice());
                push_str(&mut out, "(key=0x");
                push_all(&mut out, hex_number_chars(k as u64).as_slice());
                push_str(&mut out, " sz=");
                push_all(&mut out, decimal_chars(n as u64).as_slice());
                push_str(&mut out, ")");
            },
            CfgError::SizeMismatch(k, e, n) => {
                if k == KEY_FULLSCREEN {
                    push_str(&mut out, "FullScreen");
                } else {
                    push_str(&mut out, "WindowMode");
                }
                push_str(&mut out, " cfg size 不符(預期 ");
                push_all(&mut out, decimal_chars(e as u64).as_slice());
                push_str(&mut out, " 但實際 ");
                push_all(&mut out, decimal_chars(n as u64).as_slice());
                push_str(&mut out, ")");
            },
        }
        string_of(out.as_slice())
    }
}

/// The 32-bit number at an offset.
pub open spec fn number_at(data: Seq<u8>, off: int) -> u32 {
    from_le32(data.subrange(off, off + 4))
}

/// Where the value of a key stands, from the entry at an offset on; nowhere,
/// where the entries end without it. The value must have the given size.
pub open spec fn place_of(data: Seq<u8>, off: int, key: u32, size: nat) -> Result<
    Option<int>,
    CfgError,
>
    decreases data.len() - off,
{
    if off < 0 || off + 4 > data.len() {
        Ok(None)
    } else {
        let k = number_at(data, off);
        if k == TLV_TERMINATOR {
            Ok(None)
        } else if k >= STRING_KEY_THRESHOLD {
            match first_zero(data, off + 4) {
                None => Err(CfgError::OpenText),
                Some(z) => if off <= z < data.len() {
                    place_of(data, z + 1, key, size)
                } else {
                    Ok(None)
                },
            }
        } else if off + 8 > data.len() {
            Err(CfgError::Truncated(off as usize))
        } else {
            let n = number_at(data, off + 4);
            if n > 1024 || off + 8 + n > data.len() {
                Err(CfgError::Corrupt(off as usize, k, n))
            } else if k == key {
                if n != size {
                    Err(CfgError::SizeMismatch(key, size as usize, n))
                } else {
                    Ok(Some(off + 8))
                }
            } else {
                place_of(data, off + 8 + n, key, size)
            }
        }
    }
}

/// The offset of the first zero byte from an offset on.
pub open spec fn first_zero(data: Seq<u8>, from: int) -> Option<int>
    decreases data.len() - from,
{
    if from < 0 || from >= data.len() {
        None
    } else if data[from] == 0 {
        Some(from)
    } else {
        first_zero(data, from + 1)
    }
}

proof fn lemma_first_zero(data: Seq<u8>, from: int)
    requires
        0 <= from,
    ensures
        first_zero(data, from) matches Some(z) ==> from <= z < data.len() && data[z] == 0,
    decreases data.len() - from,
{
    if from < data.len() && data[from] != 0 {
        lemma_first_zero(data, from + 1);
    }
}

fn find_zero(data: &[u8], from: usize) -> (r: Option<usize>)
    requires
        from <= data@.len(),
    ensures
        match r {
            Some(z) => first_zero(data@, from as int) == Some(z as int) && from <= z < data@.len(),
            None => first_zero(data@, from as int) is None,
        },
{
    let mut i: usize = from;
    while i < data.len()
        invariant
            from <= i <= data@.len(),
            first_zero(data@, from as int) == first_zero(data@, i as int),
        decreases data@.len() - i,
    {
        if data[i] == 0 {
            return Some(i);
        }
        i += 1;
    }
    None
}

/// The offset of the value of a key, where the entries hold the key.
fn find_value(data: &[u8], key: u32, size: usize) -> (r: Result<Option<usize>, CfgError>)
    requires
        HEADER_LEN <= data@.len(),
    ensures
        match r {
            Ok(Some(p)) => place_of(data@, HEADER_LEN as int, key, size as nat) == Ok::<
                Option<int>,
                CfgError,
            >(Some(p as int)) && p + size <= data@.len(),
            Ok(None) => place_of(data@, HEADER_LEN as int, key, size as nat) == Ok::<
                Option<int>,
                CfgError,
            >(None),
            Err(e) => place_of(data@, HEADER_LEN as int, key, size as nat) == Err::<
                Option<int>,
                CfgError,
            >(e),
        },
{
    let len: usize = data.len();
    let mut off: usize = HEADER_LEN;
    while len - off >= 4
        invariant
            off <= len,
            len == data@.len(),
            len == data.len(),
            place_of(data@, HEADER_LEN as int, key, size as nat) == place_of(
                data@,
                off as int,
                key,
                size as nat,
            ),
        decreases len - off,
    {
        let k: u32 = read32(data, off);
        if k == TLV_TERMINATOR {
            return Ok(None);
        }
        if k >= STRING_KEY_THRESHOLD {
            match find_zero(data, off + 4) {
                None => {
                    return Err(CfgError::OpenText);
                },
                Some(z) => {
                    off = z + 1;
                },
            }
        } else {
            if len - off < 8 {
                return Err(CfgError::Truncated(off));
            }
            let n: u32 = read32(data, off + 4);
            if n > 1024 || len - off - 8 < n as usize {
                return Err(CfgError::Corrupt(off, k, n));
            }
            if k == key {
                if n as usize != size {
                    return Err(CfgError::SizeMismatch(key, size, n));
                }
                return Ok(Some(off + 8));
            }
            off = off + 8 + n as usize;
        }
    }
    Ok(None)
}

/// Some bytes with others in their place from an offset on.
pub open spec fn overwritten(data: Seq<u8>, at: int, new: Seq<u8>) -> Seq<u8> {
    data.take(at) + new + data.skip(at + new.len())
}

fn overwrite(data: &[u8], at: usize, new: &[u8]) -> (r: Vec<u8>)
    requires
        at + new@.len() <= data@.len(),
    ensures
        r@ == overwritten(data@, at as int, new@),
{
    let n: usize = data.len();
    let mut out: Vec<u8> = Vec::new();
    emit(&mut out, slice_subrange(data, 0, at));
    emit(&mut out, new);
    emit(&mut out, slice_subrange(data, at + new.len(), n));
    assert(out@ == overwritten(data@, at as int, new@));
    out
}

/// The file after a setting was changed: nothing, where nothing is to be written,
/// because the file has no such setting or has that value.
pub open spec fn updated(data: Seq<u8>, key: u32, new: Seq<u8>) -> Result<
    Option<Seq<u8>>,
    CfgError,
> {
    if data.len() < HEADER_LEN + 4 {
        Err(CfgError::TooShort(data.len() as usize))
    } else {
        match place_of(data, HEADER_LEN as int, key, new.len()) {
            Err(e) => Err(e),
            Ok(None) => Ok(None),
            Ok(Some(p)) => if data.subrange(p, p + new.len()) == new {
                Ok(None)
            } else {
                Ok(Some(overwritten(data, p, new)))
            },
        }
    }
}

fn update_value(data: &[u8], target_key: u32, new_bytes: &[u8]) -> (r: Result<
    Option<Vec<u8>>,
    CfgError,
>)
    ensures
        match r {
            Ok(Some(v)) => updated(data@, target_key, new_bytes@) == Ok::<
                Option<Seq<u8>>,
                CfgError,
            >(Some(v@)),
            Ok(None) => updated(data@, target_key, new_bytes@) == Ok::<Option<Seq<u8>>, CfgError>(
                None,
            ),
            Err(e) => updated(data@, target_key, new_bytes@) == Err::<Option<Seq<u8>>, CfgError>(
                e,
            ),
        },
{
    if data.len() < HEADER_LEN + 4 {
        return Err(CfgError::TooShort(data.len()));
    }
    match find_value(data, target_key, new_bytes.len()) {
        Err(e) => Err(e),
        Ok(None) => Ok(None),
        Ok(Some(p)) => {
            let old_value = slice_subrange(data, p, p + new_bytes.len());
            if eq_bytes(old_value, new_bytes) {
                Ok(None)
            } else {
                Ok(Some(overwrite(data, p, new_bytes)))
            }
        },
    }
}

/// An entry: its key, the size of its value and the value.
pub open spec fn tlv(key: u32, value: Seq<u8>) -> Seq<u8> {
    le32(key) + le32(value.len() as u32) + value
}

fn push_tlv(data: &mut Vec<u8>, key: u32, value: &[u8])
    requires
        value@.len() <= u32::MAX,
    ensures
        final(data)@ == old(data)@ + tlv(key, value@),
{
    let ghost start = data@;
    emit32(data, key);
    emit32(data, value.len() as u32);
    emit(data, value);
    assert(data@ == start + tlv(key, value@));
}

/// The smallest file: the window settings and nothing else.
pub open spec fn minimal_cfg(fullscreen: u8, window_mode: u32) -> Seq<u8> {
    HEADER@ + tlv(KEY_FULLSCREEN, seq![fullscreen]) + tlv(KEY_WINDOW_MODE, le32(window_mode)) + tlv(
        KEY_PREV_WINDOW_MODE,
        le32(window_mode),
    ) + le32(TLV_TERMINATOR)
}

fn create_minimal_cfg(fullscreen: u8, window_mode: u32) -> (r: Vec<u8>)
    ensures
        r@ == minimal_cfg(fullscreen, window_mode),
{
    let mut mode: Vec<u8> = Vec::new();
    emit32(&mut mode, window_mode);
    assert(mode@ == le32(window_mode));
    let mut data: Vec<u8> = Vec::new();
    emit(&mut data, &HEADER);
    let one = [fullscreen];
    push_tlv(&mut data, KEY_FULLSCREEN, &one);
    assert(one@ == seq![fullscreen]);
    push_tlv(&mut data, KEY_WINDOW_MODE, mode.as_slice());
    push_tlv(&mut data, KEY_PREV_WINDOW_MODE, mode.as_slice());
    emit32(&mut data, TLV_TERMINATOR);
    data
}

/// What is to be written so that the game starts in a window (0) or on the full
/// screen (1), given the file's bytes where there is a file; nothing, where
/// nothing is to be written.
pub fn set_fullscreen(file: Option<&[u8]>, value: u8) -> (r: Result<Option<Vec<u8>>, CfgError>)
    ensures
        match file {
            Some(data) => match r {
                Ok(Some(v)) => updated(data@, KEY_FULLSCREEN, seq![value]) == Ok::<
                    Option<Seq<u8>>,
                    CfgError,
                >(Some(v@)),
                Ok(None) => updated(data@, KEY_FULLSCREEN, seq![value]) == Ok::<
                    Option<Seq<u8>>,
                    CfgError,
                >(None),
                Err(e) => updated(data@, KEY_FULLSCREEN, seq![value]) == Err::<
                    Option<Seq<u8>>,
                    CfgError,
                >(e),
            },
            None => r matches Ok(Some(v)) && v@ == minimal_cfg(value, DEFAULT_WINDOW_MODE),
        },
{
    let new = [value];
    assert(new@ == seq![value]);
    match file {
        Some(data) => update_value(data, KEY_FULLSCREEN, &new),
        None => Ok(Some(create_minimal_cfg(value, DEFAULT_WINDOW_MODE))),
    }
}

/// What is to be written so that the window has one of the four sizes, given the
/// file's bytes where there is a file. Any other size is refused.
pub fn set_window_mode(file: Option<&[u8]>, mode: u32) -> (r: Result<Option<Vec<u8>>, CfgError>)
    ensures
        if !(4 <= mode <= 7) {
            r == Err::<Option<Vec<u8>>, CfgError>(CfgError::InvalidMode(mode))
        } else {
            match file {
                Some(data) => match r {
                    Ok(Some(v)) => updated(data@, KEY_WINDOW_MODE, le32(mode)) == Ok::<
                        Option<Seq<u8>>,
                        CfgError,
                    >(Some(v@)),
                    Ok(None) => updated(data@, KEY_WINDOW_MODE, le32(mode)) == Ok::<
                        Option<Seq<u8>>,
                        CfgError,
                    >(None),
                    Err(e) => updated(data@, KEY_WINDOW_MODE, le32(mode)) == Err::<
                        Option<Seq<u8>>,
                        CfgError,
                    >(e),
                },
                None => r matches Ok(Some(v)) && v@ == minimal_cfg(0, mode),
            }
        },
{
    if mode < 4 || mode > 7 {
        return Err(CfgError::InvalidMode(mode));
    }
    let mut new: Vec<u8> = Vec::new();
    emit32(&mut new, mode);
    assert(new@ == le32(mode));
    match file {
        Some(data) => update_value(data, KEY_WINDOW_MODE, new.as_slice()),
        None => Ok(Some(create_minimal_cfg(0, mode))),
    }
}

/// The bytes of a value in capitals, with spaces between them.
pub open spec fn spaced_hex(bytes: Seq<u8>) -> Seq<char>
    decreases bytes.len(),
{
    if bytes.len() == 0 {
        seq![]
    } else if bytes.len() == 1 {
        hex_of(bytes, true)
    } else {
        spaced_hex(bytes.drop_last()) + " "@ + hex_of(seq![bytes.last()], true)
    }
}

/// A value in words: a number where it has one byte or four, its bytes otherwise.
pub fn display_value(bytes: &[u8]) -> (r: String)
    ensures
        r@ == (if bytes@.len() == 1 {
            decimal(bytes@[0] as nat)
        } else if bytes@.len() == 4 {
            decimal(number_at(bytes@, 0) as nat)
        } else {
            spaced_hex(bytes@)
        }),
{
    let n: usize = bytes.len();
    if n == 1 {
        return string_of(decimal_chars(bytes[0] as u64).as_slice());
    }
    if n == 4 {
        return string_of(decimal_chars(read32(bytes, 0) as u64).as_slice());
    }
    let mut out: Vec<char> = Vec::new();
    let mut i: usize = 0;
    assert(bytes@.take(0) == Seq::<u8>::empty());
    while i < n
        invariant
            i <= n,
            n == bytes@.len(),
            n == bytes.len(),
            out@ == spaced_hex(bytes@.take(i as int)),
        decreases n - i,
    {
        let one = [bytes[i]];
        proof {
            let done = bytes@.take(i + 1);
            assert(done.drop_last() == bytes@.take(i as int));
            assert(done.last() == bytes@[i as int]);
            assert(one@ == seq![bytes@[i as int]]);
            assert(i == 0 ==> done == seq![bytes@[0]]);
        }
        if i > 0 {
            push_str(&mut out, " ");
        }
        push_all(&mut out, hex_chars(&one, true).as_slice());
        i += 1;
    }
    assert(bytes@.take(i as int) == bytes@);
    string_of(out.as_slice())
}

/// The value of a key of the given size, where a file holds one.
pub open spec fn value_of(data: Seq<u8>, key: u32, size: nat) -> Option<Seq<u8>> {
    match place_of(data, HEADER_LEN as int, key, size) {
        Ok(Some(p)) => Some(data.subrange(p, p + size)),
        _ => None,
    }
}

proof fn lemma_place(data: Seq<u8>, off: int, key: u32, size: nat)
    requires
        0 <= off,
    ensures
        place_of(data, off, key, size) matches Ok(Some(p)) ==> off + 8 <= p && p + size
            <= data.len(),
    decreases data.len() - off,
{
    if off + 4 <= data.len() {
        let k = number_at(data, off);
        if k != TLV_TERMINATOR {
            if k >= STRING_KEY_THRESHOLD {
                lemma_first_zero(data, off + 4);
                if let Some(z) = first_zero(data, off + 4) {
                    lemma_place(data, z + 1, key, size);
                }
            } else if off + 8 <= data.len() {
                let n = number_at(data, off + 4);
                if !(n > 1024 || off + 8 + n > data.len()) && k != key {
                    lemma_place(data, off + 8 + n, key, size);
                }
            }
        }
    }
}

proof fn lemma_same_zero(a: Seq<u8>, b: Seq<u8>, from: int, to: int)
    requires
        a.len() == b.len(),
        0 <= from,
        to <= a.len(),
        forall|i: int| from <= i < to ==> a[i] == b[i],
    ensures
        first_zero(a, from) matches Some(z) ==> z < to ==> first_zero(b, from) == Some(z),
        to == a.len() ==> first_zero(a, from) == first_zero(b, from),
    decreases a.len() - from,
{
    if from < a.len() {
        if from < to {
            assert(a[from] == b[from]);
            if a[from] != 0 {
                lemma_same_zero(a, b, from + 1, to);
            }
        } else {
            lemma_first_zero(a, from);
        }
    }
}

/// Two files that agree from an offset on have the same entries from there on.
proof fn lemma_same_tail(a: Seq<u8>, b: Seq<u8>, off: int, key: u32, size: nat)
    requires
        a.len() == b.len(),
        0 <= off,
        forall|i: int| off <= i < a.len() ==> a[i] == b[i],
    ensures
        place_of(a, off, key, size) == place_of(b, off, key, size),
    decreases a.len() - off,
{
    if off + 4 <= a.len() {
        assert(a.subrange(off, off + 4) == b.subrange(off, off + 4));
        let k = number_at(a, off);
        if k != TLV_TERMINATOR {
            if k >= STRING_KEY_THRESHOLD {
                lemma_first_zero(a, off + 4);
                lemma_same_zero(a, b, off + 4, a.len() as int);
                if let Some(z) = first_zero(a, off + 4) {
                    lemma_same_tail(a, b, z + 1, key, size);
                }
            } else if off + 8 <= a.len() {
                assert(a.subrange(off + 4, off + 8) == b.subrange(off + 4, off + 8));
                let n = number_at(a, off + 4);
                if !(n > 1024 || off + 8 + n > a.len()) && k != key {
                    lemma_same_tail(a, b, off + 8 + n, key, size);
                }
            }
        }
    }
}

/// Two files that differ in the value of one key alone have the same entries.
proof fn lemma_same_walk(
    a: Seq<u8>,
    b: Seq<u8>,
    off: int,
    key: u32,
    size: nat,
    p: int,
    other: u32,
    other_size: nat,
)
    requires
        a.len() == b.len(),
        0 <= off,
        place_of(a, off, key, size) == Ok::<Option<int>, CfgError>(Some(p)),
        forall|i: int| 0 <= i < a.len() && !(p <= i < p + size) ==> a[i] == b[i],
    ensures
        place_of(b, off, key, size) == Ok::<Option<int>, CfgError>(Some(p)),
        other != key ==> place_of(b, off, other, other_size) == place_of(a, off, other, other_size),
        other != key ==> (place_of(a, off, other, other_size) matches Ok(Some(q)) ==> q
            + other_size <= p || p + size <= q),
    decreases a.len() - off,
{
    lemma_place(a, off, key, size);
    assert(a.subrange(off, off + 4) == b.subrange(off, off + 4));
    let k = number_at(a, off);
    if k >= STRING_KEY_THRESHOLD {
        lemma_first_zero(a, off + 4);
        let z = first_zero(a, off + 4)->0;
        lemma_place(a, z + 1, key, size);
        assert(z < p);
        lemma_same_zero(a, b, off + 4, p);
        lemma_same_walk(a, b, z + 1, key, size, p, other, other_size);
    } else {
        assert(a.subrange(off + 4, off + 8) == b.subrange(off + 4, off + 8));
        let n = number_at(a, off + 4);
        if k == key {
            assert(p == off + 8);
            if other != key {
                lemma_same_tail(a, b, off + 8 + n, other, other_size);
                lemma_place(a, off + 8 + n, other, other_size);
            }
        } else {
            lemma_place(a, off + 8 + n, key, size);
            lemma_same_walk(a, b, off + 8 + n, key, size, p, other, other_size);
        }
    }
}

/// A setting that was changed reads back, the file keeps its length and its
/// header, and the same change again writes nothing.
pub proof fn law_value_reads_back(data: Seq<u8>, key: u32, new: Seq<u8>)
    requires
        updated(data, key, new) matches Ok(Some(_)),
    ensures
        ({
            let after = updated(data, key, new)->Ok_0->0;
            &&& after.len() == data.len()
            &&& after.take(HEADER_LEN as int) == data.take(HEADER_LEN as int)
            &&& value_of(after, key, new.len()) == Some(new)
            &&& updated(after, key, new) == Ok::<Option<Seq<u8>>, CfgError>(None)
        }),
{
    let p = place_of(data, HEADER_LEN as int, key, new.len())->Ok_0->0;
    let after = overwritten(data, p, new);
    lemma_place(data, HEADER_LEN as int, key, new.len());
    lemma_same_walk(data, after, HEADER_LEN as int, key, new.len(), p, key, 0);
    assert(after.take(HEADER_LEN as int) == data.take(HEADER_LEN as int));
    assert(after.subrange(p, p + new.len()) == new);
}

/// A change of one setting leaves the values of all others as they were.
pub proof fn law_other_values_stay(
    data: Seq<u8>,
    key: u32,
    new: Seq<u8>,
    other: u32,
    size: nat,
)
    requires
        updated(data, key, new) matches Ok(Some(_)),
        other != key,
    ensures
        value_of(updated(data, key, new)->Ok_0->0, other, size) == value_of(data, other, size),
{
    let p = place_of(data, HEADER_LEN as int, key, new.len())->Ok_0->0;
    let after = overwritten(data, p, new);
    lemma_place(data, HEADER_LEN as int, key, new.len());
    lemma_same_walk(data, after, HEADER_LEN as int, key, new.len(), p, other, size);
    if let Ok(Some(q)) = place_of(data, HEADER_LEN as int, other, size) {
        lemma_place(data, HEADER_LEN as int, other, size);
        assert(after.subrange(q, q + size) == data.subrange(q, q + size));
    }
}

/// The smallest file holds the settings that it was made with.
pub proof fn law_minimal_holds_settings(fullscreen: u8, window_mode: u32)
    ensures
        value_of(minimal_cfg(fullscreen, window_mode), KEY_FULLSCREEN, 1) == Some(
            seq![fullscreen],
        ),
        value_of(minimal_cfg(fullscreen, window_mode), KEY_WINDOW_MODE, 4) == Some(
            le32(window_mode),
        ),
        value_of(minimal_cfg(fullscreen, window_mode), KEY_PREV_WINDOW_MODE, 4) == Some(
            le32(window_mode),
        ),
{
    let d = minimal_cfg(fullscreen, window_mode);
    law_le32_reads_back(KEY_FULLSCREEN);
    law_le32_reads_back(KEY_WINDOW_MODE);
    law_le32_reads_back(KEY_PREV_WINDOW_MODE);
    law_le32_reads_back(1);
    law_le32_reads_back(4);
    law_le32_reads_back(window_mode);
    assert(d.subrange(28, 32) == le32(KEY_FULLSCREEN));
    assert(d.subrange(32, 36) == le32(1));
    assert(d.subrange(36, 37) == seq![fullscreen]);
    assert(d.subrange(37, 41) == le32(KEY_WINDOW_MODE));
    assert(d.subrange(41, 45) == le32(4));
    assert(d.subrange(45, 49) == le32(window_mode));
    assert(d.subrange(49, 53) == le32(KEY_PREV_WINDOW_MODE));
    assert(d.subrange(53, 57) == le32(4));
    assert(d.subrange(57, 61) == le32(window_mode));
    reveal_with_fuel(place_of, 4);
}

} // verus!

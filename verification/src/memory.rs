//! Writes into another process's memory and the search for byte patterns in it.

use vstd::prelude::*;
use crate::code::offset_by;
#[allow(unused_imports)]
use crate::code::offset;

verus! {

/// Bytes to be written at an address.
#[derive(Debug, Clone, PartialEq, Eq)]
pub struct Write {
    pub addr: u32,
    pub bytes: Vec<u8>,
}

/// What a write puts where.
#[verifier::ext_equal]
pub struct WriteModel {
    pub addr: u32,
    pub bytes: Seq<u8>,
}

impl View for Write {
    type V = WriteModel;

    open spec fn view(&self) -> WriteModel {
        WriteModel { addr: self.addr, bytes: self.bytes@ }
    }
}

/// What a list of writes puts where, in order.
pub open spec fn writes_of(v: Seq<Write>) -> Seq<WriteModel> {
    v.map_values(|w: Write| w@)
}

/// A write of `bytes` at `addr`.
pub open spec fn write_at(addr: u32, bytes: Seq<u8>) -> WriteModel {
    WriteModel { addr, bytes }
}

/// Appends a write.
pub fn push_write(out: &mut Vec<Write>, addr: u32, bytes: Vec<u8>)
    ensures
        writes_of(final(out)@) == writes_of(old(out)@).push(write_at(addr, bytes@)),
{
    let ghost before = writes_of(out@);
    out.push(Write { addr, bytes });
    assert(writes_of(out@) == before.push(write_at(addr, bytes@)));
}

/// `n` zero bytes.
pub open spec fn zeros(n: nat) -> Seq<u8> {
    Seq::new(n, |i: int| 0u8)
}

/// `n` zero bytes.
pub fn zero_bytes(n: usize) -> (r: Vec<u8>)
    ensures
        r@ == zeros(n as nat),
{
    let mut out: Vec<u8> = Vec::new();
    let mut i: usize = 0;
    while i < n
        invariant
            i <= n,
            out@ == zeros(i as nat),
        decreases n - i,
    {
        out.push(0);
        assert(out@ == zeros((i + 1) as nat));
        i += 1;
    }
    out
}

/// How many bytes a search steps on by.
pub const CHUNK: u32 = 0x10000;

/// The pattern fits the bytes at `i`. `None` in a pattern fits any byte.
pub open spec fn fits_at(d: Seq<u8>, p: Seq<Option<u8>>, i: int) -> bool {
    &&& 0 <= i
    &&& i + p.len() <= d.len()
    &&& forall|j: int| 0 <= j < p.len() ==> ((#[trigger] p[j]) matches Some(b) ==> d[i + j] == b)
}

/// How many bytes a place needs behind its first one.
pub open spec fn overlap(pat_len: nat) -> int {
    if pat_len == 0 {
        0
    } else {
        pat_len - 1
    }
}

/// How many places of the bytes are compared with the pattern: all that have room
/// for it.
pub open spec fn span(d: Seq<u8>, p: Seq<Option<u8>>) -> int {
    if d.len() > overlap(p.len()) {
        d.len() - overlap(p.len())
    } else {
        0
    }
}

fn behind(pat_len: usize) -> (r: usize)
    ensures
        r == overlap(pat_len as nat),
{
    if pat_len == 0 {
        0
    } else {
        pat_len - 1
    }
}

fn room(d: &[u8], p: &[Option<u8>]) -> (r: usize)
    ensures
        r == span(d@, p@),
{
    let b: usize = behind(p.len());
    if d.len() > b {
        d.len() - b
    } else {
        0
    }
}

/// The places from `lo` on and before `hi` that the pattern fits, ascending.
pub open spec fn places(d: Seq<u8>, p: Seq<Option<u8>>, lo: int, hi: int) -> Seq<int>
    decreases hi - lo,
{
    if hi <= lo {
        seq![]
    } else if fits_at(d, p, hi - 1) {
        places(d, p, lo, hi - 1).push(hi - 1)
    } else {
        places(d, p, lo, hi - 1)
    }
}

/// Places as addresses behind `base`.
pub open spec fn addresses(base: u32, s: Seq<int>) -> Seq<u32> {
    Seq::new(s.len(), |i: int| offset(base, s[i]))
}

/// Whether the pattern fits the bytes at `i`.
pub fn fits(d: &[u8], p: &[Option<u8>], i: usize) -> (r: bool)
    ensures
        r == fits_at(d@, p@, i as int),
{
    if p.len() > d.len() || i > d.len() - p.len() {
        return false;
    }
    let mut j: usize = 0;
    while j < p.len()
        invariant
            j <= p@.len(),
            i + p@.len() <= d@.len(),
            d.len() == d@.len(),
            p.len() == p@.len(),
            forall|k: int| 0 <= k < j ==> ((#[trigger] p@[k]) matches Some(b) ==> d@[i + k] == b),
        decreases p@.len() - j,
    {
        if let Some(b) = p[j] {
            if d[i + j] != b {
                return false;
            }
        }
        j += 1;
    }
    true
}

/// The first place of the bytes that the pattern fits.
pub fn first_place(d: &[u8], p: &[Option<u8>]) -> (r: Option<usize>)
    ensures
        match r {
            Some(i) => {
                &&& i < span(d@, p@)
                &&& fits_at(d@, p@, i as int)
                &&& forall|k: int| 0 <= k < i ==> !fits_at(d@, p@, k)
            },
            None => forall|k: int| 0 <= k < span(d@, p@) ==> !fits_at(d@, p@, k),
        },
{
    let n: usize = room(d, p);
    let mut i: usize = 0;
    while i < n
        invariant
            i <= n,
            n == span(d@, p@),
            forall|k: int| 0 <= k < i ==> !fits_at(d@, p@, k),
        decreases n - i,
    {
        if fits(d, p, i) {
            return Some(i);
        }
        i += 1;
    }
    None
}

/// Appends the addresses of all places of the bytes that the pattern fits.
pub fn push_places(out: &mut Vec<u32>, base: u32, d: &[u8], p: &[Option<u8>])
    ensures
        final(out)@ == old(out)@ + addresses(base, places(d@, p@, 0, span(d@, p@))),
{
    let ghost start = out@;
    let n: usize = room(d, p);
    let mut i: usize = 0;
    assert(out@ == start + addresses(base, places(d@, p@, 0, 0)));
    while i < n
        invariant
            i <= n,
            n == span(d@, p@),
            out@ == start + addresses(base, places(d@, p@, 0, i as int)),
        decreases n - i,
    {
        let ghost found = places(d@, p@, 0, i as int);
        if fits(d, p, i) {
            out.push(offset_by(base, i));
            proof {
                assert(places(d@, p@, 0, i + 1) == found.push(i as int));
                assert(addresses(base, found.push(i as int)) == addresses(base, found).push(
                    offset(base, i as int),
                ));
                assert(out@ == start + addresses(base, places(d@, p@, 0, i + 1)));
            }
        }
        i += 1;
    }
}

/// A search through the addresses from a start to an end, one run of bytes
/// after another. Each run reaches so far into the next that a place at its end has
/// room for the pattern.
#[derive(Debug, Clone, Copy, PartialEq, Eq, Structural)]
pub struct Scanner {
    /// Where the next run begins.
    pub at: u64,
    /// Where the search ends.
    pub end: u64,
}

impl Scanner {
    /// A search from `start` to `end`.
    pub fn new(start: u32, end: u32) -> (r: Scanner)
        ensures
            r.at == start,
            r.end == end,
    {
        Scanner { at: start as u64, end: end as u64 }
    }

    /// The next run to read, for a pattern of the given length: its address and
    /// its length.
    pub open spec fn wanted(self, pat_len: nat) -> Option<(int, int)> {
        if self.at >= self.end || self.end > u32::MAX {
            None
        } else if self.end - self.at <= CHUNK + overlap(pat_len) {
            Some((self.at as int, self.end - self.at))
        } else {
            Some((self.at as int, CHUNK + overlap(pat_len)))
        }
    }

    /// The next run to read, for a pattern of the given length: its address and
    /// its length.
    pub fn request(&self, pat_len: usize) -> (r: Option<(u32, usize)>)
        ensures
            match r {
                Some(q) => self.wanted(pat_len as nat) == Some((q.0 as int, q.1 as int)),
                None => self.wanted(pat_len as nat) is None,
            },
    {
        if self.at >= self.end || self.end > 0xffff_ffff {
            return None;
        }
        let left: u64 = self.end - self.at;
        let more: usize = behind(pat_len);
        if left <= 0x10000 || left - 0x10000 <= more as u64 {
            Some((self.at as u32, left as usize))
        } else {
            Some((self.at as u32, 0x10000 + more))
        }
    }

    /// Moves on to the run behind this one. What has been read is `data`, or
    /// nothing where the read failed. The address of the first place that the
    /// pattern fits is returned.
    pub fn step(&mut self, data: Option<&[u8]>, pattern: &[Option<u8>]) -> (r: Option<u32>)
        requires
            old(self).at <= u32::MAX,
        ensures
            final(self).at == old(self).at + CHUNK,
            final(self).end == old(self).end,
            match r {
                Some(a) => {
                    &&& data matches Some(d)
                    &&& exists|i: int|
                        {
                            &&& 0 <= i < span(d@, pattern@)
                            &&& #[trigger] fits_at(d@, pattern@, i)
                            &&& forall|k: int| 0 <= k < i ==> !fits_at(d@, pattern@, k)
                            &&& a == offset(old(self).at as u32, i)
                        }
                },
                None => match data {
                    Some(d) => forall|k: int|
                        0 <= k < span(d@, pattern@) ==> !fits_at(d@, pattern@, k),
                    None => true,
                },
            },
    {
        let base: u32 = self.at as u32;
        self.at = self.at + 0x10000;
        match data {
            Some(d) => match first_place(d, pattern) {
                Some(i) => Some(offset_by(base, i)),
                None => None,
            },
            None => None,
        }
    }

    /// Moves on to the run behind this one and appends the addresses of all
    /// places of this one that the pattern fits.
    pub fn step_all(&mut self, data: Option<&[u8]>, pattern: &[Option<u8>], hits: &mut Vec<u32>)
        requires
            old(self).at <= u32::MAX,
        ensures
            final(self).at == old(self).at + CHUNK,
            final(self).end == old(self).end,
            final(hits)@ == old(hits)@ + match data {
                Some(d) => addresses(
                    old(self).at as u32,
                    places(d@, pattern@, 0, span(d@, pattern@)),
                ),
                None => seq![],
            },
    {
        let base: u32 = self.at as u32;
        self.at = self.at + 0x10000;
        match data {
            Some(d) => push_places(hits, base, d, pattern),
            None => {
                assert(hits@ + Seq::<u32>::empty() == hits@);
            },
        }
    }
}

/// What a search of `mem`, all of it readable, finds from offset `at` on, as
/// offsets.
pub open spec fn scanned(mem: Seq<u8>, p: Seq<Option<u8>>, at: int) -> Seq<int>
    decreases mem.len() + CHUNK - at,
{
    if at < 0 || at >= mem.len() {
        seq![]
    } else {
        let size = if mem.len() - at <= CHUNK + overlap(p.len()) {
            mem.len() - at
        } else {
            CHUNK + overlap(p.len())
        };
        let run = mem.subrange(at, at + size);
        let found = places(run, p, 0, span(run, p));
        Seq::new(found.len(), |i: int| at + found[i]) + scanned(mem, p, at + CHUNK)
    }
}

proof fn lemma_places_shift(mem: Seq<u8>, p: Seq<Option<u8>>, at: int, size: int, n: int)
    requires
        0 <= at,
        0 <= size,
        at + size <= mem.len(),
        0 <= n,
        n == 0 || n + overlap(p.len()) <= size,
    ensures
        places(mem, p, at, at + n) == Seq::new(
            places(mem.subrange(at, at + size), p, 0, n).len(),
            |i: int| at + places(mem.subrange(at, at + size), p, 0, n)[i],
        ),
    decreases n,
{
    let run = mem.subrange(at, at + size);
    if n > 0 {
        lemma_places_shift(mem, p, at, size, n - 1);
        let k = n - 1;
        assert(fits_at(run, p, k) == fits_at(mem, p, at + k)) by {
            if fits_at(run, p, k) {
                assert forall|j: int| 0 <= j < p.len() implies ((#[trigger] p[j]) matches Some(b)
                    ==> mem[at + k + j] == b) by {
                    assert(run[k + j] == mem[at + k + j]);
                }
            }
            if fits_at(mem, p, at + k) {
                assert forall|j: int| 0 <= j < p.len() implies ((#[trigger] p[j]) matches Some(b)
                    ==> run[k + j] == b) by {
                    assert(run[k + j] == mem[at + k + j]);
                }
            }
        }
        assert(places(mem, p, at, at + n) == Seq::new(
            places(run, p, 0, n).len(),
            |i: int| at + places(run, p, 0, n)[i],
        ));
    } else {
        assert(places(mem, p, at, at + n) == Seq::new(
            places(run, p, 0, n).len(),
            |i: int| at + places(run, p, 0, n)[i],
        ));
    }
}

proof fn lemma_places_join(d: Seq<u8>, p: Seq<Option<u8>>, lo: int, mid: int, hi: int)
    requires
        lo <= mid <= hi,
    ensures
        places(d, p, lo, mid) + places(d, p, mid, hi) == places(d, p, lo, hi),
    decreases hi - mid,
{
    if mid < hi {
        lemma_places_join(d, p, lo, mid, hi - 1);
        assert(places(d, p, lo, mid) + places(d, p, mid, hi) == places(d, p, lo, hi));
    } else {
        assert(places(d, p, lo, mid) + places(d, p, mid, hi) == places(d, p, lo, mid));
    }
}

proof fn lemma_scanned(mem: Seq<u8>, p: Seq<Option<u8>>, at: int)
    requires
        0 <= at,
    ensures
        scanned(mem, p, at) == (if at < span(mem, p) {
            places(mem, p, at, span(mem, p))
        } else {
            seq![]
        }),
    decreases mem.len() + CHUNK - at,
{
    if at < mem.len() {
        lemma_scanned(mem, p, at + CHUNK);
        let size = if mem.len() - at <= CHUNK + overlap(p.len()) {
            mem.len() - at
        } else {
            CHUNK + overlap(p.len())
        };
        let run = mem.subrange(at, at + size);
        let n = span(run, p);
        lemma_places_shift(mem, p, at, size, n);
        let found = places(run, p, 0, n);
        assert(Seq::new(found.len(), |i: int| at + found[i]) == places(mem, p, at, at + n));
        if at < span(mem, p) {
            if at + CHUNK < span(mem, p) {
                assert(n == CHUNK);
                lemma_places_join(mem, p, at, at + n, span(mem, p));
            } else {
                assert(at + n == span(mem, p));
                assert(places(mem, p, at, at + n) + Seq::<int>::empty() == places(
                    mem,
                    p,
                    at,
                    at + n,
                ));
            }
        } else {
            assert(n == 0);
            assert(places(mem, p, at, at) + Seq::<int>::empty() == Seq::<int>::empty());
        }
    }
}

/// Every place that has room for the pattern is tried, the last one too.
pub proof fn law_every_place_is_tried(d: Seq<u8>, p: Seq<Option<u8>>, i: int)
    requires
        fits_at(d, p, i),
        i < d.len(),
    ensures
        i < span(d, p),
        places(d, p, 0, span(d, p)).contains(i),
{
    lemma_place_is_listed(d, p, i, span(d, p));
}

proof fn lemma_place_is_listed(d: Seq<u8>, p: Seq<Option<u8>>, i: int, hi: int)
    requires
        fits_at(d, p, i),
        i < hi,
    ensures
        places(d, p, 0, hi).contains(i),
    decreases hi - i,
{
    let all = places(d, p, 0, hi);
    if i == hi - 1 {
        assert(all.last() == i && all[all.len() - 1] == i);
    } else {
        lemma_place_is_listed(d, p, i, hi - 1);
        let before = places(d, p, 0, hi - 1);
        let k = choose|k: int| 0 <= k < before.len() && before[k] == i;
        assert(all[k] == i);
    }
}

/// A search in runs finds each place once: exactly those that a search of all
/// bytes at one time finds, in the same order.
pub proof fn law_runs_cover(mem: Seq<u8>, p: Seq<Option<u8>>)
    ensures
        scanned(mem, p, 0) == places(mem, p, 0, span(mem, p)),
{
    lemma_scanned(mem, p, 0);
    if span(mem, p) == 0 {
        assert(places(mem, p, 0, 0) == Seq::<int>::empty());
    }
}

/// The pattern that fits the given bytes alone.
pub open spec fn exactly(bytes: Seq<u8>) -> Seq<Option<u8>> {
    Seq::new(bytes.len(), |i: int| Some(bytes[i]))
}

/// The pattern that fits the given bytes alone.
pub fn exact_pattern(bytes: &[u8]) -> (r: Vec<Option<u8>>)
    ensures
        r@ == exactly(bytes@),
{
    let mut out: Vec<Option<u8>> = Vec::new();
    let mut i: usize = 0;
    while i < bytes.len()
        invariant
            i <= bytes@.len(),
            out@ == exactly(bytes@.take(i as int)),
        decreases bytes@.len() - i,
    {
        out.push(Some(bytes[i]));
        proof {
            assert(bytes@.take(i + 1) == bytes@.take(i as int).push(bytes@[i as int]));
            assert(out@ == exactly(bytes@.take(i + 1)));
        }
        i += 1;
    }
    assert(bytes@.take(i as int) == bytes@);
    out
}

/// Every place that is found is one where the pattern fits, and the places stand in
/// ascending order.
pub proof fn law_places_fit(d: Seq<u8>, p: Seq<Option<u8>>, lo: int, hi: int)
    ensures
        forall|k: int|
            0 <= k < places(d, p, lo, hi).len() ==> {
                &&& fits_at(d, p, #[trigger] places(d, p, lo, hi)[k])
                &&& lo <= places(d, p, lo, hi)[k] < hi
            },
        forall|k: int, l: int|
            0 <= k < l < places(d, p, lo, hi).len() ==> (#[trigger] places(d, p, lo, hi)[k]) < (
            #[trigger] places(d, p, lo, hi)[l]),
    decreases hi - lo,
{
    if hi > lo {
        law_places_fit(d, p, lo, hi - 1);
        let before = places(d, p, lo, hi - 1);
        let all = places(d, p, lo, hi);
        assert forall|k: int| 0 <= k < all.len() implies {
            &&& fits_at(d, p, #[trigger] all[k])
            &&& lo <= all[k] < hi
        } by {
            if k < before.len() {
                assert(all[k] == before[k]);
                assert(fits_at(d, p, before[k]));
            }
        }
        assert forall|k: int, l: int| 0 <= k < l < all.len() implies (#[trigger] all[k]) < (
        #[trigger] all[l]) by {
            assert(all[k] == before[k]);
            if l < before.len() {
                assert(all[l] == before[l]);
                assert(before[k] < before[l]);
            } else {
                assert(fits_at(d, p, before[k]));
            }
        }
    }
}

/// A pattern of bytes fits where these bytes stand, and an open place fits any byte.
pub proof fn law_pattern_fits(d: Seq<u8>, bytes: Seq<u8>, i: int)
    requires
        0 <= i,
        i + bytes.len() <= d.len(),
    ensures
        fits_at(d, exactly(bytes), i) <==> d.subrange(i, i + bytes.len()) == bytes,
        fits_at(d, Seq::new(bytes.len(), |k: int| None::<u8>), i),
{
    let p = exactly(bytes);
    if fits_at(d, p, i) {
        assert forall|k: int| 0 <= k < bytes.len() implies d.subrange(i, i + bytes.len())[k]
            == bytes[k] by {
            assert(p[k] == Some(bytes[k]));
        }
        assert(d.subrange(i, i + bytes.len()) =~= bytes);
    }
    if d.subrange(i, i + bytes.len()) == bytes {
        assert forall|k: int| 0 <= k < p.len() implies ((#[trigger] p[k]) matches Some(b) ==> d[i + k]
            == b) by {
            assert(d.subrange(i, i + bytes.len())[k] == d[i + k]);
        }
    }
}

} // verus!

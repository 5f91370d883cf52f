//! Text over sequences of characters: the scanning vocabulary that every
//! parser and formatter of this crate is written in.

use vstd::prelude::*;
use vstd::slice::slice_subrange;

verus! {

/// `String::push` appends one character and changes nothing else.
pub assume_specification[ String::push ](s: &mut String, ch: char)
    ensures
        final(s)@ == old(s)@.push(ch),
;

/// The lower-case equivalent of a text after Unicode.
pub uninterp spec fn lowercase_of(s: Seq<char>) -> Seq<char>;

/// `str::to_lowercase` depends on the text alone; of an ASCII text it changes
/// the letters `A` to `Z` and nothing else.
#[verifier::external_body]
fn lowercase_str(s: &str) -> (r: String)
    ensures
        r@ == lowercase_of(s@),
        vstd::utf8::is_ascii_chars(s@) ==> r@ == ascii_lower_of(s@),
{
    s.to_lowercase()
}

/// A text in lower case: of an ASCII text the letters `A` to `Z` change and
/// nothing else.
pub open spec fn lower_of(s: Seq<char>) -> Seq<char> {
    if vstd::utf8::is_ascii_chars(s) {
        ascii_lower_of(s)
    } else {
        lowercase_of(s)
    }
}

/// The lower-case form of a run of characters.
pub fn to_lowercase(s: &[char]) -> (r: Vec<char>)
    ensures
        r@ == lower_of(s@),
{
    chars_of(lowercase_str(string_of(s).as_str()).as_str())
}

/// The characters with the Unicode property `White_Space`.
pub open spec fn is_space(c: char) -> bool {
    ||| '\u{9}' <= c <= '\u{d}'
    ||| c == '\u{20}'
    ||| c == '\u{85}'
    ||| c == '\u{a0}'
    ||| c == '\u{1680}'
    ||| '\u{2000}' <= c <= '\u{200a}'
    ||| '\u{2028}' <= c <= '\u{2029}'
    ||| c == '\u{202f}'
    ||| c == '\u{205f}'
    ||| c == '\u{3000}'
}

pub fn is_whitespace(c: char) -> (r: bool)
    ensures
        r == is_space(c),
{
    ('\u{9}' <= c && c <= '\u{d}') || c == '\u{20}' || c == '\u{85}' || c == '\u{a0}' || c
        == '\u{1680}' || ('\u{2000}' <= c && c <= '\u{200a}') || ('\u{2028}' <= c && c
        <= '\u{2029}') || c == '\u{202f}' || c == '\u{205f}' || c == '\u{3000}'
}

/// An ASCII decimal digit.
pub open spec fn is_digit(c: char) -> bool {
    '0' <= c <= '9'
}

pub fn is_ascii_digit(c: char) -> (r: bool)
    ensures
        r == is_digit(c),
{
    '0' <= c && c <= '9'
}

/// The characters of a string, in order.
pub fn chars_of(s: &str) -> (r: Vec<char>)
    ensures
        r@ == s@,
{
    let mut out: Vec<char> = Vec::new();
    for c in it: s.chars()
        invariant
            out@.len() == it.index(),
            forall|i: int| 0 <= i < out@.len() ==> out@[i] == it.seq()[i],
    {
        out.push(c);
    }
    out
}

/// The string made of the given characters.
pub fn string_of(s: &[char]) -> (r: String)
    ensures
        r@ == s@,
{
    let mut out = String::new();
    let mut i: usize = 0;
    while i < s.len()
        invariant
            i <= s@.len(),
            out@ == s@.take(i as int),
        decreases s@.len() - i,
    {
        out.push(s[i]);
        proof {
            assert(s@.take(i + 1) == s@.take(i as int).push(s@[i as int]));
        }
        i += 1;
    }
    assert(s@.take(i as int) == s@);
    out
}


/// `s` without its leading white space.
pub open spec fn trim_start_of(s: Seq<char>) -> Seq<char>
    decreases s.len(),
{
    if s.len() > 0 && is_space(s[0]) {
        trim_start_of(s.drop_first())
    } else {
        s
    }
}

/// `s` without its trailing white space.
pub open spec fn trim_end_of(s: Seq<char>) -> Seq<char>
    decreases s.len(),
{
    if s.len() > 0 && is_space(s.last()) {
        trim_end_of(s.drop_last())
    } else {
        s
    }
}

/// `s` without the white space at both ends.
pub open spec fn trim_of(s: Seq<char>) -> Seq<char> {
    trim_end_of(trim_start_of(s))
}

pub fn trim_start(s: &[char]) -> (r: &[char])
    ensures
        r@ == trim_start_of(s@),
{
    let mut i: usize = 0;
    assert(s@.skip(0) == s@);
    while i < s.len() && is_whitespace(s[i])
        invariant
            i <= s@.len(),
            trim_start_of(s@) == trim_start_of(s@.skip(i as int)),
        decreases s@.len() - i,
    {
        assert(s@.skip(i as int).drop_first() == s@.skip(i + 1));
        i += 1;
    }
    let r = slice_subrange(s, i, s.len());
    assert(r@ == s@.skip(i as int));
    r
}

pub fn trim_end(s: &[char]) -> (r: &[char])
    ensures
        r@ == trim_end_of(s@),
{
    let mut n: usize = s.len();
    assert(s@.take(n as int) == s@);
    while n > 0 && is_whitespace(s[n - 1])
        invariant
            n <= s@.len(),
            trim_end_of(s@) == trim_end_of(s@.take(n as int)),
        decreases n,
    {
        assert(s@.take(n as int).drop_last() == s@.take(n - 1));
        n -= 1;
    }
    let r = slice_subrange(s, 0, n);
    assert(r@ == s@.take(n as int));
    r
}

pub fn trim(s: &[char]) -> (r: &[char])
    ensures
        r@ == trim_of(s@),
{
    trim_end(trim_start(s))
}

/// How `trim_start_of` cuts: it is a suffix of `s` behind a run of white space.
pub proof fn lemma_trim_start(s: Seq<char>)
    ensures
        trim_start_of(s).len() <= s.len(),
        trim_start_of(s) == s.skip(s.len() - trim_start_of(s).len()),
        forall|i: int|
            0 <= i < s.len() - trim_start_of(s).len() ==> is_space(#[trigger] s[i]),
        trim_start_of(s).len() > 0 ==> !is_space(trim_start_of(s)[0]),
    decreases s.len(),
{
    if s.len() > 0 && is_space(s[0]) {
        let t = s.drop_first();
        lemma_trim_start(t);
        let k = t.len() - trim_start_of(t).len();
        assert(t.skip(k) == s.skip(k + 1));
        assert forall|i: int| 0 <= i < k + 1 implies is_space(#[trigger] s[i]) by {
            if i > 0 {
                assert(t[i - 1] == s[i]);
            }
        }
    } else {
        assert(s.skip(0) == s);
    }
}

/// How `trim_end_of` cuts: it is a prefix of `s` before a run of white space.
pub proof fn lemma_trim_start_is(s: Seq<char>, k: int)
    requires
        0 <= k <= s.len(),
        forall|i: int| 0 <= i < k ==> is_space(#[trigger] s[i]),
        k < s.len() ==> !is_space(s[k]),
    ensures
        trim_start_of(s) == s.skip(k),
    decreases k,
{
    if k > 0 {
        assert(is_space(s[0]));
        let t = s.drop_first();
        assert forall|i: int| 0 <= i < k - 1 implies is_space(#[trigger] t[i]) by {
            assert(t[i] == s[i + 1]);
        }
        lemma_trim_start_is(t, k - 1);
        assert(t.skip(k - 1) == s.skip(k));
    } else {
        assert(s.skip(0) == s);
    }
}

pub proof fn lemma_trim_end(s: Seq<char>)
    ensures
        trim_end_of(s).len() <= s.len(),
        trim_end_of(s) == s.take(trim_end_of(s).len() as int),
        forall|i: int| trim_end_of(s).len() <= i < s.len() ==> is_space(#[trigger] s[i]),
        trim_end_of(s).len() > 0 ==> !is_space(trim_end_of(s).last()),
    decreases s.len(),
{
    if s.len() > 0 && is_space(s.last()) {
        let t = s.drop_last();
        lemma_trim_end(t);
        let k = trim_end_of(t).len() as int;
        assert(t.take(k) == s.take(k));
        assert forall|i: int| k <= i < s.len() implies is_space(#[trigger] s[i]) by {
            if i < t.len() {
                assert(t[i] == s[i]);
            }
        }
    } else {
        assert(s.take(s.len() as int) == s);
    }
}

/// A text that neither begins nor ends with white space is its own trimming.
pub proof fn lemma_trim_fixed(s: Seq<char>)
    requires
        s.len() > 0 ==> !is_space(s[0]) && !is_space(s.last()),
    ensures
        trim_start_of(s) == s,
        trim_end_of(s) == s,
        trim_of(s) == s,
{
}

/// The index of the first `c` in `s`.
pub fn find_char(s: &[char], c: char) -> (r: Option<usize>)
    ensures
        match r {
            Some(i) => s@.index_of_first(c) == Some(i as int) && i < s.len() && s@[i as int] == c
                && !s@.take(i as int).contains(c),
            None => s@.index_of_first(c) is None && !s@.contains(c),
        },
{
    let mut i: usize = 0;
    while i < s.len()
        invariant
            i <= s@.len(),
            forall|j: int| 0 <= j < i ==> s@[j] != c,
        decreases s@.len() - i,
    {
        if s[i] == c {
            proof {
                s@.index_of_first_ensures(c);
                assert(s@[i as int] == c);
            }
            return Some(i);
        }
        i += 1;
    }
    proof {
        s@.index_of_first_ensures(c);
    }
    None
}

/// The index of the last `c` in `s`.
pub fn rfind_char(s: &[char], c: char) -> (r: Option<usize>)
    ensures
        match r {
            Some(i) => s@.index_of_last(c) == Some(i as int) && i < s.len() && s@[i as int] == c,
            None => s@.index_of_last(c) is None && !s@.contains(c),
        },
{
    let mut i: usize = s.len();
    while i > 0
        invariant
            i <= s@.len(),
            forall|j: int| i <= j < s@.len() ==> s@[j] != c,
        decreases i,
    {
        if s[i - 1] == c {
            proof {
                s@.index_of_last_ensures(c);
                assert(s@[i - 1] == c);
            }
            return Some(i - 1);
        }
        i -= 1;
    }
    proof {
        s@.index_of_last_ensures(c);
    }
    None
}

/// Whether two runs of characters are the same.
pub fn eq_chars(a: &[char], b: &[char]) -> (r: bool)
    ensures
        r == (a@ == b@),
{
    if a.len() != b.len() {
        return false;
    }
    let mut i: usize = 0;
    while i < a.len()
        invariant
            i <= a@.len(),
            a@.len() == b@.len(),
            forall|j: int| 0 <= j < i ==> a@[j] == b@[j],
        decreases a@.len() - i,
    {
        if a[i] != b[i] {
            return false;
        }
        i += 1;
    }
    assert(a@ == b@);
    true
}

/// Whether the characters spell out the given text.
pub fn eq_str(a: &[char], b: &str) -> (r: bool)
    ensures
        r == (a@ == b@),
{
    eq_chars(a, chars_of(b).as_slice())
}

/// Whether `s` begins with `p`.
pub fn starts_with_chars(s: &[char], p: &[char]) -> (r: bool)
    ensures
        r == p@.is_prefix_of(s@),
{
    if p.len() > s.len() {
        return false;
    }
    let r = eq_chars(slice_subrange(s, 0, p.len()), p);
    r
}

pub fn starts_with(s: &[char], p: &str) -> (r: bool)
    ensures
        r == p@.is_prefix_of(s@),
{
    starts_with_chars(s, chars_of(p).as_slice())
}

/// `p` occurs in `s` at index `i`.
pub open spec fn occurs_at(s: Seq<char>, p: Seq<char>, i: int) -> bool {
    0 <= i && i + p.len() <= s.len() && s.subrange(i, i + p.len()) == p
}

/// `i` is the first index at which `p` occurs in `s`.
pub open spec fn first_at(s: Seq<char>, p: Seq<char>, i: int) -> bool {
    occurs_at(s, p, i) && forall|j: int| 0 <= j < i ==> !occurs_at(s, p, j)
}

/// `p` occurs somewhere in `s`.
pub open spec fn contains_text(s: Seq<char>, p: Seq<char>) -> bool {
    exists|i: int| occurs_at(s, p, i)
}

/// The first index at which `p` occurs in `s`.
pub open spec fn find_text(s: Seq<char>, p: Seq<char>) -> Option<int> {
    if contains_text(s, p) {
        Some(choose|i: int| first_at(s, p, i))
    } else {
        None
    }
}

/// There is one first index.
pub proof fn lemma_find_text(s: Seq<char>, p: Seq<char>, i: int)
    requires
        first_at(s, p, i),
    ensures
        find_text(s, p) == Some(i),
{
    assert(occurs_at(s, p, i));
    let j = choose|j: int| first_at(s, p, j);
    assert(first_at(s, p, j));
    assert(occurs_at(s, p, j));
}

pub fn find_chars(s: &[char], p: &[char]) -> (r: Option<usize>)
    ensures
        match r {
            Some(i) => find_text(s@, p@) == Some(i as int) && first_at(s@, p@, i as int)
                && contains_text(s@, p@),
            None => find_text(s@, p@) is None && !contains_text(s@, p@),
        },
{
    if p.len() > s.len() {
        return None;
    }
    let last: usize = s.len() - p.len();
    let mut i: usize = 0;
    while i <= last
        invariant
            p.len() + last == s.len(),
            i <= last + 1,
            forall|j: int| 0 <= j < i ==> !occurs_at(s@, p@, j),
        decreases last + 1 - i,
    {
        if eq_chars(slice_subrange(s, i, i + p.len()), p) {
            proof {
                assert(occurs_at(s@, p@, i as int));
                lemma_find_text(s@, p@, i as int);
            }
            return Some(i);
        }
        if i == last {
            assert forall|j: int| !occurs_at(s@, p@, j) by {}
            return None;
        }
        i += 1;
    }
    None
}

/// `p` stands at `i` of `s` and nowhere behind.
pub open spec fn last_at(s: Seq<char>, p: Seq<char>, i: int) -> bool {
    occurs_at(s, p, i) && forall|j: int| i < j ==> !occurs_at(s, p, j)
}

/// The last place where `p` stands in `s`.
pub open spec fn rfind_text(s: Seq<char>, p: Seq<char>) -> Option<int> {
    if exists|i: int| last_at(s, p, i) {
        Some(choose|i: int| last_at(s, p, i))
    } else {
        None
    }
}

pub fn rfind_chars(s: &[char], p: &[char]) -> (r: Option<usize>)
    ensures
        match r {
            Some(i) => rfind_text(s@, p@) == Some(i as int) && occurs_at(s@, p@, i as int),
            None => rfind_text(s@, p@) is None,
        },
{
    if p.len() > s.len() {
        assert forall|j: int| !occurs_at(s@, p@, j) by {}
        return None;
    }
    let mut i: usize = s.len() - p.len();
    assert forall|j: int| i < j implies !occurs_at(s@, p@, j) by {}
    loop
        invariant
            i + p@.len() <= s@.len(),
            s.len() == s@.len(),
            p.len() == p@.len(),
            forall|j: int| i < j ==> !occurs_at(s@, p@, j),
        decreases i,
    {
        let here = slice_subrange(s, i, i + p.len());
        assert(here@ == s@.subrange(i as int, i + p@.len()));
        if eq_chars(here, p) {
            proof {
                assert(last_at(s@, p@, i as int));
                let k = choose|k: int| last_at(s@, p@, k);
                assert(last_at(s@, p@, k));
                assert(occurs_at(s@, p@, i as int));
                assert(occurs_at(s@, p@, k));
            }
            return Some(i);
        }
        if i == 0 {
            assert forall|j: int| !last_at(s@, p@, j) by {}
            return None;
        }
        i -= 1;
    }
}

pub fn contains_str(s: &[char], p: &str) -> (r: bool)
    ensures
        r == contains_text(s@, p@),
{
    find_chars(s, chars_of(p).as_slice()).is_some()
}

/// The ASCII lower-case form of one character.
pub open spec fn lower_char(c: char) -> char {
    if 'A' <= c <= 'Z' {
        ((c as u32 + 32) as u32) as char
    } else {
        c
    }
}

/// `s` with its ASCII letters in lower case.
pub open spec fn ascii_lower_of(s: Seq<char>) -> Seq<char> {
    s.map_values(|c: char| lower_char(c))
}

fn lower(c: char) -> (r: char)
    ensures
        r == lower_char(c),
{
    if 'A' <= c && c <= 'Z' {
        ((c as u8) + 32) as char
    } else {
        c
    }
}

pub fn ascii_lower(s: &[char]) -> (r: Vec<char>)
    ensures
        r@ == ascii_lower_of(s@),
{
    let mut out: Vec<char> = Vec::new();
    let mut i: usize = 0;
    while i < s.len()
        invariant
            i <= s@.len(),
            out@ == ascii_lower_of(s@.take(i as int)),
        decreases s@.len() - i,
    {
        out.push(lower(s[i]));
        proof {
            assert(s@.take(i + 1) == s@.take(i as int).push(s@[i as int]));
            assert(out@ == ascii_lower_of(s@.take(i + 1)));
        }
        i += 1;
    }
    assert(s@.take(i as int) == s@);
    out
}


/// The number of digits that `s` begins with.
pub open spec fn digit_run(s: Seq<char>) -> nat
    decreases s.len(),
{
    if s.len() > 0 && is_digit(s[0]) {
        1 + digit_run(s.drop_first())
    } else {
        0
    }
}

pub proof fn lemma_digit_run(s: Seq<char>)
    ensures
        digit_run(s) <= s.len(),
        forall|i: int| 0 <= i < digit_run(s) ==> is_digit(#[trigger] s[i]),
        digit_run(s) < s.len() ==> !is_digit(s[digit_run(s) as int]),
    decreases s.len(),
{
    if s.len() > 0 && is_digit(s[0]) {
        let t = s.drop_first();
        lemma_digit_run(t);
        assert forall|i: int| 0 <= i < digit_run(s) implies is_digit(#[trigger] s[i]) by {
            if i > 0 {
                assert(t[i - 1] == s[i]);
            }
        }
    }
}

/// A run of digits is cut off where the first other character stands.
pub proof fn lemma_digit_run_is(s: Seq<char>, n: nat)
    requires
        n <= s.len(),
        forall|i: int| 0 <= i < n ==> is_digit(#[trigger] s[i]),
        n < s.len() ==> !is_digit(s[n as int]),
    ensures
        digit_run(s) == n,
    decreases n,
{
    if n > 0 {
        assert(is_digit(s[0]));
        let t = s.drop_first();
        assert forall|i: int| 0 <= i < n - 1 implies is_digit(#[trigger] t[i]) by {
            assert(t[i] == s[i + 1]);
        }
        lemma_digit_run_is(t, (n - 1) as nat);
    }
}

/// Counts the digits that `s` begins with.
pub fn count_digits(s: &[char]) -> (r: usize)
    ensures
        r == digit_run(s@),
        r <= s@.len(),
{
    let mut i: usize = 0;
    while i < s.len() && is_ascii_digit(s[i])
        invariant
            i <= s@.len(),
            forall|j: int| 0 <= j < i ==> is_digit(#[trigger] s@[j]),
        decreases s@.len() - i,
    {
        i += 1;
    }
    proof {
        lemma_digit_run_is(s@, i as nat);
    }
    i
}

/// Every character of `s` is a digit.
pub open spec fn all_digits(s: Seq<char>) -> bool {
    forall|i: int| 0 <= i < s.len() ==> is_digit(#[trigger] s[i])
}

/// The number that a run of decimal digits stands for.
pub open spec fn digits_value(s: Seq<char>) -> nat
    decreases s.len(),
{
    if s.len() == 0 {
        0
    } else {
        digits_value(s.drop_last()) * 10 + (s.last() as nat - '0' as nat) as nat
    }
}

/// The value of a decimal integer of at most `max`: an optional `+`, then
/// one or more digits and nothing else.
pub open spec fn parse_dec(s: Seq<char>, max: nat) -> Option<nat> {
    let d = if s.len() > 0 && s[0] == '+' {
        s.drop_first()
    } else {
        s
    };
    if d.len() > 0 && all_digits(d) && digits_value(d) <= max {
        Some(digits_value(d))
    } else {
        None
    }
}

pub proof fn lemma_digits_value_monotone(s: Seq<char>, i: int)
    requires
        0 <= i <= s.len(),
        all_digits(s),
    ensures
        digits_value(s.take(i)) <= digits_value(s),
    decreases s.len() - i,
{
    if i < s.len() {
        lemma_digits_value_monotone(s, i + 1);
        assert(s.take(i + 1).drop_last() == s.take(i));
        assert(is_digit(s[i]));
    } else {
        assert(s.take(i) == s);
    }
}

/// The value of the digits of `s`, or `None` beyond `max`.
fn digits_up_to(s: &[char], max: u64) -> (r: Option<u64>)
    requires
        max <= 0xffff_ffff,
    ensures
        r == (if all_digits(s@) && digits_value(s@) <= max {
            Some(digits_value(s@) as u64)
        } else {
            None
        }),
{
    let mut v: u64 = 0;
    let mut i: usize = 0;
    while i < s.len()
        invariant
            max <= 0xffff_ffff,
            i <= s@.len(),
            v <= max,
            v == digits_value(s@.take(i as int)),
            all_digits(s@.take(i as int)),
        decreases s@.len() - i,
    {
        if !is_ascii_digit(s[i]) {
            return None;
        }
        let d: u64 = (s[i] as u64) - ('0' as u64);
        v = v * 10 + d;
        proof {
            assert(s@.take(i + 1).drop_last() == s@.take(i as int));
            assert(v == digits_value(s@.take(i + 1)));
            assert forall|j: int| 0 <= j < i + 1 implies is_digit(#[trigger] s@.take(i + 1)[j]) by {
                if j < i {
                    assert(is_digit(s@.take(i as int)[j]));
                }
            }
        }
        if v > max {
            proof {
                if all_digits(s@) {
                    lemma_digits_value_monotone(s@, i + 1);
                }
            }
            return None;
        }
        i += 1;
    }
    assert(s@.take(i as int) == s@);
    Some(v)
}

fn parse_up_to(s: &[char], max: u64) -> (r: Option<u64>)
    requires
        max <= 0xffff_ffff,
    ensures
        match r {
            Some(v) => parse_dec(s@, max as nat) == Some(v as nat) && v <= max,
            None => parse_dec(s@, max as nat) is None,
        },
{
    let d = if s.len() > 0 && s[0] == '+' {
        let t = slice_subrange(s, 1, s.len());
        assert(t@ == s@.drop_first());
        t
    } else {
        s
    };
    if d.len() == 0 {
        return None;
    }
    digits_up_to(d, max)
}

pub fn parse_u32(s: &[char]) -> (r: Option<u32>)
    ensures
        match r {
            Some(v) => parse_dec(s@, u32::MAX as nat) == Some(v as nat),
            None => parse_dec(s@, u32::MAX as nat) is None,
        },
{
    match parse_up_to(s, 0xffff_ffff) {
        Some(v) => Some(v as u32),
        None => None,
    }
}

pub fn parse_u16(s: &[char]) -> (r: Option<u16>)
    ensures
        match r {
            Some(v) => parse_dec(s@, u16::MAX as nat) == Some(v as nat),
            None => parse_dec(s@, u16::MAX as nat) is None,
        },
{
    match parse_up_to(s, 0xffff) {
        Some(v) => Some(v as u16),
        None => None,
    }
}

pub fn parse_u8(s: &[char]) -> (r: Option<u8>)
    ensures
        match r {
            Some(v) => parse_dec(s@, u8::MAX as nat) == Some(v as nat),
            None => parse_dec(s@, u8::MAX as nat) is None,
        },
{
    match parse_up_to(s, 0xff) {
        Some(v) => Some(v as u8),
        None => None,
    }
}

/// The decimal digit for a value below ten.
pub open spec fn digit_char(d: nat) -> char {
    (d + '0' as nat) as char
}

/// A number in decimal, without leading zeros.
pub open spec fn decimal(n: nat) -> Seq<char>
    decreases n,
{
    if n < 10 {
        seq![digit_char(n)]
    } else {
        decimal(n / 10).push(digit_char(n % 10))
    }
}

fn digit_of(d: u64) -> (r: char)
    requires
        d < 10,
    ensures
        r == digit_char(d as nat),
{
    ((d as u8) + 48u8) as char
}

/// Writes a number in decimal.
pub fn decimal_chars(n: u64) -> (r: Vec<char>)
    ensures
        r@ == decimal(n as nat),
    decreases n,
{
    if n < 10 {
        let mut out: Vec<char> = Vec::new();
        out.push(digit_of(n));
        assert(out@ == decimal(n as nat));
        out
    } else {
        let mut out = decimal_chars(n / 10);
        out.push(digit_of(n % 10));
        out
    }
}

/// A number written in decimal is a nonempty run of digits with that value.
pub proof fn lemma_decimal(n: nat)
    ensures
        decimal(n).len() > 0,
        all_digits(decimal(n)),
        digits_value(decimal(n)) == n,
        decimal(n)[0] != '+',
    decreases n,
{
    if n < 10 {
        assert(is_digit(digit_char(n)));
        assert(decimal(n).drop_last() == Seq::<char>::empty());
        assert(digits_value(Seq::<char>::empty()) == 0);
    } else {
        lemma_decimal(n / 10);
        let p = decimal(n / 10);
        assert(decimal(n).drop_last() == p);
        assert(is_digit(digit_char(n % 10)));
        assert forall|i: int| 0 <= i < decimal(n).len() implies is_digit(
            #[trigger] decimal(n)[i],
        ) by {
            if i < p.len() {
                assert(is_digit(p[i]));
            }
        }
    }
}

/// Reading back a number that was written in decimal.
pub proof fn lemma_decimal_parses(n: nat, max: nat)
    requires
        n <= max,
    ensures
        parse_dec(decimal(n), max) == Some(n),
{
    lemma_decimal(n);
}

proof fn lemma_no_value(s: Seq<char>)
    requires
        all_digits(s),
        digits_value(s) == 0,
    ensures
        forall|i: int| 0 <= i < s.len() ==> #[trigger] s[i] == '0',
    decreases s.len(),
{
    if s.len() > 0 {
        let p = s.drop_last();
        assert(is_digit(s[s.len() - 1]));
        assert forall|i: int| 0 <= i < p.len() implies is_digit(#[trigger] p[i]) by {
            assert(is_digit(s[i]));
        }
        lemma_no_value(p);
        assert forall|i: int| 0 <= i < s.len() implies #[trigger] s[i] == '0' by {
            if i < p.len() {
                assert(p[i] == '0');
            }
        }
    }
}

/// Zeros in front of digits add nothing to their value.
pub proof fn lemma_zeros_in_front(z: Seq<char>, d: Seq<char>)
    requires
        forall|i: int| 0 <= i < z.len() ==> #[trigger] z[i] == '0',
        all_digits(d),
    ensures
        all_digits(z + d),
        digits_value(z + d) == digits_value(d),
    decreases d.len() + z.len(),
{
    let s = z + d;
    assert forall|i: int| 0 <= i < s.len() implies is_digit(#[trigger] s[i]) by {
        if i >= z.len() {
            assert(is_digit(d[i - z.len()]));
        }
    }
    if d.len() > 0 {
        let p = d.drop_last();
        assert forall|i: int| 0 <= i < p.len() implies is_digit(#[trigger] p[i]) by {
            assert(is_digit(d[i]));
        }
        lemma_zeros_in_front(z, p);
        assert(s.drop_last() == z + p);
        assert(s.last() == d.last());
    } else if z.len() > 0 {
        let y = z.drop_last();
        assert forall|i: int| 0 <= i < y.len() implies #[trigger] y[i] == '0' by {
            assert(z[i] == '0');
        }
        lemma_zeros_in_front(y, d);
        assert(s.drop_last() == y + d);
        assert(s.last() == z[z.len() - 1]);
    } else {
        assert(s == d);
    }
}

/// Digits are zeros with their value in decimal behind them.
pub proof fn lemma_digits_are_decimal(s: Seq<char>)
    requires
        all_digits(s),
        s.len() > 0,
    ensures
        decimal(digits_value(s)).len() <= s.len(),
        s.skip(s.len() - decimal(digits_value(s)).len()) == decimal(digits_value(s)),
        forall|i: int|
            0 <= i < s.len() - decimal(digits_value(s)).len() ==> #[trigger] s[i] == '0',
    decreases s.len(),
{
    let v = digits_value(s);
    let p = s.drop_last();
    let c = s.last();
    assert(is_digit(s[s.len() - 1]));
    assert forall|i: int| 0 <= i < p.len() implies is_digit(#[trigger] p[i]) by {
        assert(is_digit(s[i]));
    }
    assert(v == digits_value(p) * 10 + (c as nat - '0' as nat) as nat);
    assert(digit_char(v % 10) == c);
    if digits_value(p) == 0 {
        lemma_no_value(p);
        assert(decimal(v) == seq![c]);
        assert(s.skip(s.len() - 1) == seq![c]);
        assert forall|i: int| 0 <= i < s.len() - 1 implies #[trigger] s[i] == '0' by {
            assert(p[i] == '0');
        }
    } else {
        assert(p.len() > 0);
        lemma_digits_are_decimal(p);
        assert(v / 10 == digits_value(p));
        let d = decimal(v / 10);
        assert(decimal(v) == d.push(c));
        assert(s.skip(s.len() - d.len() - 1) == p.skip(p.len() - d.len()).push(c));
        assert forall|i: int| 0 <= i < s.len() - decimal(v).len() implies #[trigger] s[i]
            == '0' by {
            assert(p[i] == '0');
        }
    }
}

/// `s` cut at every `c`; the pieces in order, without the separators.
pub open spec fn split_of(s: Seq<char>, c: char) -> Seq<Seq<char>>
    decreases s.len(),
{
    match s.index_of_first(c) {
        Some(i) => if 0 <= i < s.len() {
            seq![s.take(i)] + split_of(s.skip(i + 1), c)
        } else {
            seq![s]
        },
        None => seq![s],
    }
}

/// A line as `lines_of` hands it out: without one trailing carriage return.
pub open spec fn strip_cr(s: Seq<char>) -> Seq<char> {
    if s.len() > 0 && s.last() == '\r' {
        s.drop_last()
    } else {
        s
    }
}

/// The lines of a text: a line feed ends a line and takes a carriage return
/// before it along; an empty rest behind the last line feed is no line.
pub open spec fn lines_of(s: Seq<char>) -> Seq<Seq<char>>
    decreases s.len(),
{
    match s.index_of_first('\n') {
        Some(i) => if 0 <= i < s.len() {
            seq![strip_cr(s.take(i))] + lines_of(s.skip(i + 1))
        } else {
            seq![]
        },
        None => if s.len() == 0 {
            seq![]
        } else {
            seq![s]
        },
    }
}

/// What a vector of character vectors stands for.
pub open spec fn rows(v: Seq<Vec<char>>) -> Seq<Seq<char>> {
    v.map_values(|r: Vec<char>| r@)
}

/// The texts of a list of strings.
pub open spec fn texts(v: Seq<String>) -> Seq<Seq<char>> {
    v.map_values(|s: String| s@)
}

/// A copy of a run of characters.
pub fn to_chars(s: &[char]) -> (r: Vec<char>)
    ensures
        r@ == s@,
{
    vstd::slice::slice_to_vec(s)
}

pub fn split(s: &[char], c: char) -> (r: Vec<Vec<char>>)
    ensures
        rows(r@) == split_of(s@, c),
{
    let mut out: Vec<Vec<char>> = Vec::new();
    let mut rest = s;
    assert(rows(out@) + split_of(rest@, c) == split_of(s@, c));
    loop
        invariant
            rows(out@) + split_of(rest@, c) == split_of(s@, c),
        decreases rest@.len(),
    {
        match find_char(rest, c) {
            Some(i) => {
                let ghost before = rest@;
                let ghost done = rows(out@);
                out.push(to_chars(slice_subrange(rest, 0, i)));
                rest = slice_subrange(rest, i + 1, rest.len());
                proof {
                    assert(rest@ == before.skip(i + 1));
                    assert(rows(out@) == done.push(before.take(i as int)));
                    assert(done + (seq![before.take(i as int)] + split_of(rest@, c)) == done.push(
                        before.take(i as int),
                    ) + split_of(rest@, c));
                }
            },
            None => {
                let ghost done = rows(out@);
                out.push(to_chars(rest));
                proof {
                    assert(rows(out@) == done.push(rest@));
                    assert(done + seq![rest@] == done.push(rest@));
                }
                return out;
            },
        }
    }
}

pub fn lines(s: &[char]) -> (r: Vec<Vec<char>>)
    ensures
        rows(r@) == lines_of(s@),
{
    let mut out: Vec<Vec<char>> = Vec::new();
    let mut rest = s;
    assert(rows(out@) + lines_of(rest@) == lines_of(s@));
    loop
        invariant
            rows(out@) + lines_of(rest@) == lines_of(s@),
        decreases rest@.len(),
    {
        match find_char(rest, '\n') {
            Some(i) => {
                let ghost before = rest@;
                let ghost done = rows(out@);
                let line = if i > 0 && rest[i - 1] == '\r' {
                    slice_subrange(rest, 0, i - 1)
                } else {
                    slice_subrange(rest, 0, i)
                };
                assert(line@ == strip_cr(before.take(i as int)));
                out.push(to_chars(line));
                rest = slice_subrange(rest, i + 1, rest.len());
                proof {
                    let l = strip_cr(before.take(i as int));
                    assert(rest@ == before.skip(i + 1));
                    assert(rows(out@) == done.push(l));
                    assert(done + (seq![l] + lines_of(rest@)) == done.push(l) + lines_of(rest@));
                }
            },
            None => {
                let ghost done = rows(out@);
                if rest.len() > 0 {
                    out.push(to_chars(rest));
                    proof {
                        assert(rows(out@) == done.push(rest@));
                        assert(done + seq![rest@] == done.push(rest@));
                    }
                } else {
                    assert(done + seq![] == done);
                }
                return out;
            },
        }
    }
}

/// The number of characters before the first white space.
pub open spec fn word_run(s: Seq<char>) -> nat
    decreases s.len(),
{
    if s.len() > 0 && !is_space(s[0]) {
        1 + word_run(s.drop_first())
    } else {
        0
    }
}

pub proof fn lemma_word_run_is(s: Seq<char>, n: nat)
    requires
        n <= s.len(),
        forall|i: int| 0 <= i < n ==> !is_space(#[trigger] s[i]),
        n < s.len() ==> is_space(s[n as int]),
    ensures
        word_run(s) == n,
    decreases n,
{
    if n > 0 {
        assert(!is_space(s[0]));
        let t = s.drop_first();
        assert forall|i: int| 0 <= i < n - 1 implies !is_space(#[trigger] t[i]) by {
            assert(t[i] == s[i + 1]);
        }
        lemma_word_run_is(t, (n - 1) as nat);
    }
}

pub proof fn lemma_word_run(s: Seq<char>)
    ensures
        word_run(s) <= s.len(),
        forall|i: int| 0 <= i < word_run(s) ==> !is_space(#[trigger] s[i]),
        word_run(s) < s.len() ==> is_space(s[word_run(s) as int]),
    decreases s.len(),
{
    if s.len() > 0 && !is_space(s[0]) {
        let t = s.drop_first();
        lemma_word_run(t);
        assert forall|i: int| 0 <= i < word_run(s) implies !is_space(#[trigger] s[i]) by {
            if i > 0 {
                assert(t[i - 1] == s[i]);
            }
        }
    }
}

/// The maximal runs of other characters between the white space of `s`.
pub open spec fn words_of(s: Seq<char>) -> Seq<Seq<char>>
    decreases s.len(),
{
    let t = trim_start_of(s);
    if t.len() == 0 || t.len() > s.len() || !(0 < word_run(t) <= t.len()) {
        seq![]
    } else {
        seq![t.take(word_run(t) as int)] + words_of(t.skip(word_run(t) as int))
    }
}

fn word_len(s: &[char]) -> (r: usize)
    ensures
        r == word_run(s@),
        r <= s@.len(),
{
    let mut i: usize = 0;
    while i < s.len() && !is_whitespace(s[i])
        invariant
            i <= s@.len(),
            forall|j: int| 0 <= j < i ==> !is_space(#[trigger] s@[j]),
        decreases s@.len() - i,
    {
        i += 1;
    }
    proof {
        lemma_word_run_is(s@, i as nat);
    }
    i
}

pub fn words(s: &[char]) -> (r: Vec<Vec<char>>)
    ensures
        rows(r@) == words_of(s@),
{
    let mut out: Vec<Vec<char>> = Vec::new();
    let mut rest = s;
    assert(rows(out@) + words_of(rest@) == words_of(s@));
    loop
        invariant
            rows(out@) + words_of(rest@) == words_of(s@),
        decreases rest@.len(),
    {
        let t = trim_start(rest);
        proof {
            lemma_trim_start(rest@);
        }
        if t.len() == 0 {
            assert(rows(out@) + seq![] == rows(out@));
            return out;
        }
        let n = word_len(t);
        let ghost done = rows(out@);
        let ghost w = t@.take(n as int);
        out.push(to_chars(slice_subrange(t, 0, n)));
        rest = slice_subrange(t, n, t.len());
        proof {
            assert(rest@ == t@.skip(n as int));
            assert(rows(out@) == done.push(w));
            assert(done + (seq![w] + words_of(rest@)) == done.push(w) + words_of(rest@));
        }
    }
}

/// What stands before and behind the first `c`.
pub open spec fn split_once_of(s: Seq<char>, c: char) -> Option<(Seq<char>, Seq<char>)> {
    match s.index_of_first(c) {
        Some(i) => Some((s.take(i), s.skip(i + 1))),
        None => None,
    }
}

pub fn split_once(s: &[char], c: char) -> (r: Option<(&[char], &[char])>)
    ensures
        match r {
            Some(p) => split_once_of(s@, c) == Some((p.0@, p.1@)),
            None => split_once_of(s@, c) is None,
        },
{
    match find_char(s, c) {
        Some(i) => {
            let a = slice_subrange(s, 0, i);
            let b = slice_subrange(s, i + 1, s.len());
            assert(a@ == s@.take(i as int));
            assert(b@ == s@.skip(i + 1));
            Some((a, b))
        },
        None => None,
    }
}

/// Appends a text to a run of characters.
pub fn push_str(out: &mut Vec<char>, s: &str)
    ensures
        final(out)@ == old(out)@ + s@,
{
    let mut cs = chars_of(s);
    out.append(&mut cs);
}

/// Appends a run of characters to another.
pub fn push_all(out: &mut Vec<char>, s: &[char])
    ensures
        final(out)@ == old(out)@ + s@,
{
    let mut cs = to_chars(s);
    out.append(&mut cs);
}

/// A text of its own.
pub fn own(s: &str) -> (r: String)
    ensures
        r@ == s@,
{
    string_of(chars_of(s).as_slice())
}

/// One text behind another.
pub fn joined(a: &str, b: &str) -> (r: String)
    ensures
        r@ == a@ + b@,
{
    let mut out = chars_of(a);
    push_str(&mut out, b);
    string_of(out.as_slice())
}

/// A hexadecimal digit.
pub open spec fn hex_char(d: nat, upper: bool) -> char {
    if d < 10 {
        (d + '0' as nat) as char
    } else if upper {
        (d - 10 + 'A' as nat) as char
    } else {
        (d - 10 + 'a' as nat) as char
    }
}

/// Bytes as two hexadecimal digits each.
pub open spec fn hex_of(bytes: Seq<u8>, upper: bool) -> Seq<char>
    decreases bytes.len(),
{
    if bytes.len() == 0 {
        seq![]
    } else {
        hex_of(bytes.drop_last(), upper).push(hex_char((bytes.last() / 16) as nat, upper)).push(
            hex_char((bytes.last() % 16) as nat, upper),
        )
    }
}

fn hex_digit(d: u8, upper: bool) -> (r: char)
    requires
        d < 16,
    ensures
        r == hex_char(d as nat, upper),
{
    if d < 10 {
        (48 + d) as char
    } else if upper {
        (55 + d) as char
    } else {
        (87 + d) as char
    }
}

/// Bytes as two hexadecimal digits each.
pub fn hex_chars(bytes: &[u8], upper: bool) -> (r: Vec<char>)
    ensures
        r@ == hex_of(bytes@, upper),
{
    let mut out: Vec<char> = Vec::new();
    let mut i: usize = 0;
    while i < bytes.len()
        invariant
            i <= bytes@.len(),
            bytes.len() == bytes@.len(),
            out@ == hex_of(bytes@.take(i as int), upper),
        decreases bytes@.len() - i,
    {
        let b: u8 = bytes[i];
        out.push(hex_digit(b / 16, upper));
        out.push(hex_digit(b % 16, upper));
        proof {
            let done = bytes@.take(i + 1);
            assert(done.drop_last() == bytes@.take(i as int));
            assert(done.last() == bytes@[i as int]);
        }
        i += 1;
    }
    assert(bytes@.take(i as int) == bytes@);
    out
}

/// A number in hexadecimal, in capitals and without leading zeros.
pub open spec fn hex_number(n: nat) -> Seq<char>
    decreases n,
{
    if n < 16 {
        seq![hex_char(n, true)]
    } else {
        hex_number(n / 16).push(hex_char(n % 16, true))
    }
}

pub fn hex_number_chars(n: u64) -> (r: Vec<char>)
    ensures
        r@ == hex_number(n as nat),
    decreases n,
{
    if n < 16 {
        let mut out: Vec<char> = Vec::new();
        out.push(hex_digit(n as u8, true));
        out
    } else {
        let mut out = hex_number_chars(n / 16);
        out.push(hex_digit((n % 16) as u8, true));
        out
    }
}

/// The number with a sign that a text spells out in decimal, if it lies within
/// 32 bits.
pub open spec fn parse_signed(s: Seq<char>) -> Option<int> {
    if s.len() > 0 && s[0] == '-' {
        let d = s.drop_first();
        if d.len() > 0 && all_digits(d) && digits_value(d) <= 0x8000_0000 {
            Some(-(digits_value(d) as int))
        } else {
            None
        }
    } else {
        match parse_dec(s, i32::MAX as nat) {
            Some(n) => Some(n as int),
            None => None,
        }
    }
}

pub fn parse_i32(s: &[char]) -> (r: Option<i32>)
    ensures
        match r {
            Some(v) => parse_signed(s@) == Some(v as int),
            None => parse_signed(s@) is None,
        },
{
    let n: usize = s.len();
    if n > 0 && s[0] == '-' {
        let d = slice_subrange(s, 1, n);
        assert(d@ == s@.drop_first());
        if d.len() == 0 {
            return None;
        }
        return match digits_up_to(d, 0x8000_0000) {
            Some(v) => if v == 0x8000_0000 {
                Some(i32::MIN)
            } else {
                Some(-(v as i32))
            },
            None => None,
        };
    }
    match parse_up_to(s, i32::MAX as u64) {
        Some(v) => Some(v as i32),
        None => None,
    }
}

/// A number with a sign in decimal.
pub open spec fn signed_decimal(n: int) -> Seq<char> {
    if n < 0 {
        "-"@ + decimal((-n) as nat)
    } else {
        decimal(n as nat)
    }
}

pub fn signed_decimal_chars(n: i32) -> (r: Vec<char>)
    ensures
        r@ == signed_decimal(n as int),
{
    if n < 0 {
        let mut out = chars_of("-");
        push_all(&mut out, decimal_chars((-(n as i64)) as u64).as_slice());
        out
    } else {
        decimal_chars(n as u64)
    }
}

/// Reading back a number with a sign that was written in decimal.
pub proof fn lemma_signed_decimal_parses(n: int)
    requires
        i32::MIN <= n <= i32::MAX,
    ensures
        parse_signed(signed_decimal(n)) == Some(n),
{
    reveal_strlit("-");
    if n < 0 {
        let m = (-n) as nat;
        lemma_decimal(m);
        assert(signed_decimal(n).drop_first() == decimal(m));
    } else {
        lemma_decimal(n as nat);
        lemma_decimal_parses(n as nat, i32::MAX as nat);
        assert(is_digit(decimal(n as nat)[0]));
    }
}

/// A text without the occurrences of another, from the first one on.
pub open spec fn without(s: Seq<char>, p: Seq<char>) -> Seq<char>
    decreases s.len(),
{
    match find_text(s, p) {
        Some(i) => if 0 <= i && i + p.len() <= s.len() && p.len() > 0 {
            s.take(i) + without(s.skip(i + p.len()), p)
        } else {
            s
        },
        None => s,
    }
}

/// A text without the occurrences of another.
pub fn remove_all(s: &[char], p: &[char]) -> (r: Vec<char>)
    requires
        p@.len() > 0,
    ensures
        r@ == without(s@, p@),
{
    let n: usize = s.len();
    let mut out: Vec<char> = Vec::new();
    let mut i: usize = 0;
    assert(s@.skip(0) == s@);
    while i < n
        invariant
            i <= n,
            n == s@.len(),
            n == s.len(),
            p@.len() > 0,
            without(s@, p@) == out@ + without(s@.skip(i as int), p@),
        decreases n - i,
    {
        let rest = slice_subrange(s, i, n);
        assert(rest@ == s@.skip(i as int));
        match find_chars(rest, p) {
            Some(k) => {
                let ghost before = out@;
                push_all(&mut out, slice_subrange(rest, 0, k));
                proof {
                    assert(rest@.subrange(0, k as int) == rest@.take(k as int));
                    assert(rest@.skip(k + p@.len()) == s@.skip(i + k + p@.len()));
                    assert(out@ + without(rest@.skip(k + p@.len()), p@) == before + (rest@.take(
                        k as int,
                    ) + without(rest@.skip(k + p@.len()), p@)));
                }
                i = i + k + p.len();
            },
            None => {
                push_all(&mut out, rest);
                return out;
            },
        }
    }
    proof {
        assert(s@.skip(i as int) == Seq::<char>::empty());
        lemma_without_empty(p@);
        assert(out@ + Seq::<char>::empty() == out@);
    }
    out
}

proof fn lemma_without_empty(p: Seq<char>)
    ensures
        without(Seq::<char>::empty(), p) == Seq::<char>::empty(),
{
}

} // verus!

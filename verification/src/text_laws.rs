//! What the scanning vocabulary promises of every text.

use crate::text::{
    ascii_lower_of, contains_text, decimal, digit_char, find_text, first_at, hex_char, hex_number,
    hex_of, is_digit, is_space, lemma_decimal, lemma_find_text, lemma_signed_decimal_parses,
    lemma_trim_end, lemma_trim_start, lemma_trim_start_is, lemma_word_run_is, lines_of, occurs_at,
    parse_dec, parse_signed, signed_decimal, split_of, split_once_of, strip_cr, trim_end_of,
    trim_of, trim_start_of, without, words_of,
};
use vstd::prelude::*;

verus! {

/// A text of white space alone.
pub open spec fn blank(s: Seq<char>) -> bool {
    forall|i: int| 0 <= i < s.len() ==> is_space(#[trigger] s[i])
}

/// A text that neither begins nor ends with white space.
pub open spec fn tight(s: Seq<char>) -> bool {
    s.len() > 0 ==> !is_space(s[0]) && !is_space(s[s.len() - 1])
}

/// Blanks, tabs and line ends are white space; letters, digits and the other
/// visible characters of ASCII are not.
pub proof fn law_white_space(c: char)
    ensures
        c == ' ' || c == '\t' || c == '\n' || c == '\r' || c == '\u{3000}' ==> is_space(c),
        '!' <= c <= '~' ==> !is_space(c),
{
}

proof fn lemma_trim_end_is(s: Seq<char>, k: int)
    requires
        0 <= k <= s.len(),
        forall|i: int| k <= i < s.len() ==> is_space(#[trigger] s[i]),
        k > 0 ==> !is_space(s[k - 1]),
    ensures
        trim_end_of(s) == s.take(k),
    decreases s.len() - k,
{
    if k < s.len() {
        assert(is_space(s[s.len() - 1]));
        let t = s.drop_last();
        assert forall|i: int| k <= i < t.len() implies is_space(#[trigger] t[i]) by {
            assert(t[i] == s[i]);
        }
        lemma_trim_end_is(t, k);
        assert(t.take(k) == s.take(k));
    } else {
        assert(s.take(k) == s);
    }
}

/// Trimming takes the white space around a text away and nothing else.
pub proof fn law_trim(a: Seq<char>, s: Seq<char>, b: Seq<char>)
    requires
        blank(a),
        tight(s),
        blank(b),
    ensures
        trim_of(a + s + b) == s,
        s.len() > 0 ==> trim_start_of(a + s + b) == s + b,
        s.len() > 0 ==> trim_end_of(a + s + b) == a + s,
{
    let t = a + s + b;
    if s.len() == 0 {
        assert forall|i: int| 0 <= i < t.len() implies is_space(#[trigger] t[i]) by {
            if i < a.len() {
                assert(is_space(a[i]));
            } else {
                assert(is_space(b[i - a.len()]));
            }
        }
        lemma_trim_start_is(t, t.len() as int);
        assert(trim_start_of(t) == Seq::<char>::empty());
        assert(trim_of(t) =~= s);
    } else {
        let n = a.len() as int;
        assert forall|i: int| 0 <= i < n implies is_space(#[trigger] t[i]) by {
            assert(is_space(a[i]));
        }
        assert(t[n] == s[0]);
        lemma_trim_start_is(t, n);
        let u = s + b;
        assert(t.skip(n) == u);
        let m = s.len() as int;
        assert forall|i: int| m <= i < u.len() implies is_space(#[trigger] u[i]) by {
            assert(is_space(b[i - m]));
        }
        assert(u[m - 1] == s[m - 1]);
        lemma_trim_end_is(u, m);
        assert(u.take(m) == s);
        assert forall|i: int| n + m <= i < t.len() implies is_space(#[trigger] t[i]) by {
            assert(is_space(b[i - n - m]));
        }
        assert(t[n + m - 1] == s[m - 1]);
        lemma_trim_end_is(t, n + m);
        assert(t.take(n + m) == a + s);
    }
}

/// Nothing is left of a text when it is trimmed exactly where it is white space
/// alone.
pub proof fn law_trim_empties_blanks(s: Seq<char>)
    ensures
        trim_of(s).len() == 0 <==> blank(s),
{
    let e = Seq::<char>::empty();
    if blank(s) {
        law_trim(s, e, e);
        assert(s + e + e =~= s);
    } else if trim_of(s).len() == 0 {
        let t = trim_start_of(s);
        lemma_trim_start(s);
        lemma_trim_end(t);
        if t.len() > 0 {
            assert(is_space(t[0]));
        }
    }
}

proof fn lemma_first(a: Seq<char>, c: char, b: Seq<char>)
    requires
        !a.contains(c),
    ensures
        (a + seq![c] + b).index_of_first(c) == Some(a.len() as int),
        (a + seq![c] + b).take(a.len() as int) == a,
        (a + seq![c] + b).skip(a.len() as int + 1) == b,
{
    let t = a + seq![c] + b;
    assert(t[a.len() as int] == c);
    assert(t.contains(c));
    t.index_of_first_ensures(c);
    let k = t.index_of_first(c)->0;
    if k < a.len() {
        assert(a[k] == c);
        assert(a.contains(c));
    }
    assert(k == a.len());
    assert(t.take(a.len() as int) == a);
    assert(t.skip(a.len() as int + 1) == b);
}

proof fn lemma_none(a: Seq<char>, c: char)
    requires
        !a.contains(c),
    ensures
        a.index_of_first(c) is None,
{
    a.index_of_first_ensures(c);
}

/// A text is cut in two at its first separator, and not at all without one.
pub proof fn law_split_once(a: Seq<char>, c: char, b: Seq<char>)
    requires
        !a.contains(c),
    ensures
        split_once_of(a + seq![c] + b, c) == Some((a, b)),
        split_once_of(a, c) is None,
{
    lemma_first(a, c, b);
    lemma_none(a, c);
}

/// A text is cut at every separator: the first piece ends before the first one,
/// and the others are those of the rest.
pub proof fn law_split(a: Seq<char>, c: char, b: Seq<char>)
    requires
        !a.contains(c),
    ensures
        split_of(a, c) == seq![a],
        split_of(a + seq![c] + b, c) == seq![a] + split_of(b, c),
{
    lemma_first(a, c, b);
    lemma_none(a, c);
}

/// A line feed ends a line, with or without a carriage return before it, and what
/// stands behind the last one is a line of its own where it is not empty.
pub proof fn law_lines(a: Seq<char>, b: Seq<char>)
    requires
        !a.contains('\n'),
        a.len() > 0 ==> a[a.len() - 1] != '\r',
    ensures
        lines_of(Seq::empty()) == Seq::<Seq<char>>::empty(),
        a.len() > 0 ==> lines_of(a) == seq![a],
        lines_of(a + seq!['\n'] + b) == seq![a] + lines_of(b),
        lines_of(a + seq!['\r'] + seq!['\n'] + b) == seq![a] + lines_of(b),
{
    lemma_first(a, '\n', b);
    lemma_none(a, '\n');
    let r = a + seq!['\r'];
    assert(!r.contains('\n')) by {
        if r.contains('\n') {
            let k = choose|k: int| 0 <= k < r.len() && r[k] == '\n';
            assert(k < a.len());
            assert(a[k] == '\n');
            assert(a.contains('\n'));
        }
    }
    lemma_first(r, '\n', b);
    assert(r.drop_last() == a);
    assert(strip_cr(r) == a);
    assert(strip_cr(a) == a);
    let none = Seq::<char>::empty();
    lemma_none(none, '\n');
}

/// The words of a text are the runs between its white space, in order.
pub proof fn law_words(a: Seq<char>, w: Seq<char>, c: char, b: Seq<char>)
    requires
        blank(a),
        w.len() > 0,
        forall|i: int| 0 <= i < w.len() ==> !is_space(#[trigger] w[i]),
        is_space(c),
    ensures
        words_of(a) == Seq::<Seq<char>>::empty(),
        words_of(a + w) == seq![w],
        words_of(a + w + seq![c] + b) == seq![w] + words_of(b),
{
    lemma_trim_start_is(a, a.len() as int);
    assert(trim_start_of(a) == Seq::<char>::empty());
    let t = a + w;
    let n = a.len() as int;
    let m = w.len() as int;
    assert forall|i: int| 0 <= i < n implies is_space(#[trigger] t[i]) by {
        assert(is_space(a[i]));
    }
    assert(t[n] == w[0]);
    lemma_trim_start_is(t, n);
    assert(t.skip(n) == w);
    lemma_word_run_is(w, w.len());
    assert(w.take(m) == w);
    assert(w.skip(m) == Seq::<char>::empty());
    let none = Seq::<char>::empty();
    lemma_trim_start_is(none, 0);
    assert(words_of(none) == Seq::<Seq<char>>::empty());
    assert(words_of(t) =~= seq![w]);
    let u = a + w + seq![c] + b;
    assert forall|i: int| 0 <= i < n implies is_space(#[trigger] u[i]) by {
        assert(is_space(a[i]));
    }
    assert(u[n] == w[0]);
    lemma_trim_start_is(u, n);
    let v = w + seq![c] + b;
    assert(u.skip(n) == v);
    assert forall|i: int| 0 <= i < m implies !is_space(#[trigger] v[i]) by {
        assert(v[i] == w[i]);
    }
    assert(v[m] == c);
    lemma_word_run_is(v, w.len());
    assert(v.take(m) == w);
    let x = v.skip(m);
    assert(x == seq![c] + b);
    assert(x[0] == c);
    assert(x.drop_first() == b);
    assert(trim_start_of(x) == trim_start_of(b));
    lemma_words_behind_space(x, b);
}

proof fn lemma_words_behind_space(x: Seq<char>, b: Seq<char>)
    requires
        trim_start_of(x) == trim_start_of(b),
        b.len() <= x.len(),
    ensures
        words_of(x) == words_of(b),
{
    lemma_trim_start(b);
    lemma_trim_start(x);
}

/// A number is read from its digits, with or without a plus sign and zeros in
/// front, where it fits; and nothing else is a number.
pub proof fn law_number(n: nat, z: Seq<char>, max: nat)
    requires
        forall|i: int| 0 <= i < z.len() ==> #[trigger] z[i] == '0',
    ensures
        parse_dec(decimal(n), max) == (if n <= max {
            Some(n)
        } else {
            None
        }),
        parse_dec(z + decimal(n), max) == parse_dec(decimal(n), max),
        parse_dec(seq!['+'] + z + decimal(n), max) == parse_dec(decimal(n), max),
{
    let d = decimal(n);
    lemma_decimal(n);
    crate::text::lemma_zeros_in_front(z, d);
    assert(is_digit(d[0]));
    let s = z + d;
    assert(is_digit(s[0]));
    let p = seq!['+'] + z + d;
    assert(p[0] == '+');
    assert(p.drop_first() == s);
}

/// A text with a character that is no digit is no number, a plus sign in front
/// aside; nor is an empty one.
pub proof fn law_not_a_number(s: Seq<char>, i: int, max: nat)
    requires
        0 <= i < s.len(),
        !is_digit(s[i]),
        i > 0 || s[0] != '+',
    ensures
        parse_dec(s, max) is None,
        parse_dec(Seq::empty(), max) is None,
{
    if s[0] == '+' {
        let d = s.drop_first();
        assert(d[i - 1] == s[i]);
    }
}

/// The last digit of a number is its remainder by ten and the others are its
/// tenth part, each digit between `0` and `9`.
pub proof fn law_decimal(n: nat)
    ensures
        n < 10 ==> decimal(n).len() == 1,
        n >= 10 ==> decimal(n).drop_last() == decimal(n / 10),
        decimal(n).len() > 0,
        decimal(n)[decimal(n).len() - 1] == "0123456789"@[(n % 10) as int],
{
    reveal_strlit("0123456789");
    lemma_decimal(n);
    if n >= 10 {
        assert(decimal(n).drop_last() == decimal(n / 10));
    }
    assert(decimal(n).last() == digit_char(n % 10));
}

/// A byte is written as two hexadecimal digits, the higher one first.
pub proof fn law_hex(bytes: Seq<u8>, upper: bool, i: int)
    requires
        0 <= i < bytes.len(),
    ensures
        hex_of(bytes, upper).len() == 2 * bytes.len(),
        hex_of(bytes, true)[2 * i] == "0123456789ABCDEF"@[bytes[i] as int / 16],
        hex_of(bytes, true)[2 * i + 1] == "0123456789ABCDEF"@[bytes[i] as int % 16],
        hex_of(bytes, false)[2 * i] == "0123456789abcdef"@[bytes[i] as int / 16],
        hex_of(bytes, false)[2 * i + 1] == "0123456789abcdef"@[bytes[i] as int % 16],
    decreases bytes.len(),
{
    reveal_strlit("0123456789ABCDEF");
    reveal_strlit("0123456789abcdef");
    lemma_hex_len(bytes, upper);
    lemma_hex_len(bytes.drop_last(), true);
    lemma_hex_len(bytes.drop_last(), false);
    lemma_hex_len(bytes, true);
    lemma_hex_len(bytes, false);
    let b = bytes[i];
    assert(b / 16 < 16 && b % 16 < 16);
    if i < bytes.len() - 1 {
        law_hex(bytes.drop_last(), upper, i);
        assert(bytes.drop_last()[i] == b);
    } else {
        lemma_hex_char((b / 16) as nat);
        lemma_hex_char((b % 16) as nat);
    }
}

proof fn lemma_hex_char(d: nat)
    requires
        d < 16,
    ensures
        hex_char(d, true) == "0123456789ABCDEF"@[d as int],
        hex_char(d, false) == "0123456789abcdef"@[d as int],
{
    reveal_strlit("0123456789ABCDEF");
    reveal_strlit("0123456789abcdef");
}

proof fn lemma_hex_len(bytes: Seq<u8>, upper: bool)
    ensures
        hex_of(bytes, upper).len() == 2 * bytes.len(),
    decreases bytes.len(),
{
    if bytes.len() > 0 {
        lemma_hex_len(bytes.drop_last(), upper);
    }
}

/// The last hexadecimal digit of a number is its remainder by sixteen and the
/// others are its sixteenth part.
pub proof fn law_hex_number(n: nat)
    ensures
        n < 16 ==> hex_number(n).len() == 1,
        n >= 16 ==> hex_number(n).drop_last() == hex_number(n / 16),
        hex_number(n).len() > 0,
        hex_number(n)[hex_number(n).len() - 1] == "0123456789ABCDEF"@[(n % 16) as int],
{
    lemma_hex_char(n % 16);
    if n >= 16 {
        assert(hex_number(n).drop_last() == hex_number(n / 16));
    }
    assert(hex_number(n).last() == hex_char(n % 16, true));
}

/// In lower case each letter of ASCII is the small one of its kind, and every
/// other character stays.
pub proof fn law_lower(s: Seq<char>, i: int)
    requires
        0 <= i < s.len(),
    ensures
        ascii_lower_of(s).len() == s.len(),
        'A' <= s[i] <= 'Z' ==> ascii_lower_of(s)[i] as int - 'a' as int == s[i] as int - 'A' as int,
        !('A' <= s[i] <= 'Z') ==> ascii_lower_of(s)[i] == s[i],
        ascii_lower_of(ascii_lower_of(s)) == ascii_lower_of(s),
{
    assert(ascii_lower_of(ascii_lower_of(s)) =~= ascii_lower_of(s));
}

/// Every occurrence of a text is taken out of another, from the first one on, and nothing
/// else is.
pub proof fn law_without(a: Seq<char>, p: Seq<char>, b: Seq<char>)
    requires
        p.len() > 0,
    ensures
        !contains_text(a, p) ==> without(a, p) == a,
        first_at(a + p + b, p, a.len() as int) ==> without(a + p + b, p) == a + without(b, p),
{
    let t = a + p + b;
    if first_at(t, p, a.len() as int) {
        lemma_find_text(t, p, a.len() as int);
        assert(t.take(a.len() as int) =~= a);
        assert(t.skip(a.len() as int + p.len()) =~= b);
    }
}

/// A text is found at its first place.
pub proof fn law_found(s: Seq<char>, p: Seq<char>, i: int)
    ensures
        first_at(s, p, i) ==> find_text(s, p) == Some(i),
        find_text(s, p) is Some <==> contains_text(s, p),
        occurs_at(s, p, i) <==> 0 <= i && i + p.len() <= s.len() && forall|k: int|
            0 <= k < p.len() ==> #[trigger] p[k] == s[i + k],
{
    if first_at(s, p, i) {
        lemma_find_text(s, p, i);
    }
    if occurs_at(s, p, i) {
        assert forall|k: int| 0 <= k < p.len() implies #[trigger] p[k] == s[i + k] by {
            assert(s.subrange(i, i + p.len())[k] == s[i + k]);
        }
    }
    if 0 <= i && i + p.len() <= s.len() && (forall|k: int|
        0 <= k < p.len() ==> #[trigger] p[k] == s[i + k]) {
        assert(s.subrange(i, i + p.len()) =~= p);
    }
}

/// A number with a sign is read back from its text.
pub proof fn law_signed_number(n: int)
    ensures
        i32::MIN <= n <= i32::MAX ==> parse_signed(signed_decimal(n)) == Some(n),
        n >= 0 ==> signed_decimal(n) == decimal(n as nat),
        n < 0 ==> signed_decimal(n) == seq!['-'] + decimal((-n) as nat),
        n > i32::MAX ==> parse_signed(signed_decimal(n)) is None,
        n < i32::MIN ==> parse_signed(signed_decimal(n)) is None,
{
    reveal_strlit("-");
    assert("-"@ =~= seq!['-']);
    if i32::MIN <= n <= i32::MAX {
        lemma_signed_decimal_parses(n);
    } else if n > i32::MAX {
        lemma_decimal(n as nat);
        law_number(n as nat, Seq::empty(), i32::MAX as nat);
        assert(is_digit(decimal(n as nat)[0]));
    } else {
        lemma_decimal((-n) as nat);
        assert(signed_decimal(n).drop_first() =~= decimal((-n) as nat));
    }
}

} // verus!

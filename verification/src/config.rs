//! The player's own preferences, kept in a small text beside the launcher.

use vstd::prelude::*;
use vstd::slice::slice_subrange;
use crate::text::{
    chars_of, decimal_chars, eq_str, find_char, lines, parse_u8, push_all, push_str, split_once, string_of,
    trim,
};
#[allow(unused_imports)]
use crate::text::{
    decimal, is_space, lemma_decimal, lemma_decimal_parses, lemma_trim_fixed, lines_of, parse_dec,
    rows, split_once_of, strip_cr, trim_of,
};
#[allow(unused_imports)]
use crate::text_laws::{blank, law_number, law_not_a_number, law_split_once, law_trim, tight};

verus! {

/// The name of the file with the preferences.
pub const CONFIG_FILE: &'static str = "launcher.ini";

/// What a player prefers: a window or the full screen, and the window's size
/// (4 for 400x300, 5 for 800x600, 6 for 1200x900, 7 for 1600x1200).
#[derive(Debug, Clone, Copy, PartialEq, Eq, Structural)]
pub struct UserPrefs {
    pub windowed: bool,
    pub window_mode: u8,
}

/// A window of 800x600.
pub open spec fn default_prefs() -> UserPrefs {
    UserPrefs { windowed: true, window_mode: 5 }
}

impl Default for UserPrefs {
    fn default() -> (r: UserPrefs)
        ensures
            r == default_prefs(),
    {
        UserPrefs { windowed: true, window_mode: 5 }
    }
}

/// The preferences after one more setting. A size that is none of the four is
/// passed over.
pub open spec fn prefs_with(p: UserPrefs, key: Seq<char>, value: Seq<char>) -> UserPrefs {
    if key == "windowed"@ {
        UserPrefs { windowed: value == "true"@ || value == "1"@ || value == "yes"@, ..p }
    } else if key == "window_mode"@ {
        match parse_dec(value, u8::MAX as nat) {
            Some(n) => if 4 <= n <= 7 {
                UserPrefs { window_mode: n as u8, ..p }
            } else {
                p
            },
            None => p,
        }
    } else {
        p
    }
}

/// A value without the comment behind it.
pub open spec fn without_comment(value: Seq<char>) -> Seq<char> {
    match value.index_of_first(';') {
        Some(i) => value.take(i),
        None => value,
    }
}

/// The preferences after one more line.
pub open spec fn prefs_after(p: UserPrefs, line: Seq<char>) -> UserPrefs {
    let t = trim_of(line);
    if t.len() == 0 || t[0] == ';' || t[0] == '[' {
        p
    } else {
        match split_once_of(t, '=') {
            None => p,
            Some(kv) => prefs_with(p, trim_of(kv.0), trim_of(without_comment(kv.1))),
        }
    }
}

/// The preferences after some lines.
pub open spec fn prefs_of(lines: Seq<Seq<char>>) -> UserPrefs
    decreases lines.len(),
{
    if lines.len() == 0 {
        default_prefs()
    } else {
        prefs_after(prefs_of(lines.drop_last()), lines.last())
    }
}

/// The text of some preferences.
pub open spec fn prefs_text(p: UserPrefs) -> Seq<char> {
    "[Settings]\nwindowed="@ + (if p.windowed {
        "true"@
    } else {
        "false"@
    }) + "\nwindow_mode="@ + decimal(p.window_mode as nat) + "\n"@
}

fn take_line(p: UserPrefs, line: &[char]) -> (r: UserPrefs)
    ensures
        r == prefs_after(p, line@),
{
    let t = trim(line);
    if t.len() == 0 || t[0] == ';' || t[0] == '[' {
        return p;
    }
    match split_once(t, '=') {
        None => p,
        Some(kv) => {
            let key = trim(kv.0);
            let value = match find_char(kv.1, ';') {
                Some(i) => {
                    let v = slice_subrange(kv.1, 0, i);
                    assert(v@ == kv.1@.take(i as int));
                    trim(v)
                },
                None => trim(kv.1),
            };
            assert(value@ == trim_of(without_comment(kv.1@)));
            if eq_str(key, "windowed") {
                let on: bool = eq_str(value, "true") || eq_str(value, "1") || eq_str(value, "yes");
                return UserPrefs { windowed: on, ..p };
            }
            if eq_str(key, "window_mode") {
                return match parse_u8(value) {
                    Some(n) => if 4 <= n && n <= 7 {
                        UserPrefs { window_mode: n, ..p }
                    } else {
                        p
                    },
                    None => p,
                };
            }
            p
        },
    }
}

impl UserPrefs {
    /// The preferences of a text, the default ones where there is none.
    pub fn load(content: Option<&str>) -> (r: UserPrefs)
        ensures
            r == (match content {
                Some(s) => prefs_of(lines_of(s@)),
                None => default_prefs(),
            }),
    {
        match content {
            None => UserPrefs::default(),
            Some(s) => {
                let text = lines(chars_of(s).as_slice());
                let mut p: UserPrefs = UserPrefs::default();
                let mut i: usize = 0;
                assert(rows(text@).take(0) == Seq::<Seq<char>>::empty());
                while i < text.len()
                    invariant
                        i <= text@.len(),
                        p == prefs_of(rows(text@).take(i as int)),
                    decreases text@.len() - i,
                {
                    proof {
                        let done = rows(text@).take(i + 1);
                        assert(done.drop_last() == rows(text@).take(i as int));
                        assert(done.last() == text@[i as int]@);
                    }
                    p = take_line(p, text[i].as_slice());
                    i += 1;
                }
                assert(rows(text@).take(i as int) == rows(text@));
                p
            },
        }
    }

    /// The text that keeps the preferences.
    pub fn save(&self) -> (r: String)
        ensures
            r@ == prefs_text(*self),
    {
        let mut out = chars_of("[Settings]\nwindowed=");
        push_str(
            &mut out,
            if self.windowed {
                "true"
            } else {
                "false"
            },
        );
        push_str(&mut out, "\nwindow_mode=");
        push_all(&mut out, decimal_chars(self.window_mode as u64).as_slice());
        push_str(&mut out, "\n");
        string_of(out.as_slice())
    }
}

proof fn lemma_first_line(line: Seq<char>, rest: Seq<char>)
    requires
        !line.contains('\n'),
        line.len() > 0 ==> line.last() != '\r',
    ensures
        lines_of(line + seq!['\n'] + rest) == seq![line] + lines_of(rest),
{
    let t = line + seq!['\n'] + rest;
    assert(t[line.len() as int] == '\n');
    assert forall|i: int| 0 <= i < line.len() implies t[i] != '\n' by {
        assert(t[i] == line[i]);
        assert(line.contains(line[i]));
    }
    t.index_of_first_ensures('\n');
    assert(t.contains('\n'));
    let k = t.index_of_first('\n')->0;
    assert(k == line.len());
    assert(t.take(k) == line);
    assert(t.skip(k + 1) == rest);
    assert(strip_cr(line) == line);
}

proof fn lemma_setting(p: UserPrefs, key: Seq<char>, value: Seq<char>)
    requires
        key.len() > 0,
        value.len() > 0,
        key[0] != ';' && key[0] != '[',
        forall|i: int| 0 <= i < key.len() ==> !is_space(#[trigger] key[i]) && key[i] != '=',
        forall|i: int| 0 <= i < value.len() ==> !is_space(#[trigger] value[i]) && value[i] != ';',
    ensures
        prefs_after(p, key + seq!['='] + value) == prefs_with(p, key, value),
{
    let line = key + seq!['='] + value;
    let n = key.len() as int;
    assert(line[n] == '=');
    assert forall|i: int| 0 <= i < n implies line[i] == key[i] by {}
    assert(line.last() == value.last());
    assert(!is_space(key[0]) && !is_space(key[n - 1]));
    assert(!is_space(value[0]) && !is_space(value[value.len() - 1]));
    assert(line[0] == key[0]);
    lemma_trim_fixed(line);
    line.index_of_first_ensures('=');
    assert(line.contains('='));
    let k = line.index_of_first('=')->0;
    assert(k == n) by {
        if k < n {
            assert(key[k] == '=');
        }
    }
    assert(line.take(n) == key);
    assert(line.skip(n + 1) == value);
    lemma_trim_fixed(key);
    lemma_trim_fixed(value);
    value.index_of_first_ensures(';');
}

/// What stands behind a semicolon in a setting never counts.
pub proof fn law_comments_are_passed_over(
    p: UserPrefs,
    key: Seq<char>,
    value: Seq<char>,
    comment: Seq<char>,
)
    requires
        key.len() > 0,
        value.len() > 0,
        key[0] != ';' && key[0] != '[',
        forall|i: int| 0 <= i < key.len() ==> !is_space(#[trigger] key[i]) && key[i] != '=',
        forall|i: int| 0 <= i < value.len() ==> (#[trigger] value[i]) != ';',
        comment.len() > 0 ==> !is_space(comment.last()),
    ensures
        prefs_after(p, key + seq!['='] + value + seq![';'] + comment) == prefs_with(
            p,
            key,
            trim_of(value),
        ),
{
    let line = key + seq!['='] + value + seq![';'] + comment;
    let n = key.len() as int;
    assert(line[n] == '=');
    assert forall|i: int| 0 <= i < n implies line[i] == key[i] by {}
    assert(!is_space(key[0]) && !is_space(key[n - 1]));
    assert(line[0] == key[0]);
    assert(!is_space(line.last()));
    lemma_trim_fixed(line);
    line.index_of_first_ensures('=');
    assert(line.contains('='));
    let k = line.index_of_first('=')->0;
    assert(k == n) by {
        if k < n {
            assert(key[k] == '=');
        }
    }
    assert(line.take(n) == key);
    let rest = value + seq![';'] + comment;
    assert(line.skip(n + 1) == rest);
    assert(rest[value.len() as int] == ';');
    rest.index_of_first_ensures(';');
    assert(rest.contains(';'));
    let c = rest.index_of_first(';')->0;
    assert(c == value.len()) by {
        if c < value.len() {
            assert(value[c] == ';');
        }
    }
    assert(rest.take(c) == value);
    lemma_trim_fixed(key);
}

proof fn lemma_one_more(a: Seq<Seq<char>>, x: Seq<char>)
    ensures
        prefs_of(a.push(x)) == prefs_after(prefs_of(a), x),
{
    assert(a.push(x).drop_last() == a);
    assert(a.push(x).last() == x);
}

/// Preferences that were saved are loaded as they were, where the size is one of
/// the four.
pub proof fn law_prefs_load_back(p: UserPrefs)
    requires
        4 <= p.window_mode <= 7,
    ensures
        prefs_of(lines_of(prefs_text(p))) == p,
{
    reveal_strlit("[Settings]\nwindowed=");
    reveal_strlit("[Settings]");
    reveal_strlit("windowed");
    reveal_strlit("window_mode");
    reveal_strlit("\nwindow_mode=");
    reveal_strlit("true");
    reveal_strlit("false");
    reveal_strlit("1");
    reveal_strlit("yes");
    reveal_strlit("\n");
    let h = "[Settings]"@;
    let on = if p.windowed {
        "true"@
    } else {
        "false"@
    };
    let d = decimal(p.window_mode as nat);
    lemma_decimal(p.window_mode as nat);
    lemma_decimal_parses(p.window_mode as nat, u8::MAX as nat);
    assert forall|i: int| 0 <= i < d.len() implies !is_space(#[trigger] d[i])
        && d[i] != '\n' && d[i] != ';' by {
        assert(crate::text::is_digit(d[i]));
    }
    assert(!is_space(d[d.len() - 1]));
    let x = "windowed"@ + seq!['='] + on;
    let y = "window_mode"@ + seq!['='] + d;
    let none = Seq::<char>::empty();
    assert(d[d.len() - 1] == d.last() && y.last() == d.last());
    assert(prefs_text(p) =~= h + seq!['\n'] + (x + seq!['\n'] + (y + seq!['\n'] + none)));
    assert(!y.contains('\n')) by {
        if y.contains('\n') {
            let k = choose|k: int| 0 <= k < y.len() && y[k] == '\n';
            if k >= 12 {
                assert(d[k - 12] == '\n');
            }
        }
    }
    lemma_first_line(h, x + seq!['\n'] + (y + seq!['\n'] + none));
    lemma_first_line(x, y + seq!['\n'] + none);
    lemma_first_line(y, none);
    let l0 = Seq::<Seq<char>>::empty();
    assert(lines_of(none) == l0);
    assert(lines_of(prefs_text(p)) =~= l0.push(h).push(x).push(y));
    lemma_one_more(l0, h);
    lemma_one_more(l0.push(h), x);
    lemma_one_more(l0.push(h).push(x), y);
    lemma_trim_fixed(h);
    assert(prefs_after(default_prefs(), h) == default_prefs());
    assert(prefs_of(l0.push(h)) == default_prefs());
    lemma_setting(default_prefs(), "windowed"@, on);
    let q = prefs_with(default_prefs(), "windowed"@, on);
    assert(on.len() == 5 ==> on != "true"@ && on != "1"@ && on != "yes"@);
    assert(q == (UserPrefs { windowed: p.windowed, window_mode: 5 }));
    lemma_setting(q, "window_mode"@, d);
    assert("window_mode"@.len() == 11 && "windowed"@.len() == 8);
}

/// A key, an equals sign and a value are the setting, whatever white space stands
/// around them.
proof fn lemma_padded_setting(
    p: UserPrefs,
    a: Seq<char>,
    key: Seq<char>,
    b: Seq<char>,
    c: Seq<char>,
    value: Seq<char>,
    d: Seq<char>,
)
    requires
        blank(a) && blank(b) && blank(c) && blank(d),
        tight(key) && tight(value),
        key.len() > 0,
        key[0] != ';' && key[0] != '[',
        !key.contains('='),
        value.len() > 0,
        !value.contains(';'),
    ensures
        prefs_after(p, a + key + b + seq!['='] + c + value + d) == prefs_with(p, key, value),
{
    let line = a + key + b + seq!['='] + c + value + d;
    let t = key + b + seq!['='] + c + value;
    assert(t[0] == key[0]);
    assert(t[t.len() - 1] == value[value.len() - 1]);
    assert(line =~= a + t + d);
    law_trim(a, t, d);
    let k = key + b;
    let v = c + value;
    assert(!k.contains('=')) by {
        if k.contains('=') {
            let i = choose|i: int| 0 <= i < k.len() && k[i] == '=';
            if i < key.len() {
                assert(key[i] == '=');
                assert(key.contains('='));
            } else {
                assert(is_space(b[i - key.len()]));
            }
        }
    }
    assert(t =~= k + seq!['='] + v);
    law_split_once(k, '=', v);
    let none = Seq::<char>::empty();
    law_trim(none, key, b);
    assert(none + key + b =~= k);
    law_trim(c, value, none);
    assert(c + value + none =~= v);
    assert(!v.contains(';')) by {
        if v.contains(';') {
            let i = choose|i: int| 0 <= i < v.len() && v[i] == ';';
            if i < c.len() {
                assert(is_space(c[i]));
            } else {
                assert(value[i - c.len()] == ';');
                assert(value.contains(';'));
            }
        }
    }
    v.index_of_first_ensures(';');
}

/// `windowed=true`, `windowed=1` and `windowed=yes` ask for a window, and any other
/// word, `false`, `0` and `no` among them, for the full screen; white space around
/// the key and the value does not count, and the size of the window stays.
pub proof fn law_windowed(
    p: UserPrefs,
    a: Seq<char>,
    b: Seq<char>,
    c: Seq<char>,
    d: Seq<char>,
    word: Seq<char>,
)
    requires
        blank(a) && blank(b) && blank(c) && blank(d),
        tight(word),
        word.len() > 0,
        !word.contains(';'),
    ensures
        ({
            let after = prefs_after(p, a + "windowed"@ + b + seq!['='] + c + word + d);
            &&& after.window_mode == p.window_mode
            &&& word == seq!['t', 'r', 'u', 'e'] ==> after.windowed
            &&& word == seq!['1'] ==> after.windowed
            &&& word == seq!['y', 'e', 's'] ==> after.windowed
            &&& word == seq!['f', 'a', 'l', 's', 'e'] ==> !after.windowed
            &&& word == seq!['0'] ==> !after.windowed
            &&& word == seq!['n', 'o'] ==> !after.windowed
            &&& after.windowed ==> word == seq!['t', 'r', 'u', 'e'] || word == seq!['1'] || word
                == seq!['y', 'e', 's']
        }),
{
    reveal_strlit("windowed");
    reveal_strlit("true");
    reveal_strlit("1");
    reveal_strlit("yes");
    assert("true"@ =~= seq!['t', 'r', 'u', 'e']);
    assert("1"@ =~= seq!['1']);
    assert("yes"@ =~= seq!['y', 'e', 's']);
    let f = seq!['f', 'a', 'l', 's', 'e'];
    assert(f.len() == 5 && f.len() != "true"@.len());
    assert(seq!['0'][0] != "1"@[0]);
    assert(seq!['n', 'o'].len() == 2);
    lemma_padded_setting(p, a, "windowed"@, b, c, word, d);
}

/// The six lines that a player writes for a window and for the full screen.
pub proof fn law_windowed_lines(p: UserPrefs)
    ensures
        prefs_after(p, "windowed=true"@) == (UserPrefs { windowed: true, ..p }),
        prefs_after(p, "windowed=1"@) == (UserPrefs { windowed: true, ..p }),
        prefs_after(p, "windowed=yes"@) == (UserPrefs { windowed: true, ..p }),
        prefs_after(p, "windowed=false"@) == (UserPrefs { windowed: false, ..p }),
        prefs_after(p, "windowed=0"@) == (UserPrefs { windowed: false, ..p }),
        prefs_after(p, "windowed=no"@) == (UserPrefs { windowed: false, ..p }),
{
    reveal_strlit("windowed");
    reveal_strlit("windowed=true");
    reveal_strlit("windowed=1");
    reveal_strlit("windowed=yes");
    reveal_strlit("windowed=false");
    reveal_strlit("windowed=0");
    reveal_strlit("windowed=no");
    let e = Seq::<char>::empty();
    let k = e + "windowed"@ + e + seq!['='] + e;
    law_windowed(p, e, e, e, e, seq!['t', 'r', 'u', 'e']);
    assert("windowed=true"@ =~= k + seq!['t', 'r', 'u', 'e'] + e);
    law_windowed(p, e, e, e, e, seq!['1']);
    assert("windowed=1"@ =~= k + seq!['1'] + e);
    law_windowed(p, e, e, e, e, seq!['y', 'e', 's']);
    assert("windowed=yes"@ =~= k + seq!['y', 'e', 's'] + e);
    law_windowed(p, e, e, e, e, seq!['f', 'a', 'l', 's', 'e']);
    assert("windowed=false"@ =~= k + seq!['f', 'a', 'l', 's', 'e'] + e);
    law_windowed(p, e, e, e, e, seq!['0']);
    assert("windowed=0"@ =~= k + seq!['0'] + e);
    law_windowed(p, e, e, e, e, seq!['n', 'o']);
    assert("windowed=no"@ =~= k + seq!['n', 'o'] + e);
}

/// `window_mode=` takes the sizes from 4 to 7; another number leaves everything as
/// it was, and none touches the choice of a window.
pub proof fn law_window_mode(
    p: UserPrefs,
    a: Seq<char>,
    b: Seq<char>,
    c: Seq<char>,
    d: Seq<char>,
    n: nat,
)
    requires
        blank(a) && blank(b) && blank(c) && blank(d),
    ensures
        ({
            let after = prefs_after(
                p,
                a + "window_mode"@ + b + seq!['='] + c + decimal(n) + d,
            );
            &&& after.windowed == p.windowed
            &&& 4 <= n <= 7 ==> after.window_mode == n
            &&& !(4 <= n <= 7) ==> after.window_mode == p.window_mode
        }),
{
    reveal_strlit("windowed");
    reveal_strlit("window_mode");
    assert("window_mode"@.len() == 11 && "windowed"@.len() == 8);
    let w = decimal(n);
    lemma_decimal(n);
    law_number(n, Seq::empty(), u8::MAX as nat);
    assert forall|i: int| 0 <= i < w.len() implies !is_space(#[trigger] w[i]) && w[i] != ';' by {
        assert(crate::text::is_digit(w[i]));
    }
    assert(!is_space(w[0]) && !is_space(w[w.len() - 1]));
    lemma_padded_setting(p, a, "window_mode"@, b, c, w, d);
}

/// A size that is no number leaves everything as it was.
pub proof fn law_window_mode_is_a_number(p: UserPrefs, value: Seq<char>, i: int)
    requires
        tight(value),
        !value.contains(';'),
        0 < i < value.len(),
        !crate::text::is_digit(value[i]),
    ensures
        prefs_after(p, "window_mode"@ + seq!['='] + value) == p,
{
    reveal_strlit("windowed");
    reveal_strlit("window_mode");
    assert("window_mode"@.len() == 11 && "windowed"@.len() == 8);
    let e = Seq::<char>::empty();
    law_not_a_number(value, i, u8::MAX as nat);
    lemma_padded_setting(p, e, "window_mode"@, e, e, value, e);
    assert("window_mode"@ + seq!['='] + value =~= e + "window_mode"@ + e + seq!['='] + e + value
        + e);
}

/// A line without an equals sign, one that begins with `;` or `[`, an empty one and
/// one with another key leave everything as it was.
pub proof fn law_other_lines_change_nothing(
    p: UserPrefs,
    a: Seq<char>,
    s: Seq<char>,
    b: Seq<char>,
    key: Seq<char>,
    value: Seq<char>,
)
    requires
        blank(a) && blank(b),
        tight(s),
        s.len() == 0 || s[0] == ';' || s[0] == '[' || !s.contains('='),
        tight(key) && tight(value),
        key.len() > 0,
        key[0] != ';' && key[0] != '[',
        !key.contains('='),
        value.len() > 0,
        !value.contains(';'),
        key != "windowed"@ && key != "window_mode"@,
    ensures
        prefs_after(p, a + s + b) == p,
        prefs_after(p, key + seq!['='] + value) == p,
{
    law_trim(a, s, b);
    if !s.contains('=') {
        s.index_of_first_ensures('=');
    }
    let e = Seq::<char>::empty();
    lemma_padded_setting(p, e, key, e, e, value, e);
    assert(key + seq!['='] + value =~= e + key + e + seq!['='] + e + value + e);
}

/// The lines count from the first to the last, over a window of 800x600.
pub proof fn law_lines_count_in_order(lines: Seq<Seq<char>>, line: Seq<char>)
    ensures
        prefs_of(Seq::empty()) == (UserPrefs { windowed: true, window_mode: 5 }),
        prefs_of(lines.push(line)) == prefs_after(prefs_of(lines), line),
{
    lemma_one_more(lines, line);
}

} // verus!

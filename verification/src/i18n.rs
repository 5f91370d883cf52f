//! The traditional characters of the launcher's windows in simplified form.

use std::borrow::Cow;
use vstd::prelude::*;
use crate::legacy_text::{
    set_text_encoding_mode, text_encoding_mode, ModeState, TextEncodingMode,
};
#[allow(unused_imports)]
use crate::legacy_text::numbered_mode;
use crate::text::{chars_of, eq_str, string_of};
use crate::unicode::{decode_utf16, encode_utf16};
#[allow(unused_imports)]
use crate::unicode::{lossy_utf16, utf16_of};

verus! {

/// The characters that are replaced, each with its simplified form.
pub open spec fn t2s() -> Seq<(char, char)> {
    seq![
        ('術', '术'), ('備', '备'), ('傷', '伤'), ('刪', '删'), ('動', '动'), ('啟', '启'),
        ('單', '单'), ('態', '态'), ('戲', '戏'), ('擊', '击'), ('數', '数'), ('斷', '断'),
        ('於', '于'), ('時', '时'), ('無', '无'), ('狀', '状'), ('級', '级'), ('經', '经'),
        ('裝', '装'), ('計', '计'), ('話', '话'), ('說', '说'), ('變', '变'), ('輔', '辅'),
        ('遊', '游'), ('鐘', '钟'), ('間', '间'), ('顯', '显'), ('驗', '验'),
    ]
}

/// The characters that are replaced, each with its simplified form.
pub fn t2s_entries() -> (r: Vec<(char, char)>)
    ensures
        r@ == t2s(),
{
    let r: Vec<(char, char)> = vec![
        ('術', '术'), ('備', '备'), ('傷', '伤'), ('刪', '删'), ('動', '动'), ('啟', '启'),
        ('單', '单'), ('態', '态'), ('戲', '戏'), ('擊', '击'), ('數', '数'), ('斷', '断'),
        ('於', '于'), ('時', '时'), ('無', '无'), ('狀', '状'), ('級', '级'), ('經', '经'),
        ('裝', '装'), ('計', '计'), ('話', '话'), ('說', '说'), ('變', '变'), ('輔', '辅'),
        ('遊', '游'), ('鐘', '钟'), ('間', '间'), ('顯', '显'), ('驗', '验'),
    ];
    assert(r@ == t2s());
    r
}

/// The character is the i-th that is replaced.
pub open spec fn replaced_at(c: char, i: int) -> bool {
    0 <= i < t2s().len() && t2s()[i].0 == c
}

/// The character is one that is replaced.
pub open spec fn is_replaced(c: char) -> bool {
    exists|i: int| replaced_at(c, i)
}

/// The simplified form of a character, or the character itself.
pub open spec fn simplified(c: char) -> char {
    if is_replaced(c) {
        t2s()[choose|i: int| replaced_at(c, i)].1
    } else {
        c
    }
}

/// No character is replaced by itself, and none is replaced in two ways.
pub proof fn law_table_is_sound()
    ensures
        forall|i: int| 0 <= i < t2s().len() ==> (#[trigger] t2s()[i]).0 != t2s()[i].1,
        forall|i: int, j: int|
            0 <= i < j < t2s().len() ==> (#[trigger] t2s()[i]).0 != (#[trigger] t2s()[j]).0,
{
}

/// A simplified form is not replaced again.
pub proof fn law_simplified_stays(c: char)
    ensures
        simplified(simplified(c)) == simplified(c),
{
    if is_replaced(c) {
        let i = choose|i: int| replaced_at(c, i);
        let d = t2s()[i].1;
        assert(!is_replaced(d)) by {
            if is_replaced(d) {
                let j = choose|j: int| replaced_at(d, j);
                assert(t2s()[j].0 == t2s()[i].1);
            }
        }
    }
}

fn simplify(table: &[(char, char)], c: char) -> (r: Option<char>)
    requires
        table@ == t2s(),
    ensures
        match r {
            Some(d) => is_replaced(c) && d == simplified(c),
            None => !is_replaced(c) && simplified(c) == c,
        },
{
    let mut i: usize = 0;
    while i < table.len()
        invariant
            i <= table@.len(),
            table.len() == table@.len(),
            table@ == t2s(),
            forall|k: int| 0 <= k < i ==> (#[trigger] t2s()[k]).0 != c,
        decreases table@.len() - i,
    {
        if table[i].0 == c {
            proof {
                assert(replaced_at(c, i as int));
                let j = choose|j: int| replaced_at(c, j);
                assert(replaced_at(c, j));
                law_table_is_sound();
                assert(i == j) by {
                    if i < j {
                        assert(t2s()[i as int].0 != t2s()[j].0);
                    } else if j < i {
                        assert(t2s()[j].0 != t2s()[i as int].0);
                    }
                }
            }
            return Some(table[i].1);
        }
        i += 1;
    }
    assert(!is_replaced(c)) by {
        if is_replaced(c) {
            let j = choose|j: int| replaced_at(c, j);
            assert(t2s()[j].0 != c);
        }
    }
    None
}

/// A text with each character in simplified form.
pub open spec fn translation(s: Seq<char>) -> Seq<char> {
    s.map_values(|c: char| simplified(c))
}

/// The text holds a character that is replaced.
pub open spec fn needs_translation(s: Seq<char>) -> bool {
    exists|i: int| 0 <= i < s.len() && is_replaced(#[trigger] s[i])
}

/// A text as the windows show it: in simplified characters where the mode is
/// that of the simplified code page. A text without a character that is replaced
/// is handed back itself.
pub fn tr(s: &str, mode: TextEncodingMode) -> (r: Cow<'_, str>)
    ensures
        match r {
            Cow::Borrowed(t) => t@ == s@ && (mode != TextEncodingMode::Gbk || !needs_translation(
                s@,
            )),
            Cow::Owned(t) => t@ == translation(s@) && mode == TextEncodingMode::Gbk
                && needs_translation(s@),
        },
{
    if mode != TextEncodingMode::Gbk {
        return Cow::Borrowed(s);
    }
    let table = t2s_entries();
    let cs = chars_of(s);
    let mut buf: Vec<char> = Vec::new();
    let mut changed: bool = false;
    let mut i: usize = 0;
    while i < cs.len()
        invariant
            i <= cs@.len(),
            cs@ == s@,
            table@ == t2s(),
            buf@ == translation(cs@.take(i as int)),
            changed == needs_translation(cs@.take(i as int)),
        decreases cs@.len() - i,
    {
        let ghost before = cs@.take(i as int);
        let ghost now = cs@.take(i + 1);
        let c: char = cs[i];
        proof {
            assert(now[i as int] == c);
            assert forall|k: int| 0 <= k < i implies before[k] == now[k] by {}
        }
        match simplify(table.as_slice(), c) {
            Some(d) => {
                buf.push(d);
                changed = true;
                assert(is_replaced(now[i as int]));
            },
            None => {
                buf.push(c);
                proof {
                    if needs_translation(now) {
                        let k = choose|k: int| 0 <= k < now.len() && is_replaced(#[trigger] now[k]);
                        assert(k < i);
                        assert(is_replaced(before[k]));
                    }
                }
            },
        }
        proof {
            if needs_translation(before) {
                let k = choose|k: int| 0 <= k < before.len() && is_replaced(
                    #[trigger] before[k],
                );
                assert(is_replaced(now[k]));
            }
            assert(buf@ == translation(now));
        }
        i += 1;
    }
    assert(cs@.take(i as int) == cs@);
    if changed {
        Cow::Owned(string_of(buf.as_slice()))
    } else {
        Cow::Borrowed(s)
    }
}

/// A text in simplified characters, whatever the mode. The mode is as before
/// afterwards.
pub fn set_and_translate_for_test(state: &mut ModeState, s: &str) -> (r: String)
    ensures
        r@ == translation(s@),
        numbered_mode(final(state).value) == numbered_mode(old(state).value),
{
    let prev = text_encoding_mode(state);
    set_text_encoding_mode(state, TextEncodingMode::Gbk);
    let result = match tr(s, text_encoding_mode(state)) {
        Cow::Owned(t) => t,
        Cow::Borrowed(t) => {
            proof {
                assert forall|i: int| 0 <= i < s@.len() implies simplified(#[trigger] s@[i])
                    == s@[i] by {}
                assert(translation(s@) == s@);
            }
            crate::text::own(t)
        },
    };
    set_text_encoding_mode(state, prev);
    result
}

/// A window's title in UTF-16 as it is to be set, with its terminator. `None`
/// where it stays.
pub fn retitle(units: &[u16], mode: TextEncodingMode) -> (r: Option<Vec<u16>>)
    ensures
        ({
            let s = lossy_utf16(units@);
            match r {
                Some(v) => mode == TextEncodingMode::Gbk && needs_translation(s) && v@ == utf16_of(
                    translation(s),
                ).push(0),
                None => mode != TextEncodingMode::Gbk || !needs_translation(s),
            }
        }),
{
    let cs = decode_utf16(units);
    let s = string_of(cs.as_slice());
    match tr(s.as_str(), mode) {
        Cow::Owned(t) => {
            let mut out = encode_utf16(chars_of(t.as_str()).as_slice());
            out.push(0);
            Some(out)
        },
        Cow::Borrowed(_) => None,
    }
}

/// Whether a window of this class holds tabs.
pub fn is_tab_class(units: &[u16]) -> (r: bool)
    ensures
        r == (lossy_utf16(units@) == "SysTabControl32"@),
{
    let cs = decode_utf16(units);
    eq_str(cs.as_slice(), "SysTabControl32")
}

} // verus!

//! Texts in the code pages of the client.

use vstd::prelude::*;
use vstd::slice::slice_subrange;
#[allow(unused_imports)]
use vstd::utf8::{decode_utf8, encode_utf8, valid_utf8};
use crate::text::{ascii_lower, chars_of, eq_str, find_char, trim};
#[allow(unused_imports)]
use crate::text::{ascii_lower_of, trim_of};
use crate::unicode::{read_utf8, utf8_bytes};

verus! {

/// The encoding that a text was read in.
#[derive(Debug, Clone, Copy, PartialEq, Eq, Structural)]
pub enum LegacyEncoding {
    Utf8,
    Big5,
    Gbk,
}

/// The code page of texts that are not UTF-8.
#[derive(Debug, Clone, Copy, PartialEq, Eq, Structural)]
pub enum TextEncodingMode {
    /// Whichever suits the text better.
    Auto,
    Big5,
    Gbk,
}

impl Default for TextEncodingMode {
    fn default() -> (r: TextEncodingMode)
        ensures
            r == TextEncodingMode::Auto,
    {
        TextEncodingMode::Auto
    }
}

/// The mode of a setting.
pub open spec fn mode_named(s: Seq<char>) -> TextEncodingMode {
    let v = ascii_lower_of(trim_of(s));
    if v == "big5"@ || v == "cp950"@ || v == "traditional"@ || v == "trad"@ || v == "tw"@ {
        TextEncodingMode::Big5
    } else if v == "gbk"@ || v == "gb2312"@ || v == "simplified"@ || v == "simp"@ || v == "cn"@ {
        TextEncodingMode::Gbk
    } else {
        TextEncodingMode::Auto
    }
}

/// The setting of a mode.
pub open spec fn mode_name(mode: TextEncodingMode) -> Seq<char> {
    match mode {
        TextEncodingMode::Auto => "auto"@,
        TextEncodingMode::Big5 => "big5"@,
        TextEncodingMode::Gbk => "gbk"@,
    }
}

impl TextEncodingMode {
    /// The mode of a setting.
    pub fn from_config_value(value: &str) -> (r: TextEncodingMode)
        ensures
            r == mode_named(value@),
    {
        mode_of(chars_of(value).as_slice())
    }

    /// The setting of a mode.
    pub fn as_config_value(self) -> (r: &'static str)
        ensures
            r@ == mode_name(self),
    {
        match self {
            TextEncodingMode::Auto => "auto",
            TextEncodingMode::Big5 => "big5",
            TextEncodingMode::Gbk => "gbk",
        }
    }
}

/// The mode of a setting.
pub fn mode_of(value: &[char]) -> (r: TextEncodingMode)
    ensures
        r == mode_named(value@),
{
    let v = ascii_lower(trim(value));
    let v = v.as_slice();
    if eq_str(v, "big5") || eq_str(v, "cp950") || eq_str(v, "traditional") || eq_str(v, "trad")
        || eq_str(v, "tw") {
        TextEncodingMode::Big5
    } else if eq_str(v, "gbk") || eq_str(v, "gb2312") || eq_str(v, "simplified") || eq_str(
        v,
        "simp",
    ) || eq_str(v, "cn") {
        TextEncodingMode::Gbk
    } else {
        TextEncodingMode::Auto
    }
}

/// A mode is read back from its setting.
pub proof fn law_mode_reads_back(mode: TextEncodingMode)
    ensures
        mode_named(mode_name(mode)) == mode,
{
    reveal_strlit("auto");
    reveal_strlit("big5");
    reveal_strlit("cp950");
    reveal_strlit("traditional");
    reveal_strlit("trad");
    reveal_strlit("tw");
    reveal_strlit("gbk");
    reveal_strlit("gb2312");
    reveal_strlit("simplified");
    reveal_strlit("simp");
    reveal_strlit("cn");
    let s = mode_name(mode);
    assert(s.len() > 0 && !crate::text::is_space(s[0]) && !crate::text::is_space(s.last()));
    crate::text::lemma_trim_fixed(s);
    let v = ascii_lower_of(s);
    assert(v == s) by {
        assert(v.len() == s.len());
        assert forall|i: int| 0 <= i < s.len() implies v[i] == s[i] by {}
    }
    assert("auto"@.len() == 4 && "big5"@.len() == 4 && "gbk"@.len() == 3 && "trad"@.len() == 4
        && "simp"@.len() == 4 && "tw"@.len() == 2 && "cn"@.len() == 2 && "cp950"@.len() == 5);
    assert("auto"@[0] == 'a' && "big5"@[0] == 'b' && "gbk"@[0] == 'g' && "trad"@[0] == 't'
        && "simp"@[0] == 's');
}

/// The number of a mode.
pub open spec fn mode_number(mode: TextEncodingMode) -> u8 {
    match mode {
        TextEncodingMode::Auto => 0,
        TextEncodingMode::Big5 => 1,
        TextEncodingMode::Gbk => 2,
    }
}

/// The mode of a number.
pub open spec fn numbered_mode(value: u8) -> TextEncodingMode {
    if value == 1 {
        TextEncodingMode::Big5
    } else if value == 2 {
        TextEncodingMode::Gbk
    } else {
        TextEncodingMode::Auto
    }
}

/// The number of a mode.
pub fn text_encoding_mode_to_u8(mode: TextEncodingMode) -> (r: u8)
    ensures
        r == mode_number(mode),
        numbered_mode(r) == mode,
{
    match mode {
        TextEncodingMode::Auto => 0,
        TextEncodingMode::Big5 => 1,
        TextEncodingMode::Gbk => 2,
    }
}

/// The mode of a number.
pub fn text_encoding_mode_from_u8(value: u8) -> (r: TextEncodingMode)
    ensures
        r == numbered_mode(value),
{
    if value == 1 {
        TextEncodingMode::Big5
    } else if value == 2 {
        TextEncodingMode::Gbk
    } else {
        TextEncodingMode::Auto
    }
}

/// The mode that is in force, as a number.
#[derive(Debug, Clone, Copy, PartialEq, Eq, Structural)]
pub struct ModeState {
    pub value: u8,
}

impl ModeState {
    /// No mode has been set.
    pub fn new() -> (r: ModeState)
        ensures
            numbered_mode(r.value) == TextEncodingMode::Auto,
    {
        ModeState { value: 0 }
    }
}

/// Sets the mode.
pub fn set_text_encoding_mode(state: &mut ModeState, mode: TextEncodingMode)
    ensures
        numbered_mode(final(state).value) == mode,
{
    state.value = text_encoding_mode_to_u8(mode);
}

/// The mode that is in force.
pub fn text_encoding_mode(state: &ModeState) -> (r: TextEncodingMode)
    ensures
        r == numbered_mode(state.value),
{
    text_encoding_mode_from_u8(state.value)
}

/// A text read as Big5, and whether something in it was not Big5.
pub uninterp spec fn big5_decoded(bytes: Seq<u8>) -> (Seq<char>, bool);

/// A text read as GBK, and whether something in it was not GBK.
pub uninterp spec fn gbk_decoded(bytes: Seq<u8>) -> (Seq<char>, bool);

/// A text in Big5.
pub uninterp spec fn big5_encoded(s: Seq<char>) -> Seq<u8>;

/// A text in GBK.
pub uninterp spec fn gbk_encoded(s: Seq<char>) -> Seq<u8>;

/// `BIG5.decode` of encoding_rs depends on the bytes alone. It reckons with three
/// bytes of text for each byte, and with twice as many where it has to make more
/// room; it panics where that is longer than an allocation can be.
#[verifier::external_body]
fn decode_big5(bytes: &[u8]) -> (r: (String, bool))
    requires
        bytes@.len() <= usize::MAX / 12 - 4,
    ensures
        (r.0@, r.1) == big5_decoded(bytes@),
{
    let (text, _, errors) = encoding_rs::BIG5.decode(bytes);
    (text.into_owned(), errors)
}

/// `GBK.decode` of encoding_rs depends on the bytes alone. It reckons with three
/// bytes of text for each byte, and with twice as many where it has to make more
/// room; it panics where that is longer than an allocation can be.
#[verifier::external_body]
fn decode_gbk(bytes: &[u8]) -> (r: (String, bool))
    requires
        bytes@.len() <= usize::MAX / 12 - 4,
    ensures
        (r.0@, r.1) == gbk_decoded(bytes@),
{
    let (text, _, errors) = encoding_rs::GBK.decode(bytes);
    (text.into_owned(), errors)
}

/// `BIG5.encode` of encoding_rs depends on the text alone. What Big5 lacks becomes
/// up to seven bytes for two, and the room for them is rounded up to a power of
/// two; it panics where that is longer than an allocation can be.
#[verifier::external_body]
fn encode_big5(text: &str) -> (r: Vec<u8>)
    requires
        encode_utf8(text@).len() <= usize::MAX / 16,
    ensures
        r@ == big5_encoded(text@),
{
    encoding_rs::BIG5.encode(text).0.into_owned()
}

/// `GBK.encode` of encoding_rs depends on the text alone. What GBK lacks becomes
/// up to seven bytes for two, and the room for them is rounded up to a power of
/// two; it panics where that is longer than an allocation can be.
#[verifier::external_body]
fn encode_gbk(text: &str) -> (r: Vec<u8>)
    requires
        encode_utf8(text@).len() <= usize::MAX / 16,
    ensures
        r@ == gbk_encoded(text@),
{
    encoding_rs::GBK.encode(text).0.into_owned()
}

/// The bytes begin with the mark of UTF-8.
pub open spec fn has_bom(bytes: Seq<u8>) -> bool {
    bytes.len() >= 3 && bytes[0] == 0xEF && bytes[1] == 0xBB && bytes[2] == 0xBF
}

/// The bytes without the mark of UTF-8.
pub open spec fn without_bom(bytes: Seq<u8>) -> Seq<u8> {
    if has_bom(bytes) {
        bytes.skip(3)
    } else {
        bytes
    }
}

/// The bytes without the mark of UTF-8.
pub fn strip_utf8_bom(bytes: &[u8]) -> (r: &[u8])
    ensures
        r@ == without_bom(bytes@),
{
    let n: usize = bytes.len();
    if n >= 3 && bytes[0] == 0xEF && bytes[1] == 0xBB && bytes[2] == 0xBF {
        let rest = slice_subrange(bytes, 3, n);
        assert(rest@ == bytes@.skip(3));
        rest
    } else {
        bytes
    }
}

/// The control characters of Unicode.
pub open spec fn is_control_char(c: char) -> bool {
    c as int <= 0x1F || 0x7F <= c as int <= 0x9F
}

/// The marks that speak for a text like letters and digits do.
pub open spec fn is_plain_mark(c: char) -> bool {
    ||| c == '('
    ||| c == ')'
    ||| c == '['
    ||| c == ']'
    ||| c == '+'
    ||| c == '-'
    ||| c == ','
    ||| c == '.'
    ||| c == ':'
    ||| c == '_'
    ||| c == '/'
    ||| c == '#'
    ||| c == '='
    ||| c == '<'
    ||| c == '>'
    ||| c == '"'
    ||| c == '\''
    ||| c == ';'
}

/// How much a character speaks for the code page that it was read in.
pub open spec fn char_score(c: char) -> int {
    if c == '\u{FFFD}' || is_control_char(c) {
        -80
    } else if '\u{4E00}' <= c <= '\u{9FFF}' {
        4
    } else if '0' <= c <= '9' || 'A' <= c <= 'Z' || 'a' <= c <= 'z' || c == ' ' || is_plain_mark(
        c,
    ) {
        1
    } else if '\u{3000}' <= c <= '\u{303F}' || '\u{FF00}' <= c <= '\u{FFEF}' {
        1
    } else {
        -2
    }
}

/// How much the characters of a text speak for it.
pub open spec fn chars_score(s: Seq<char>) -> int
    decreases s.len(),
{
    if s.len() == 0 {
        0
    } else {
        chars_score(s.drop_last()) + char_score(s.last())
    }
}

/// How much a text speaks for the code page that it was read in.
pub open spec fn text_score(s: Seq<char>, had_errors: bool) -> int {
    chars_score(s) + if had_errors {
        -200int
    } else {
        0int
    }
}

fn score_of(c: char) -> (r: i128)
    ensures
        r == char_score(c),
{
    if c == '\u{FFFD}' || c <= '\u{1F}' || ('\u{7F}' <= c && c <= '\u{9F}') {
        -80
    } else if '\u{4E00}' <= c && c <= '\u{9FFF}' {
        4
    } else if ('0' <= c && c <= '9') || ('A' <= c && c <= 'Z') || ('a' <= c && c <= 'z') || c == ' '
        || c == '(' || c == ')' || c == '[' || c == ']' || c == '+' || c == '-' || c == ',' || c
        == '.' || c == ':' || c == '_' || c == '/' || c == '#' || c == '=' || c == '<' || c == '>'
        || c == '"' || c == '\'' || c == ';' {
        1
    } else if ('\u{3000}' <= c && c <= '\u{303F}') || ('\u{FF00}' <= c && c <= '\u{FFEF}') {
        1
    } else {
        -2
    }
}

/// How much a text speaks for the code page that it was read in.
pub fn legacy_text_score(s: &str, had_errors: bool) -> (r: i128)
    ensures
        r == text_score(s@, had_errors),
        -200 - 80 * s@.len() <= r <= 4 * s@.len(),
        s@.len() <= usize::MAX,
{
    let cs = chars_of(s);
    let n: usize = cs.len();
    let mut score: i128 = if had_errors {
        -200
    } else {
        0
    };
    let mut i: usize = 0;
    while i < n
        invariant
            i <= n,
            n == cs@.len(),
            cs@ == s@,
            score == text_score(cs@.take(i as int), had_errors),
            -200 - 80 * i <= score <= 4 * i,
        decreases n - i,
    {
        proof {
            let done = cs@.take(i + 1);
            assert(done.drop_last() == cs@.take(i as int));
            assert(done.last() == cs@[i as int]);
        }
        score = score + score_of(cs[i]);
        i += 1;
    }
    assert(cs@.take(n as int) == cs@);
    score
}

/// The characters that speak for one of the code pages.
pub open spec fn hints(simplified: bool) -> Seq<char> {
    if simplified {
        "药银剑剂卷轴龙鸟马岛宝矿护强变术书双枪挥坏锅饭绿蓝红黑简体服务器帐号密码金币死亡骑士斗篷头盔手套长靴盔甲烈炎高级皮革勇敢浓缩终极体力恢复传送村庄指定面包精灵饼干蜡烛"@
    } else {
        "藥銀劍劑卷軸龍鳥馬島寶礦護強變術書雙槍揮壞鍋飯綠藍紅黑繁體伺服器帳號密碼金幣死亡騎士斗篷頭盔手套長靴盔甲烈炎高級皮革勇敢濃縮終極體力恢復傳送村莊指定麵包精靈餅乾蠟燭"@
    }
}

/// What the hints in a text speak for one of the code pages.
pub open spec fn hint_score(s: Seq<char>, simplified: bool) -> int
    decreases s.len(),
{
    if s.len() == 0 {
        0
    } else {
        hint_score(s.drop_last(), simplified) + (if hints(simplified).contains(s.last()) {
            12int
        } else {
            0int
        }) - (if hints(!simplified).contains(s.last()) {
            6int
        } else {
            0int
        })
    }
}

fn hint_chars(simplified: bool) -> (r: Vec<char>)
    ensures
        r@ == hints(simplified),
{
    if simplified {
        chars_of(
            "药银剑剂卷轴龙鸟马岛宝矿护强变术书双枪挥坏锅饭绿蓝红黑简体服务器帐号密码金币死亡骑士斗篷头盔手套长靴盔甲烈炎高级皮革勇敢浓缩终极体力恢复传送村庄指定面包精灵饼干蜡烛",
        )
    } else {
        chars_of(
            "藥銀劍劑卷軸龍鳥馬島寶礦護強變術書雙槍揮壞鍋飯綠藍紅黑繁體伺服器帳號密碼金幣死亡騎士斗篷頭盔手套長靴盔甲烈炎高級皮革勇敢濃縮終極體力恢復傳送村莊指定麵包精靈餅乾蠟燭",
        )
    }
}

fn has_char(s: &[char], c: char) -> (r: bool)
    ensures
        r == s@.contains(c),
{
    match find_char(s, c) {
        Some(i) => {
            assert(s@[i as int] == c);
            true
        },
        None => false,
    }
}

/// What the hints in a text speak for one of the code pages.
pub fn codepage_hint_score(s: &str, prefer_simplified: bool) -> (r: i128)
    ensures
        r == hint_score(s@, prefer_simplified),
        -6 * s@.len() <= r <= 12 * s@.len(),
        s@.len() <= usize::MAX,
{
    let preferred = hint_chars(prefer_simplified);
    let opposite = hint_chars(!prefer_simplified);
    let cs = chars_of(s);
    let n: usize = cs.len();
    let mut score: i128 = 0;
    let mut i: usize = 0;
    while i < n
        invariant
            i <= n,
            n == cs@.len(),
            cs@ == s@,
            preferred@ == hints(prefer_simplified),
            opposite@ == hints(!prefer_simplified),
            score == hint_score(cs@.take(i as int), prefer_simplified),
            -6 * i <= score <= 12 * i,
        decreases n - i,
    {
        proof {
            let done = cs@.take(i + 1);
            assert(done.drop_last() == cs@.take(i as int));
            assert(done.last() == cs@[i as int]);
        }
        if has_char(preferred.as_slice(), cs[i]) {
            score = score + 12;
        }
        if has_char(opposite.as_slice(), cs[i]) {
            score = score - 6;
        }
        i += 1;
    }
    assert(cs@.take(n as int) == cs@);
    score
}

/// The code page that suits a text better: the only one that it is free of
/// errors in, or else the one with the higher score. Big5 where both are equal.
pub open spec fn better(big5: (Seq<char>, bool), gbk: (Seq<char>, bool)) -> LegacyEncoding {
    if !big5.1 && gbk.1 {
        LegacyEncoding::Big5
    } else if big5.1 && !gbk.1 {
        LegacyEncoding::Gbk
    } else if text_score(gbk.0, gbk.1) + hint_score(gbk.0, true) > text_score(big5.0, big5.1)
        + hint_score(big5.0, false) {
        LegacyEncoding::Gbk
    } else {
        LegacyEncoding::Big5
    }
}

/// The code page that suits a text better, from the text read in both and
/// whether there were errors.
pub fn better_codepage(big5: &str, big5_errors: bool, gbk: &str, gbk_errors: bool) -> (r:
    LegacyEncoding)
    ensures
        r == better((big5@, big5_errors), (gbk@, gbk_errors)),
{
    if !big5_errors && gbk_errors {
        return LegacyEncoding::Big5;
    }
    if big5_errors && !gbk_errors {
        return LegacyEncoding::Gbk;
    }
    let b: i128 = legacy_text_score(big5, big5_errors) + codepage_hint_score(big5, false);
    let g: i128 = legacy_text_score(gbk, gbk_errors) + codepage_hint_score(gbk, true);
    if g > b {
        LegacyEncoding::Gbk
    } else {
        LegacyEncoding::Big5
    }
}

/// The text of some bytes and the encoding that it was read in. UTF-8 comes
/// first, whatever the mode.
pub open spec fn text_of(bytes: Seq<u8>, mode: TextEncodingMode) -> (Seq<char>, LegacyEncoding) {
    let b = without_bom(bytes);
    if valid_utf8(b) {
        (decode_utf8(b), LegacyEncoding::Utf8)
    } else {
        match mode {
            TextEncodingMode::Big5 => (big5_decoded(b).0, LegacyEncoding::Big5),
            TextEncodingMode::Gbk => (gbk_decoded(b).0, LegacyEncoding::Gbk),
            TextEncodingMode::Auto => if better(big5_decoded(b), gbk_decoded(b))
                == LegacyEncoding::Gbk {
                (gbk_decoded(b).0, LegacyEncoding::Gbk)
            } else {
                (big5_decoded(b).0, LegacyEncoding::Big5)
            },
        }
    }
}

/// Bytes that memory has room to read: UTF-8, or not so many that the size of
/// their text in another encoding cannot be reckoned.
pub open spec fn can_be_read(bytes: Seq<u8>) -> bool {
    valid_utf8(without_bom(bytes)) || bytes.len() <= usize::MAX / 12 - 4
}

/// Whether memory has room to read some bytes.
pub fn is_readable(bytes: &[u8]) -> (r: bool)
    ensures
        r == can_be_read(bytes@),
{
    bytes.len() <= usize::MAX / 12 - 4 || read_utf8(strip_utf8_bom(bytes)).is_some()
}

/// The text of some bytes and the encoding that it was read in, without a mode.
pub fn decode_text(bytes: &[u8]) -> (r: (String, LegacyEncoding))
    requires
        can_be_read(bytes@),
    ensures
        (r.0@, r.1) == text_of(bytes@, TextEncodingMode::Auto),
{
    decode_text_with_mode(bytes, TextEncodingMode::Auto)
}

/// The text of some bytes and the encoding that it was read in.
pub fn decode_text_with_mode(bytes: &[u8], mode: TextEncodingMode) -> (r: (String, LegacyEncoding))
    requires
        can_be_read(bytes@),
    ensures
        (r.0@, r.1) == text_of(bytes@, mode),
{
    let b = strip_utf8_bom(bytes);
    match read_utf8(b) {
        Some(text) => {
            return (text, LegacyEncoding::Utf8);
        },
        None => {},
    }
    match mode {
        TextEncodingMode::Big5 => {
            return (decode_big5(b).0, LegacyEncoding::Big5);
        },
        TextEncodingMode::Gbk => {
            return (decode_gbk(b).0, LegacyEncoding::Gbk);
        },
        TextEncodingMode::Auto => {},
    }
    let (big5, big5_errors) = decode_big5(b);
    let (gbk, gbk_errors) = decode_gbk(b);
    match better_codepage(big5.as_str(), big5_errors, gbk.as_str(), gbk_errors) {
        LegacyEncoding::Gbk => (gbk, LegacyEncoding::Gbk),
        _ => (big5, LegacyEncoding::Big5),
    }
}

/// The bytes in front of the first zero.
pub open spec fn until_zero(bytes: Seq<u8>) -> Seq<u8>
    decreases bytes.len(),
{
    if bytes.len() == 0 || bytes[0] == 0 {
        seq![]
    } else {
        seq![bytes[0]] + until_zero(bytes.skip(1))
    }
}

pub proof fn lemma_until_zero(bytes: Seq<u8>, n: int)
    requires
        0 <= n <= bytes.len(),
        forall|i: int| 0 <= i < n ==> bytes[i] != 0,
        n == bytes.len() || bytes[n] == 0,
    ensures
        until_zero(bytes) == bytes.take(n),
    decreases bytes.len(),
{
    if n > 0 {
        let rest = bytes.skip(1);
        assert forall|i: int| 0 <= i < n - 1 implies rest[i] != 0 by {
            assert(rest[i] == bytes[i + 1]);
        }
        lemma_until_zero(rest, n - 1);
        assert(bytes.take(n) == seq![bytes[0]] + rest.take(n - 1));
    } else {
        assert(bytes.take(0) == Seq::<u8>::empty());
    }
}

/// The bytes in front of the first zero.
pub fn cut_at_zero(bytes: &[u8]) -> (r: &[u8])
    ensures
        r@ == until_zero(bytes@),
{
    let mut i: usize = 0;
    while i < bytes.len() && bytes[i] != 0
        invariant
            i <= bytes@.len(),
            bytes.len() == bytes@.len(),
            forall|k: int| 0 <= k < i ==> bytes@[k] != 0,
        decreases bytes@.len() - i,
    {
        i += 1;
    }
    let head = slice_subrange(bytes, 0, i);
    proof {
        assert(head@ == bytes@.take(i as int));
        lemma_until_zero(bytes@, i as int);
    }
    head
}

/// The text of bytes up to the first zero.
pub fn decode_zstr(bytes: &[u8], mode: TextEncodingMode) -> (r: String)
    requires
        can_be_read(until_zero(bytes@)),
    ensures
        r@ == text_of(until_zero(bytes@), mode).0,
{
    let head = cut_at_zero(bytes);
    decode_text_with_mode(head, mode).0
}

/// The bytes of a text in an encoding.
pub fn encode_text(text: &str, encoding: LegacyEncoding) -> (r: Vec<u8>)
    requires
        encoding != LegacyEncoding::Utf8 ==> encode_utf8(text@).len() <= usize::MAX / 16,
    ensures
        r@ == (match encoding {
            LegacyEncoding::Utf8 => encode_utf8(text@),
            LegacyEncoding::Big5 => big5_encoded(text@),
            LegacyEncoding::Gbk => gbk_encoded(text@),
        }),
{
    match encoding {
        LegacyEncoding::Utf8 => utf8_bytes(text),
        LegacyEncoding::Big5 => encode_big5(text),
        LegacyEncoding::Gbk => encode_gbk(text),
    }
}

/// A text written in UTF-8 is read back in every mode, unless it begins with
/// the mark of UTF-8.
pub proof fn law_utf8_reads_back(s: Seq<char>, mode: TextEncodingMode)
    requires
        !has_bom(encode_utf8(s)),
    ensures
        text_of(encode_utf8(s), mode) == (s, LegacyEncoding::Utf8),
{
    vstd::utf8::encode_utf8_valid_utf8(s);
    vstd::utf8::encode_utf8_decode_utf8(s);
}

/// What stands behind a zero byte never counts, in any mode.
pub proof fn law_zero_ends_a_text(p: Seq<u8>, tail: Seq<u8>, mode: TextEncodingMode)
    requires
        forall|i: int| 0 <= i < p.len() ==> #[trigger] p[i] != 0,
    ensures
        until_zero(p) == p,
        until_zero(p + seq![0u8] + tail) == p,
        text_of(until_zero(p + seq![0u8] + tail), mode) == text_of(until_zero(p), mode),
{
    let all = p + seq![0u8] + tail;
    assert(all[p.len() as int] == 0);
    lemma_until_zero(p, p.len() as int);
    assert(p.take(p.len() as int) == p);
    assert forall|i: int| 0 <= i < p.len() implies all[i] != 0 by {
        assert(all[i] == p[i]);
    }
    lemma_until_zero(all, p.len() as int);
    assert(all.take(p.len() as int) == p);
}

/// The characters that ASCII bytes stand for.
pub open spec fn ascii_text(p: Seq<u8>) -> Seq<char> {
    Seq::new(p.len(), |i: int| p[i] as char)
}

/// ASCII bytes are their own text, in every mode.
pub proof fn law_ascii_reads_as_itself(p: Seq<u8>, mode: TextEncodingMode)
    requires
        forall|i: int| 0 <= i < p.len() ==> #[trigger] p[i] < 0x80,
    ensures
        can_be_read(p),
        text_of(p, mode) == (ascii_text(p), LegacyEncoding::Utf8),
{
    let s = ascii_text(p);
    assert forall|i: int| 0 <= i < s.len() implies '\0' <= #[trigger] s[i] <= '\u{7f}' by {
        assert(p[i] < 0x80);
    }
    vstd::utf8::is_ascii_chars_encode_utf8(s);
    let e = encode_utf8(s);
    assert(e =~= p) by {
        assert forall|i: int| 0 <= i < p.len() implies e[i] == p[i] by {
            assert(s[i] as u8 == e[i]);
            assert(p[i] < 0x80);
        }
    }
    assert(!has_bom(p)) by {
        if p.len() > 0 {
            assert(p[0] < 0x80);
        }
    }
    law_utf8_reads_back(s, mode);
    vstd::utf8::encode_utf8_valid_utf8(s);
}

/// The mark of UTF-8 in front of a text is no part of it.
pub proof fn law_bom_is_dropped(s: Seq<char>, mode: TextEncodingMode)
    ensures
        text_of(seq![0xEFu8, 0xBB, 0xBF] + encode_utf8(s), mode) == (s, LegacyEncoding::Utf8),
{
    let b = seq![0xEFu8, 0xBB, 0xBF] + encode_utf8(s);
    assert(b.skip(3) == encode_utf8(s));
    vstd::utf8::encode_utf8_valid_utf8(s);
    vstd::utf8::encode_utf8_decode_utf8(s);
}

} // verus!

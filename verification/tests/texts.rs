use launcher::base64_text::{decode, encode};
use launcher::text::{
    decimal_chars, hex_chars, hex_number_chars, is_whitespace, lines, parse_i32, parse_u16,
    parse_u32, parse_u8, remove_all, signed_decimal_chars, split, to_lowercase, trim, words,
};
use launcher::unicode::{
    decode_utf16, encode_utf16, read_lossy, read_utf8, utf8_bytes,
};
use launcher::zlib::{deflate, inflate};

fn chars(s: &str) -> Vec<char> {
    s.chars().collect()
}

fn text(s: &[char]) -> String {
    s.iter().collect()
}

fn texts(rows: Vec<Vec<char>>) -> Vec<String> {
    rows.iter().map(|r| r.iter().collect()).collect()
}

#[test]
fn whitespace_is_that_of_unicode() {
    for n in 0..=0x10FFFFu32 {
        if let Some(c) = char::from_u32(n) {
            assert_eq!(is_whitespace(c), c.is_whitespace(), "{n:X}");
        }
    }
}

#[test]
fn lines_and_words() {
    for s in ["", "a", "a\n", "a\r\nb", "\n\n", "a\r", "a\rb\n\r\n c \u{3000}d\t"] {
        let cs = chars(s);
        let want: Vec<String> = s.lines().map(|l| l.to_string()).collect();
        assert_eq!(texts(lines(&cs)), want, "{s:?}");
        let want: Vec<String> = s.split_whitespace().map(|w| w.to_string()).collect();
        assert_eq!(texts(words(&cs)), want, "{s:?}");
        assert_eq!(text(trim(&cs)), s.trim(), "{s:?}");
        let want: Vec<String> = s.split('\r').map(|w| w.to_string()).collect();
        assert_eq!(texts(split(&cs, '\r')), want, "{s:?}");
    }
}

#[test]
fn numbers_are_read_as_std_reads_them() {
    for s in [
        "", "+", "-", "0", "007", "+5", "-5", "-0", "255", "256", "65535", "65536", "4294967295",
        "4294967296", "2147483647", "2147483648", "-2147483648", "-2147483649", "1 ", "1a", "٣",
        "99999999999999999999",
    ] {
        let cs = chars(s);
        assert_eq!(parse_u8(&cs), s.parse::<u8>().ok(), "{s}");
        assert_eq!(parse_u16(&cs), s.parse::<u16>().ok(), "{s}");
        assert_eq!(parse_u32(&cs), s.parse::<u32>().ok(), "{s}");
        assert_eq!(parse_i32(&cs), s.parse::<i32>().ok(), "{s}");
    }
}

#[test]
fn numbers_are_written_as_std_writes_them() {
    for n in [0u64, 1, 9, 10, 99, 100, 65535, u64::MAX] {
        assert_eq!(text(&decimal_chars(n)), n.to_string());
        assert_eq!(text(&hex_number_chars(n)), format!("{n:X}"));
    }
    for n in [0, 1, -1, i32::MAX, i32::MIN] {
        assert_eq!(text(&signed_decimal_chars(n)), n.to_string());
    }
    assert_eq!(text(&hex_chars(&[0x0A, 0xF3], true)), "0AF3");
    assert_eq!(text(&hex_chars(&[0x0A, 0xF3], false)), "0af3");
}

#[test]
fn lower_case_is_that_of_unicode() {
    for s in ["ABC", "ÀÉ", "İ", "ΑΣ", "甲"] {
        assert_eq!(text(&to_lowercase(&chars(s))), s.to_lowercase());
    }
}

#[test]
fn parts_are_removed() {
    let cs = chars("TW.bin.bin");
    assert_eq!(
        text(&remove_all(&cs, &chars(".bin"))),
        "TW.bin.bin".replace(".bin", "")
    );
}

#[test]
fn utf16_reads_back() {
    for s in ["", "ab", "甲😀\u{FFFF}"] {
        let units = encode_utf16(&chars(s));
        assert_eq!(units, s.encode_utf16().collect::<Vec<u16>>());
        assert_eq!(text(&decode_utf16(&units)), s);
    }
    let broken = [0x61, 0xD800, 0x62, 0xDC00, 0xD83D, 0xDE00, 0xD83D];
    assert_eq!(
        text(&decode_utf16(&broken)),
        String::from_utf16_lossy(&broken)
    );
}

#[test]
fn utf8_is_read() {
    assert_eq!(utf8_bytes("甲a"), "甲a".as_bytes().to_vec());
    assert_eq!(read_utf8("甲".as_bytes()).unwrap(), "甲");
    assert_eq!(read_utf8(&[0xFF]), None);
    for b in [&b"a\xFFb"[..], &b"\xE7\x94"[..], &b"ok"[..]] {
        assert_eq!(read_lossy(b), String::from_utf8_lossy(b));
    }
}

#[test]
fn base64_values() {
    assert_eq!(encode(b""), "");
    assert_eq!(encode(b"f"), "Zg==");
    assert_eq!(encode(b"fo"), "Zm8=");
    assert_eq!(encode(b"foo"), "Zm9v");
    assert_eq!(encode(&[0xFB, 0xFF]), "+/8=");
    assert_eq!(decode("Zm9vYmE=").unwrap(), b"fooba".to_vec());
    for bad in ["Zg", "Zg=", "Z===", "Zh==", "Zm9v\n", "-_8=", "Zg==Zg=="] {
        assert_eq!(decode(bad), None, "{bad}");
    }
    let all: Vec<u8> = (0..=255).collect();
    assert_eq!(decode(&encode(&all)).unwrap(), all);
}

#[test]
fn compressed_bytes_read_back() {
    let data: Vec<u8> = (0..2000u32).map(|i| (i % 7) as u8).collect();
    for level in [0, 1, 6, 9] {
        let small = deflate(&data, level).unwrap();
        assert_eq!(small[0] & 0x0F, 8);
        assert_eq!(inflate(&small).unwrap(), data);
    }
    assert!(deflate(&data, 9).unwrap().len() < 200);
    assert!(deflate(&data, 0).unwrap().len() > 2000);
    assert_eq!(inflate(&[]), None);
    assert_eq!(inflate(b"not compressed"), None);
}

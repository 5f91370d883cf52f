use launcher::legacy_text::{
    decode_text, decode_text_with_mode, decode_zstr, encode_text, is_readable, LegacyEncoding,
    TextEncodingMode,
};

#[test]
fn decodes_big5_traditional_text() {
    let (bytes, _, had_errors) = encoding_rs::BIG5.encode("銀劍 (揮舞)");
    assert!(!had_errors);

    assert_eq!(
        decode_text(&bytes),
        ("銀劍 (揮舞)".to_string(), LegacyEncoding::Big5)
    );
}

#[test]
fn decodes_gbk_simplified_text() {
    let (bytes, _, had_errors) = encoding_rs::GBK.encode("银剑 (挥舞)");
    assert!(!had_errors);

    assert_eq!(
        decode_text(&bytes),
        ("银剑 (挥舞)".to_string(), LegacyEncoding::Gbk)
    );
}

#[test]
fn decodes_ambiguous_gbk_inventory_names_as_simplified() {
    for name in ["金币", "+4 死亡骑士斗篷", "面包", "蜡烛"] {
        let (bytes, _, had_errors) = encoding_rs::GBK.encode(name);
        assert!(!had_errors);

        assert_eq!(decode_text(&bytes), (name.to_string(), LegacyEncoding::Gbk));
    }
}

#[test]
fn forced_gbk_mode_decodes_short_simplified_names_without_guessing() {
    let (bytes, _, had_errors) = encoding_rs::GBK.encode("蜡烛");
    assert!(!had_errors);

    assert_eq!(
        decode_text_with_mode(&bytes, TextEncodingMode::Gbk),
        ("蜡烛".to_string(), LegacyEncoding::Gbk)
    );
}

#[test]
fn forced_big5_mode_decodes_traditional_names_without_guessing() {
    let (bytes, _, had_errors) = encoding_rs::BIG5.encode("蠟燭");
    assert!(!had_errors);

    assert_eq!(
        decode_text_with_mode(&bytes, TextEncodingMode::Big5),
        ("蠟燭".to_string(), LegacyEncoding::Big5)
    );
}

#[test]
fn decodes_utf8_text_first() {
    assert_eq!(
        decode_text("簡體/简体".as_bytes()),
        ("簡體/简体".to_string(), LegacyEncoding::Utf8)
    );
}

#[test]
fn decodes_null_terminated_legacy_text() {
    let (bytes, _, had_errors) = encoding_rs::GBK.encode("服务器\0tail");
    assert!(!had_errors);

    assert_eq!(decode_zstr(&bytes, TextEncodingMode::Auto), "服务器");
}

#[test]
fn encodes_back_to_selected_codepage() {
    let encoded = encode_text("服务器", LegacyEncoding::Gbk);
    let (decoded, _, had_errors) = encoding_rs::GBK.decode(&encoded);

    assert!(!had_errors);
    assert_eq!(decoded, "服务器");
}

#[test]
fn a_zero_ends_a_text_in_every_mode() {
    for mode in [
        TextEncodingMode::Auto,
        TextEncodingMode::Big5,
        TextEncodingMode::Gbk,
    ] {
        assert_eq!(decode_zstr(b"plain\0\xFF\xFE tail", mode), "plain");
        assert_eq!(decode_zstr(b"plain", mode), "plain");
        assert_eq!(decode_zstr(b"\0plain", mode), "");
    }
    let bytes = encode_text("伺服器", LegacyEncoding::Big5);
    let mut longer = bytes.clone();
    longer.extend_from_slice(b"\0\x81\x40");
    assert_eq!(
        decode_zstr(&longer, TextEncodingMode::Big5),
        decode_zstr(&bytes, TextEncodingMode::Big5)
    );
}

#[test]
fn texts_in_memory_are_readable() {
    assert!(is_readable(b""));
    assert!(is_readable(b"plain"));
    assert!(is_readable(&[0xA4, 0xA4]));
}

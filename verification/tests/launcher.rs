use launcher::config::UserPrefs;
use launcher::http::{content_length, receive, HttpError, Received};
use launcher::i18n::{is_tab_class, retitle, set_and_translate_for_test};
use launcher::legacy_text::{
    codepage_hint_score, decode_text, encode_text, legacy_text_score, set_text_encoding_mode,
    strip_utf8_bom, text_encoding_mode, text_encoding_mode_from_u8, text_encoding_mode_to_u8,
    LegacyEncoding, ModeState, TextEncodingMode,
};
use launcher::logger::{
    init_channel, is_falsy_env, is_truthy_env, log_target, retain_reached, subscribe, Subscribers,
};
use launcher::names::{selection_index, sort_names, sorted_or};
use launcher::packet_proxy::{
    modpow32, packet_encrypt_config_from_server, session_xor, xor_bytes, PacketEncryptConfig,
};
use launcher::paths::{
    extension, file_name, file_stem, has_extension, join, parent, sibling, with_extension,
};
use launcher::rsa32::{
    ext_gcd, gcd, generate_with, is_prime, key_for, mod_inverse, modpow, Lcg,
};
use launcher::server_list::{AuxConfig, ServerInfo};

#[test]
fn preferences_load_back() {
    for (windowed, window_mode) in [(true, 4), (false, 5), (true, 6), (false, 7)] {
        let p = UserPrefs {
            windowed,
            window_mode,
        };
        assert_eq!(UserPrefs::load(Some(&p.save())), p);
    }
    let d = UserPrefs::default();
    assert_eq!(UserPrefs::load(None), d);
    assert_eq!(UserPrefs::load(Some("junk\nwindow_mode=99\n")), d);
}

#[test]
fn responses_are_bounded() {
    let mut data = vec![];
    assert_eq!(receive(&mut data, b"abc", 4), Received::SoFar(3));
    assert_eq!(receive(&mut data, b"de", 4), Received::TooMany(5));
    assert_eq!(data, b"abcde".to_vec());
    assert_eq!(receive(&mut data, b"", 4), Received::All);
    assert_eq!(content_length(Some(7)), 7);
    assert_eq!(content_length(None), 0);
    assert_eq!(
        HttpError::TooLarge(4).to_string(),
        "response 超過 4 bytes 上限"
    );
    assert_eq!(HttpError::Open.to_string(), "InternetOpenW 失敗");
    assert_eq!(
        HttpError::OpenUrl("http://x".to_string()).to_string(),
        "InternetOpenUrlW 失敗：http://x"
    );
    assert_eq!(HttpError::Read.to_string(), "InternetReadFile 失敗");
}

#[test]
fn titles_are_translated() {
    let title: Vec<u16> = "變身".encode_utf16().collect();
    assert_eq!(
        retitle(&title, TextEncodingMode::Gbk).unwrap(),
        "变身".encode_utf16().chain([0]).collect::<Vec<u16>>()
    );
    assert_eq!(retitle(&title, TextEncodingMode::Big5), None);
    let class: Vec<u16> = "SysTabControl32".encode_utf16().collect();
    assert!(is_tab_class(&class));
    assert!(!is_tab_class(&title));
    let mut state = ModeState::new();
    assert_eq!(set_and_translate_for_test(&mut state, "變身"), "变身");
}

#[test]
fn the_mode_reads_back() {
    let mut state = ModeState::new();
    for mode in [
        TextEncodingMode::Auto,
        TextEncodingMode::Big5,
        TextEncodingMode::Gbk,
    ] {
        assert_eq!(
            TextEncodingMode::from_config_value(mode.as_config_value()),
            mode
        );
        assert_eq!(
            text_encoding_mode_from_u8(text_encoding_mode_to_u8(mode)),
            mode
        );
        set_text_encoding_mode(&mut state, mode);
        assert_eq!(text_encoding_mode(&state), mode);
    }
}

#[test]
fn marks_and_scores() {
    assert_eq!(strip_utf8_bom(b"\xEF\xBB\xBFab"), b"ab");
    assert_eq!(strip_utf8_bom(b"ab"), b"ab");
    assert_eq!(
        decode_text(b"\xEF\xBB\xBFab"),
        ("ab".to_string(), LegacyEncoding::Utf8)
    );
    assert!(legacy_text_score("銀劍", false) > legacy_text_score("銀劍", true));
    assert!(codepage_hint_score("银剑", true) > codepage_hint_score("银剑", false));
    assert_eq!(encode_text("甲", LegacyEncoding::Utf8), "甲".as_bytes());
    assert_eq!(
        encode_text("蠟燭", LegacyEncoding::Big5),
        encoding_rs::BIG5.encode("蠟燭").0.to_vec()
    );
}

#[test]
fn switches_of_the_log() {
    assert!(is_truthy_env(" Yes "));
    assert!(!is_truthy_env("no"));
    assert!(is_falsy_env("OFF"));
    assert!(!is_falsy_env(""));
    assert_eq!(log_target("x", true), Some("launcher_debug.log"));
    assert_eq!(log_target("x", false), None);
}

#[test]
fn subscribers_that_are_gone_leave() {
    let mut s = Subscribers::new();
    let a = init_channel(&mut s);
    let b = subscribe(&mut s);
    let c = subscribe(&mut s);
    assert!(a != b && b != c && a != c);
    retain_reached(&mut s, &[true, false, true]);
    assert_eq!(s.ids, vec![a, c]);
}

#[test]
fn names_are_sorted() {
    let names: Vec<String> = ["b", "a", "c"].iter().map(|s| s.to_string()).collect();
    assert_eq!(sort_names(&names), vec!["a", "b", "c"]);
    assert_eq!(selection_index(&names, Some("c")), 2);
    assert_eq!(selection_index(&names, Some("z")), 0);
    assert_eq!(selection_index(&names, None), 0);
    assert_eq!(sorted_or(&[], "default"), vec!["default"]);
    assert_eq!(sorted_or(&names, "default"), vec!["a", "b", "c"]);
}

#[test]
fn packet_proxy_consumes_auth_and_xors_client_bytes() {
    let key = PacketEncryptConfig {
        rsa_d: 1,
        rsa_n: 1000,
    };
    let xor = session_xor(&42u32.to_le_bytes(), &key);
    let mut encrypted = [1, 2, 3];
    xor_bytes(&mut encrypted, 3, xor);
    assert_eq!(encrypted, [1 ^ 43, 2 ^ 43, 3 ^ 43]);
    xor_bytes(&mut encrypted, 2, xor);
    assert_eq!(encrypted, [1, 2, 3 ^ 43]);
}

#[test]
fn packets_stay_plain_where_switched_off() {
    let aux = AuxConfig::default();
    let server = ServerInfo::new("S", "a", 1);
    assert_eq!(packet_encrypt_config_from_server(&aux, &server), Ok(None));
    assert_eq!(modpow32(3, 5, 7), 5);
    assert_eq!(modpow32(3, 0, 7), 1);
}

#[test]
fn parts_of_paths() {
    assert_eq!(file_name("C:\\a\\b.txt").unwrap(), "b.txt");
    assert_eq!(file_name("C:/a/b.txt").unwrap(), "b.txt");
    assert_eq!(extension("C:\\a.d\\b").as_deref(), None);
    assert_eq!(extension("b.tar.gz").unwrap(), "gz");
    assert_eq!(extension(".hidden"), None);
    assert!(has_extension("T.PaK", "pak"));
    assert_eq!(file_stem("C:\\a\\b.txt").unwrap(), "b");
    assert_eq!(with_extension("C:\\a\\b.txt", "pak"), "C:\\a\\b.pak");
    assert_eq!(parent("C:\\a\\b.txt").unwrap(), "C:\\a");
    assert_eq!(join("C:\\a", "b"), "C:\\a\\b");
    assert_eq!(sibling(Some("C:\\a\\x.exe"), "b"), "C:\\a\\b");
    assert_eq!(sibling(None, "b"), "b");
}

#[test]
fn keys_of_the_generator() {
    assert_eq!(gcd(48, 36), 12);
    let (g, x, y) = ext_gcd(240, 46);
    assert_eq!(g, 2);
    assert_eq!(240 * x + 46 * y, 2);
    assert_eq!(mod_inverse(3, 11), Some(4));
    assert_eq!(mod_inverse(2, 4), None);
    let primes: Vec<u64> = (0..30).filter(|n| is_prime(*n)).collect();
    assert_eq!(primes, vec![2, 3, 5, 7, 11, 13, 17, 19, 23, 29]);
    assert!(key_for(40009, 40009, 3).is_none());

    let mut rng = Lcg::from_nanos(1);
    for _ in 0..3 {
        let key = generate_with(&mut rng);
        assert!(key.n >= 1 << 30);
        for m in [0u64, 1, 2, 42, 65535, key.n as u64 - 1] {
            let c = modpow(m, key.e as u64, key.n as u64);
            assert_eq!(modpow(c, key.d as u64, key.n as u64), m);
        }
    }
}

#[test]
fn comments_behind_preferences_are_passed_over() {
    let text = "[Settings]\nwindowed=true           ; 視窗化 (true/false/1/0/yes/no)\nwindow_mode=5           ; 視窗大小: 4=400x300, 5=800x600, 6=1200x900, 7=1600x1200\n";
    let p = UserPrefs::load(Some(text));
    assert!(p.windowed);
    assert_eq!(p.window_mode, 5);
    let p = UserPrefs::load(Some("windowed=no;true\nwindow_mode = 7 ; 6\n"));
    assert!(!p.windowed);
    assert_eq!(p.window_mode, 7);
}

#[test]
fn only_a_letter_names_a_drive() {
    assert_eq!(file_name("C:x.txt").unwrap(), "x.txt");
    assert_eq!(file_name("1:x.txt").unwrap(), "1:x.txt");
    assert_eq!(file_name("C:.."), None);
    assert_eq!(join("C:", "x"), "C:x");
    assert_eq!(join("1:", "x"), "1:\\x");
    assert_eq!(parent("C:x").unwrap(), "C:");
    assert_eq!(parent("1:x").unwrap(), "");
}

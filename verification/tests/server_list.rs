use launcher::legacy_text::TextEncodingMode;
use launcher::server_list::config::{parse_bool, parse_u32_clamped};
use launcher::server_list::{
    build_list_file, build_list_txt, build_xor_table, config_decrypt, config_encrypt,
    decrypt_config_text, encrypt_config_text, normalize_aux_config, parse_list_file,
    parse_list_txt, AuxConfig, LauncherConfig, ListError, ListFile, ServerInfo,
    DEFAULT_IMG_LIMIT_VALUE, DEFAULT_INVENTORY_LIMIT_VALUE, MAX_SERVERS, SERVER_LIST_KEY,
    SIZEOF_SERVER_INFO,
};

#[test]
fn encrypt_decrypt_roundtrip() {
    let original: Vec<u8> = (0..213u8).collect();
    let mut data = original.clone();
    config_encrypt(&SERVER_LIST_KEY, &mut data);
    assert_ne!(data, original);
    config_decrypt(&SERVER_LIST_KEY, &mut data);
    assert_eq!(data, original);
}

#[test]
fn server_info_roundtrip() {
    let info = ServerInfo::new("測試伺服器", "127.0.0.1", 7001);
    let bytes = info.to_bytes();
    assert_eq!(bytes.len(), SIZEOF_SERVER_INFO);

    let back = ServerInfo::from_bytes(&bytes).unwrap();
    assert_eq!(back.name, "測試伺服器");
    assert_eq!(back.ip, "127.0.0.1");
    assert_eq!(back.port, 7001);
    assert!(back.used);
}

#[test]
fn list_txt_roundtrip() {
    let original = vec![
        ServerInfo::new("Server1", "1.2.3.4", 2001),
        ServerInfo::new("Server2", "5.6.7.8", 2002),
    ];
    let txt = build_list_txt(&original).unwrap();
    let parsed = parse_list_txt(&txt).unwrap();
    assert_eq!(parsed.len(), 2);
    assert_eq!(parsed[0].name, "Server1");
    assert_eq!(parsed[0].ip, "1.2.3.4");
    assert_eq!(parsed[0].port, 2001);
    assert_eq!(parsed[1].name, "Server2");
    assert_eq!(parsed[1].port, 2002);
}

#[test]
fn list_file_with_aux_roundtrip() {
    let mut aux = AuxConfig::default();
    aux.multi_instance = !aux.multi_instance;
    aux.transform_file = !aux.transform_file;
    aux.lhx_aux_enabled = !aux.lhx_aux_enabled;
    aux.hp_mp_limit_enabled = false;
    aux.inventory_limit_enabled = false;
    aux.equip_ui_enabled = false;
    aux.img_limit_enabled = false;
    aux.dynamic_dialog_enabled = false;
    aux.inventory_limit_value = 300;
    aux.img_limit_value = 75000;
    aux.text_encoding = TextEncodingMode::Gbk;

    let original = ListFile {
        servers: vec![],
        aux: aux.clone(),
        launcher: LauncherConfig::default(),
    };
    let txt = build_list_file(&original).unwrap();
    assert!(txt.contains("[aux]"));
    assert!(txt.contains(&format!("multi_instance={}", aux.multi_instance)));
    assert!(txt.contains(&format!("transform_file={}", aux.transform_file)));
    assert!(txt.contains(&format!("hp_mp_limit_enabled={}", aux.hp_mp_limit_enabled)));
    assert!(txt.contains(&format!(
        "inventory_limit_enabled={}",
        aux.inventory_limit_enabled
    )));
    assert!(txt.contains(&format!("equip_ui_enabled={}", aux.equip_ui_enabled)));
    assert!(txt.contains(&format!("img_limit_enabled={}", aux.img_limit_enabled)));
    assert!(txt.contains(&format!(
        "inventory_limit_value={}",
        aux.inventory_limit_value
    )));
    assert!(txt.contains(&format!("img_limit_value={}", aux.img_limit_value)));
    assert!(txt.contains("text_encoding=gbk"));
    assert!(txt.contains(&format!(
        "dynamic_dialog_enabled={}",
        aux.dynamic_dialog_enabled
    )));
    assert!(!txt.contains("[list]"));

    let parsed = parse_list_file(&txt).unwrap();
    assert_eq!(parsed.aux.multi_instance, aux.multi_instance);
    assert_eq!(parsed.aux.transform_file, aux.transform_file);
    assert_eq!(parsed.aux.lhx_aux_enabled, aux.lhx_aux_enabled);
    assert_eq!(parsed.aux.hp_mp_limit_enabled, aux.hp_mp_limit_enabled);
    assert_eq!(
        parsed.aux.inventory_limit_enabled,
        aux.inventory_limit_enabled
    );
    assert_eq!(parsed.aux.equip_ui_enabled, aux.equip_ui_enabled);
    assert_eq!(parsed.aux.img_limit_enabled, aux.img_limit_enabled);
    assert_eq!(parsed.aux.inventory_limit_value, aux.inventory_limit_value);
    assert_eq!(parsed.aux.img_limit_value, aux.img_limit_value);
    assert_eq!(parsed.aux.text_encoding, aux.text_encoding);
    assert_eq!(
        parsed.aux.dynamic_dialog_enabled,
        aux.dynamic_dialog_enabled
    );
}

#[test]
fn core_patch_toggles_default_to_enabled_for_legacy_configs() {
    let parsed = parse_list_file("[aux]\npacket_encrypt=true\n").unwrap();
    assert!(parsed.aux.hp_mp_limit_enabled);
    assert!(parsed.aux.inventory_limit_enabled);
    assert!(parsed.aux.equip_ui_enabled);
    assert!(parsed.aux.img_limit_enabled);
    assert!(parsed.aux.dynamic_dialog_enabled);
    assert!(parsed.aux.pickup_toast_enabled);
    assert!(parsed.aux.exp_drift_enabled);
    assert_eq!(
        parsed.aux.inventory_limit_value,
        DEFAULT_INVENTORY_LIMIT_VALUE
    );
    assert_eq!(parsed.aux.img_limit_value, DEFAULT_IMG_LIMIT_VALUE);
    assert_eq!(parsed.aux.text_encoding, TextEncodingMode::Big5);
}

#[test]
fn pickup_and_exp_toggles_roundtrip() {
    let parsed = parse_list_file(
        "[aux]\npickup_toast_enabled=false\nexp_drift_enabled=false\n",
    )
    .unwrap();
    assert!(!parsed.aux.pickup_toast_enabled);
    assert!(!parsed.aux.exp_drift_enabled);
    let serialized = build_list_file(&parsed).unwrap();
    let reparsed = parse_list_file(&serialized).unwrap();
    assert!(!reparsed.aux.pickup_toast_enabled);
    assert!(!reparsed.aux.exp_drift_enabled);
}

#[test]
fn deprecated_anticheat_flags_are_forced_off_when_parsing_config() {
    let parsed = parse_list_file(
        "[aux]\nanti_cheat_basic=true\nanti_cheat_advanced=true\npacket_encrypt=true\n",
    )
    .unwrap();

    assert!(!parsed.aux.anti_cheat_basic);
    assert!(!parsed.aux.anti_cheat_advanced);
    assert!(parsed.aux.packet_encrypt);
}

#[test]
fn parse_legacy_list_section_still_works() {
    let txt = build_list_txt(&[ServerInfo::new("S", "1.1.1.1", 1234)]).unwrap();
    let parsed = parse_list_file(&txt).unwrap();
    assert_eq!(parsed.servers.len(), 1);
    assert_eq!(parsed.servers[0].port, 1234);
    assert!(parsed.aux.lhx_aux_enabled);
    assert!(!parsed.aux.packet_encrypt);
}

#[test]
fn home_listener_logic() {
    let mut a = AuxConfig::default();
    assert!(a.needs_home_listener());
    a.lhx_aux_enabled = false;
    assert!(!a.needs_home_listener());
}

#[test]
fn xor_table_first_byte() {
    let table = build_xor_table(&SERVER_LIST_KEY);
    assert_eq!(table[0], 0x7E ^ b'4');
}

#[test]
fn config_text_encrypt_roundtrip() {
    let plain =
        "[aux]\npacket_encrypt=true\nlhx_aux_enabled=false\n[launcher]\nactive_skin=default\n";
    let enc = encrypt_config_text(plain);
    assert!(enc.starts_with("ENC1:"));
    assert!(!enc.contains("[aux]"));
    let dec = decrypt_config_text(&enc).unwrap();
    assert_eq!(dec, plain);
}

#[test]
fn config_text_legacy_plaintext_pass_through() {
    let plain = "[aux]\npacket_encrypt=true\n";
    let dec = decrypt_config_text(plain).unwrap();
    assert_eq!(dec, plain);
}

#[test]
fn config_ini_full_pipeline() {
    let mut aux = AuxConfig::default();
    aux.packet_encrypt = true;
    aux.transform_file = true;
    aux.multi_instance = true;

    let original = ListFile {
        servers: vec![],
        aux: aux.clone(),
        launcher: LauncherConfig::default(),
    };
    let plaintext = build_list_file(&original).unwrap();
    let encrypted = encrypt_config_text(&plaintext);
    let decrypted = decrypt_config_text(&encrypted).unwrap();
    let parsed = parse_list_file(&decrypted).unwrap();
    assert_eq!(parsed.aux.packet_encrypt, true);
    assert_eq!(parsed.aux.transform_file, true);
    assert_eq!(parsed.aux.multi_instance, true);
    assert_eq!(parsed.aux.lhx_aux_enabled, aux.lhx_aux_enabled);
}

#[test]
fn encrypted_bytes() {
    let mut data: Vec<u8> = (0..20u8).collect();
    config_encrypt(&SERVER_LIST_KEY, &mut data);
    assert_eq!(
        data,
        vec![
            0x65, 0x8E, 0x2B, 0x0B, 0xCD, 0x99, 0xCB, 0x2C, 0x33, 0x88, 0xFF, 0x52, 0x97, 0x09,
            0xEB, 0xF2, 0x5D, 0xEB, 0x20, 0x8F,
        ]
    );
    assert_eq!(
        encrypt_config_text("[aux]\npacket_encrypt=true\n"),
        "ENC1:NUJPvSQh+wTSXwHiIIFROj+DQug2dw/TfVc=\n"
    );
}

#[test]
fn server_bytes() {
    let mut info = ServerInfo::new("甲😀", "1.2.3.4", -2);
    info.key = [7; 16];
    info.encrypt = true;
    info.bdfile = "d".to_string();
    info.randkey = true;
    info.rsa_e = 0x0102_0304;
    info.rsa_d = 5;
    info.rsa_n = 6;
    let b = info.to_bytes();
    assert_eq!(&b[..8], &[0x32, 0x75, 0x3D, 0xD8, 0x00, 0xDE, 0, 0]);
    assert_eq!(&b[64..72], b"1.2.3.4\0");
    assert_eq!(&b[96..100], &[0xFE, 0xFF, 0xFF, 0xFF]);
    assert_eq!(b[100], 1);
    assert_eq!(&b[101..117], &[7; 16]);
    assert_eq!(&b[117..120], &[1, 0, 0]);
    assert_eq!(&b[120..124], &[0x64, 0, 0, 0]);
    assert_eq!(&b[184..197], &[1, 4, 3, 2, 1, 5, 0, 0, 0, 6, 0, 0, 0]);
    assert_eq!(&b[197..], &[0; 16]);

    let back = ServerInfo::from_bytes(&b).unwrap();
    assert_eq!(back.name, "甲😀");
    assert_eq!(back.port, -2);
    assert_eq!(back.key, [7; 16]);
    assert_eq!(back.bdfile, "d");
    assert!(back.randkey && back.encrypt && !back.usebd);
    assert_eq!((back.rsa_e, back.rsa_d, back.rsa_n), (0x0102_0304, 5, 6));
}

#[test]
fn long_names_are_cut() {
    let info = ServerInfo::new(&"名".repeat(40), &"9".repeat(40), 1);
    let back = ServerInfo::from_bytes(&info.to_bytes()).unwrap();
    assert_eq!(back.name, "名".repeat(31));
    assert_eq!(back.ip, "9".repeat(31));
}

#[test]
fn list_errors() {
    let short = ServerInfo::from_bytes(&[0; 212]).unwrap_err();
    assert_eq!(short, ListError::TooShort(212));
    assert_eq!(short.to_string(), "資料太短：212 < 213");

    let many = vec![ServerInfo::new("S", "a", 1); MAX_SERVERS + 1];
    let many = build_list_txt(&many).unwrap_err();
    assert_eq!(many, ListError::TooMany(9));
    assert_eq!(many.to_string(), "最多 8 個伺服器，傳入 9 個");

    let open = parse_list_txt("[list]\nServerData0=***\n").unwrap_err();
    assert!(matches!(open, ListError::Base64(_)));

    assert_eq!(
        decrypt_config_text("ENC1:***"),
        Err(ListError::ConfigBase64)
    );
    assert_eq!(
        ListError::ConfigBase64.to_string(),
        "config.ini base64 解碼失敗"
    );
    assert_eq!(decrypt_config_text("ENC1:gICA"), Err(ListError::ConfigUtf8));
    assert_eq!(
        ListError::ConfigUtf8.to_string(),
        "config.ini 解密後不是有效 UTF-8"
    );
    assert_eq!(decrypt_config_text("hello"), Err(ListError::ConfigFormat));
    assert_eq!(
        ListError::ConfigFormat.to_string(),
        "config.ini 格式無法辨識（既非 ENC1: 加密也非 INI 明文）"
    );
}

#[test]
fn a_full_list_is_read_back() {
    let servers: Vec<ServerInfo> = (0..8)
        .map(|i| ServerInfo::new(&format!("伺服器{i}"), "10.0.0.1", 7000 + i))
        .collect();
    let back = parse_list_txt(&build_list_txt(&servers).unwrap()).unwrap();
    assert_eq!(back.len(), 8);
    for i in 0..8 {
        assert_eq!(back[i].name, servers[i].name);
        assert_eq!(back[i].port, servers[i].port);
    }
}

#[test]
fn settings_are_read_back() {
    let mut file = ListFile::default();
    file.aux.anti_cheat_basic = true;
    file.aux.packet_encrypt = true;
    file.aux.inventory_limit_value = 999;
    file.aux.text_encoding = TextEncodingMode::Auto;
    file.launcher.active_skin = "dark".to_string();
    file.launcher.announcement_enabled = true;
    file.launcher.announcement_url = "http://a/?x=1".to_string();
    file.launcher.official_url = "http://o".to_string();
    let back = parse_list_file(&build_list_file(&file).unwrap()).unwrap();
    assert_eq!(back.aux, normalize_aux_config(file.aux));
    assert!(!back.aux.anti_cheat_basic);
    assert_eq!(back.launcher.active_skin, "dark");
    assert!(back.launcher.announcement_enabled);
    assert_eq!(back.launcher.announcement_url, "http://a/?x=1");
    assert_eq!(back.launcher.official_url, "http://o");
}

#[test]
fn switches_and_limits() {
    for yes in ["1", "true", " TRUE ", "yes", "on"] {
        assert!(parse_bool(yes), "{yes}");
    }
    for no in ["0", "false", "", "maybe"] {
        assert!(!parse_bool(no), "{no}");
    }
    assert_eq!(parse_u32_clamped(" 12 ", 5, 1, 10), 10);
    assert_eq!(parse_u32_clamped("0", 5, 1, 10), 1);
    assert_eq!(parse_u32_clamped("7", 5, 1, 10), 7);
    assert_eq!(parse_u32_clamped("x", 5, 1, 10), 5);
}

#[test]
fn white_space_in_stored_settings_does_not_count() {
    for plain in ["", "[aux]\npacket_encrypt=true\n"] {
        let enc = encrypt_config_text(plain);
        assert!(enc.starts_with("ENC1:"));
        assert_eq!(decrypt_config_text(&enc).unwrap(), plain);
        let mut loose = String::from(" \r\n\tENC1:");
        for c in enc["ENC1:".len()..].chars() {
            loose.push(c);
            loose.push_str(" \n");
        }
        assert_eq!(decrypt_config_text(&loose).unwrap(), plain);
    }
}

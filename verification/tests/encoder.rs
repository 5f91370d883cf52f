use launcher::encoder::commands::{Command, MorphArgs};
use launcher::encoder::form::{
    apply_aux, apply_key, choose_servers, collect_aux, fill_form, fill_slots, flush_form,
    init_servers, pack_properties, save_list,
};
use launcher::encoder::options::{
    morph_output_name, selected_text_encoding_mode, takes_typed_table, text_encoding_mode_index,
};
use launcher::encoder::pak::{gen_random_key, key_from_nanos};
use launcher::encoder::{
    command_of, describe_servers, encode_morph_to_pak, gen_list, is_our_morph_pak,
    is_selectable_morph_pak_path, lock_encoder_server_options, morph_sql_button_enabled,
    morph_version_options, normalize_encoder_aux_options, parse_gen_args, parse_morph_args,
    prepare_morph_plaintext, sibling_output_path_for_exe, spr_action_sql_output_path_for_exe,
    validate_morph_source_path, EncodeError,
};
use launcher::inject::{is_valid_pak, load_inject_file, InjectError};
use launcher::legacy_text::TextEncodingMode;
use launcher::morph_auth::morph_mac;
use launcher::rsa32::Rsa32;
use launcher::server_list::{parse_list_txt, AuxConfig, ServerInfo};

fn words(args: &[&str]) -> Vec<String> {
    args.iter().map(|a| a.to_string()).collect()
}

#[test]
fn encoder_aux_options_lock_anticheat_before_export() {
    let mut aux = AuxConfig::default();
    aux.packet_encrypt = true;
    aux.anti_cheat_basic = true;
    aux.anti_cheat_advanced = true;
    aux.transform_file = true;
    aux.multi_instance = true;
    aux.move_packet_no_encrypt = true;
    aux.lhx_aux_enabled = true;

    let locked = normalize_encoder_aux_options(aux);

    assert!(locked.packet_encrypt);
    assert!(locked.lhx_aux_enabled);
    assert!(locked.move_packet_no_encrypt);
    assert!(!locked.anti_cheat_basic);
    assert!(!locked.anti_cheat_advanced);
    assert!(locked.transform_file);
    assert!(locked.multi_instance);
}

#[test]
fn locked_server_options_strip_legacy_dll_fields_before_export() {
    let mut server = ServerInfo::new("Server", "127.0.0.1", 7001);
    server.usehelper = true;
    server.usebd = true;
    server.bdfile = "legacy.dll".to_string();
    server.encrypt = true;
    server.rsa_d = 123;
    server.rsa_n = 456;

    let locked = lock_encoder_server_options(server);

    assert!(!locked.usehelper);
    assert!(!locked.usebd);
    assert!(locked.bdfile.is_empty());
    assert!(locked.encrypt);
    assert_eq!(locked.rsa_d, 123);
    assert_eq!(locked.rsa_n, 456);
}

#[test]
fn morph_tool_versions_are_limited_to_tw13081901_and_sql_is_available() {
    assert_eq!(morph_version_options(), vec!["TW13081901".to_string()]);
    assert!(!morph_version_options().iter().any(|v| v == "15041620"));
    assert!(morph_sql_button_enabled());
}

#[test]
fn morph_combo_accepts_pak_by_extension_without_mac_scan() {
    assert!(is_selectable_morph_pak_path("TW13081901.PAK"));
    assert!(!is_selectable_morph_pak_path("TW13081901.txt"));
}

#[test]
fn morph_encode_rejects_pak_source_to_prevent_double_wrapping() {
    let err = validate_morph_source_path("TW13081901.pak").unwrap_err();
    assert!(
        err.to_string().contains("TW13081901.txt"),
        "unexpected error: {err:?}"
    );
}

#[test]
fn encoder_passthrough_does_not_preprocess_morph_text() {
    let raw = b"100 0 41210\n\
#100 32=777 high_action_walk\n\
\t0.walk(1 4,0.0:2 0.1:2 0.2:2 0.3:2)\n\
\t0-1.RunL(1 4,16.0:2 16.1:2 16.2:2 16.3:2)\n\
\t0-2.RunR(1 4,24.0:2 24.1:2 24.2:2 24.3:2)\n\
\t120.supported(1 4,10.0:2 10.1:2 10.2:2 10.3:2)\n\
\t121.unsupported(1 4,11.0:2 11.1:2 11.2:2 11.3:2)\n";

    let prepared = prepare_morph_plaintext(raw).unwrap();
    assert_eq!(prepared.as_slice(), raw);
}

#[test]
fn spr_action_sql_is_written_next_to_encoder_exe() {
    assert_eq!(
        spr_action_sql_output_path_for_exe(Some(r"D:\login3.8pro\launcher\encoder.exe")),
        String::from(r"D:\login3.8pro\launcher\spr_action.sql")
    );
}

#[test]
fn encoder_outputs_stay_next_to_encoder_exe() {
    assert_eq!(
        sibling_output_path_for_exe(
            Some(r"D:\login3.8pro\launcher\編碼器\encoder.exe"),
            "config.ini"
        ),
        String::from(r"D:\login3.8pro\launcher\編碼器\config.ini")
    );
}

#[test]
fn the_first_argument_names_the_command() {
    assert!(matches!(command_of(&words(&["encoder"])), Command::Window));
    assert!(matches!(command_of(&words(&["encoder", "gen"])), Command::Gen));
    assert!(matches!(command_of(&words(&["encoder", "dec"])), Command::Dec));
    assert!(matches!(
        command_of(&words(&["encoder", "morph", "x"])),
        Command::Morph
    ));
    assert!(matches!(
        command_of(&words(&["encoder", "verify"])),
        Command::Verify
    ));
    assert!(matches!(command_of(&words(&["encoder", "-h"])), Command::Help));
    match command_of(&words(&["encoder", "list"])) {
        Command::Unknown(s) => assert_eq!(s, "list"),
        _ => panic!("no such command"),
    }
}

#[test]
fn arguments_of_gen() {
    let g = parse_gen_args(&words(&["--ip", "1.2.3.4", "--port", "7001"])).unwrap();
    assert_eq!(g.name, "Server");
    assert_eq!(g.output, "config.ini");
    let servers = parse_list_txt(&gen_list(&g).unwrap()).unwrap();
    assert_eq!(servers.len(), 1);
    assert_eq!(servers[0].ip, "1.2.3.4");
    assert_eq!(servers[0].port, 7001);
    assert_eq!(servers[0].name, "Server");

    let named = parse_gen_args(&words(&[
        "--name", "甲", "-o", "x.txt", "--ip", "h", "--port", "-5",
    ]))
    .unwrap();
    assert_eq!(named.name, "甲");
    assert_eq!(named.output, "x.txt");
    assert_eq!(named.port, -5);

    let e = parse_gen_args(&words(&["--port", "1"])).unwrap_err();
    assert_eq!(e.to_string(), "缺少 --ip");
    let e = parse_gen_args(&words(&["--ip", "h", "--port", "x"])).unwrap_err();
    assert_eq!(e.to_string(), "缺少 --port");
    let e = parse_gen_args(&words(&["--what"])).unwrap_err();
    assert_eq!(e.to_string(), "未知參數：--what");
}

fn morph(args: &[&str]) -> MorphArgs {
    parse_morph_args(&words(args)).unwrap()
}

#[test]
fn arguments_of_morph() {
    let m = morph(&["C:\\g\\t.txt"]);
    assert_eq!(m.output, "C:\\g\\t.pak");
    assert!(m.compress);
    assert_eq!(m.level, 1);
    let m = morph(&["--no-compress", "t.txt", "-o", "o.bin", "-l", "9"]);
    assert_eq!(m.output, "o.bin");
    assert!(!m.compress);
    assert_eq!(m.level, 9);

    let e = parse_morph_args(&[]).unwrap_err();
    assert_eq!(e.to_string(), "缺少輸入檔");
    let e = parse_morph_args(&words(&["t", "-l", "x"])).unwrap_err();
    assert_eq!(e.to_string(), "--level 需要數字 0-9");
    let e = parse_morph_args(&words(&["t", "-l", "10"])).unwrap_err();
    assert_eq!(e.to_string(), "--level 需要數字 0-9");
    let e = parse_morph_args(&words(&["t", "u"])).unwrap_err();
    assert_eq!(e.to_string(), "未知參數：u");
}

#[test]
fn servers_in_words() {
    assert_eq!(
        describe_servers(&[]),
        "[警告] 沒有找到任何 ServerData\n"
    );
    assert_eq!(
        describe_servers(&[ServerInfo::new("甲", "1.2.3.4", 7001)]),
        "\n=== 伺服器 0 ===\n  名稱:     甲\n  IP:       1.2.3.4\n  端口:     7001\n  \
         啟用:     true\n\n共 1 個伺服器（上限 8）\n"
    );
}

#[test]
fn packed_tables_are_read_back() {
    let key = key_from_nanos(123_456_789);
    let raw = b"100 0 41210\n#1 2 x\n\t0.walk(1 1,0.0:2)\n";
    for (compress, level) in [(true, 1), (true, 9), (true, 0), (false, 1)] {
        let done = encode_morph_to_pak("t.txt", raw, compress, level, &key).unwrap();
        assert_eq!(done.stat.orig_len, raw.len() + 1);
        assert_eq!(done.stat.pak_size, done.pak.len());
        assert_eq!(done.stat.key_hex.len(), 32);
        assert!(is_our_morph_pak(Some(&done.pak)));
        assert!(is_valid_pak(Some(&done.pak)));
        let table = load_inject_file("t.pak", &done.pak, false).unwrap();
        assert_eq!(table[0], b'S');
        assert_eq!(&table[1..1 + raw.len()], raw);

        let mut damaged = done.pak.clone();
        damaged[21] ^= 1;
        assert!(!is_our_morph_pak(Some(&damaged)));
        assert!(!is_valid_pak(Some(&damaged)));
        assert_eq!(
            load_inject_file("t.pak", &damaged, false),
            Err(InjectError::BadMac)
        );
    }
    assert!(!is_our_morph_pak(None));
    assert!(!is_valid_pak(None));
    assert_eq!(
        encode_morph_to_pak("t.PAK", raw, true, 1, &key).unwrap_err(),
        EncodeError::PackedSource
    );
    assert_eq!(EncodeError::Zlib.to_string(), "zlib 寫入失敗");
    assert_eq!(
        EncodeError::TooLarge.to_string(),
        "檔案過大，無法寫入 4-byte 長度欄位"
    );
}

#[test]
fn damaged_tables_are_refused() {
    assert_eq!(
        load_inject_file("C:\\t.Pak", &[0; 35], true),
        Err(InjectError::TooSmall(35))
    );
    assert_eq!(
        InjectError::TooSmall(35).to_string(),
        ".pak file too small: 35 bytes"
    );
    assert_eq!(
        InjectError::BadMac.to_string(),
        "invalid .pak MAC; please rebuild with launcher/encoder.exe"
    );

    let mut long = vec![0u8; 36];
    long[..4].copy_from_slice(&100_000_001u32.to_le_bytes());
    let mac = morph_mac(&long);
    long.extend_from_slice(&mac);
    assert_eq!(
        load_inject_file("t.pak", &long, true),
        Err(InjectError::BadLength(100_000_001))
    );
    assert!(!is_valid_pak(Some(&long)));
    assert_eq!(
        InjectError::BadLength(100_000_001).to_string(),
        "invalid .pak orig_len=100000001"
    );

    let mut junk = vec![7u8; 36];
    junk[..4].copy_from_slice(&1u32.to_le_bytes());
    let mac = morph_mac(&junk);
    junk.extend_from_slice(&mac);
    assert!(is_valid_pak(Some(&junk)));
    assert_eq!(
        load_inject_file("t.pak", &junk, true),
        Err(InjectError::Zlib)
    );

    assert_eq!(
        load_inject_file("t.txt", b"ab", true).unwrap(),
        b"Sab".to_vec()
    );
}

#[test]
fn keys_from_the_clock() {
    assert_eq!(
        key_from_nanos(123_456_789),
        [
            0xB0, 0x20, 0xDD, 0xC7, 0x7F, 0x10, 0xBD, 0x9C, 0xD5, 0xC7, 0x9B, 0x2D, 0x67, 0x32,
            0x75, 0xAF,
        ]
    );
    assert_eq!(gen_random_key().len(), 16);
}

#[test]
fn a_server_goes_through_the_form() {
    let mut s = ServerInfo::new("甲", "1.2.3.4", 7001);
    s.rsa_e = 3;
    s.rsa_d = 5;
    s.rsa_n = 7;
    let f = fill_form(&s);
    assert_eq!(
        (f.name.as_str(), f.ip.as_str(), f.port.as_str()),
        ("甲", "1.2.3.4", "7001")
    );
    assert_eq!(f.rsa_n, "7");
    let back = flush_form(s.clone(), &f.name, &f.ip, &f.port);
    assert_eq!(back.name, s.name);
    assert_eq!(back.port, s.port);
    assert_eq!(back.rsa_d, 5);
}

#[test]
fn settings_go_through_the_form() {
    let mut a = AuxConfig::default();
    a.text_encoding = TextEncodingMode::Gbk;
    a.inventory_limit_value = 300;
    a.img_limit_value = 70000;
    let (checked, inventory, img, index) = apply_aux(&a);
    assert_eq!(inventory, "300");
    assert_eq!(img, "70000");
    let multi = checked.multi_instance;
    assert_eq!(collect_aux(checked, &inventory, &img, Some(index), multi), a);
    for mode in [TextEncodingMode::Big5, TextEncodingMode::Gbk] {
        let i = text_encoding_mode_index(mode);
        assert_eq!(selected_text_encoding_mode(Some(i)), mode);
    }
    assert_eq!(text_encoding_mode_index(TextEncodingMode::Auto), 1);
    assert_eq!(selected_text_encoding_mode(None), TextEncodingMode::Big5);
}

#[test]
fn slots_of_the_list() {
    assert_eq!(init_servers().len(), 8);
    let some = fill_slots(vec![ServerInfo::new("A", "a", 1)]);
    assert_eq!(some.len(), 8);
    assert_eq!(some[0].name, "A");
    assert!(!some[7].used);
    let kept = save_list(init_servers(), 2, ServerInfo::new("B", "b", 2)).unwrap();
    assert!(kept.iter().any(|s| s.name == "B"));
    let chosen = choose_servers(vec![], vec![ServerInfo::new("C", "c", 3)]);
    assert_eq!(chosen[0].name, "C");
    let chosen = choose_servers(
        vec![ServerInfo::new("D", "d", 4)],
        vec![ServerInfo::new("C", "c", 3)],
    );
    assert_eq!(chosen[0].name, "D");
}

#[test]
fn keys_of_a_server() {
    let key = Rsa32 {
        e: 65537,
        d: 11,
        n: 13,
    };
    let s = apply_key(ServerInfo::new("A", "a", 1), &key);
    assert_eq!((s.rsa_e, s.rsa_d, s.rsa_n), (65537, 11, 13));
    assert_eq!(
        pack_properties(&key),
        "; 由 encoder.exe 產生 — 伺服器綑綁金鑰\n\
         ; 把這個檔案放到伺服器的 ./config/pack.properties\n\
         ; 客戶端的 D/N 已經寫進 ServerInfo（list.txt），不需要客戶端讀這個檔\n\
         Autoentication=True\nRSA_KEY_E=65537\nRSA_KEY_D=11\nRSA_KEY_N=13\n"
    );
}

#[test]
fn names_of_output_files() {
    assert_eq!(morph_output_name("C:\\g\\TW13081901.txt"), "TW13081901.pak");
    assert_eq!(sibling_output_path_for_exe(None, "x"), "x");
    assert_eq!(spr_action_sql_output_path_for_exe(None), "spr_action.sql");
    assert!(takes_typed_table("t.txt", true));
    assert!(!takes_typed_table("t.txt", false));
}

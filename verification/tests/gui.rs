use launcher::config::UserPrefs;
use launcher::gui::events::{
    game_ended, handle_event, handle_message, page_data, window_mode_or_default, Effect, JsMessage,
    Reply, UserEvent,
};
use launcher::gui::install::{begin_install, update_begun, update_ended, Stage};
use launcher::gui::json::to_json;
use launcher::gui::launch::{
    build_launch_event, check_server, choose_table, table_path, wanted_patches, LaunchError, Patch,
    TableChoice,
};
use launcher::gui::scripts::{
    build_alert_script, build_fill_script, build_lock_script, build_message_script,
    build_progress_script, build_servers_json, build_status_script,
};
use launcher::gui::settings::{load_list_file, probe_target};
use launcher::gui::skin::{
    missing_skin_text, serve_skin_file, skin_index, skin_status, SkinRequest,
};
use launcher::gui::update::{
    archive_file, auto_update_url, begin_update, check_auto_update, download_text, end_update,
    installed_percent, list_update_url, missing_archive_text, plan_update,
    progress, read_local_version, short_error, unpack_text, write_local_version,
};
use launcher::http::UpdateInfo;
use launcher::server_list::{
    build_list_file, build_list_txt, encrypt_config_text, AuxConfig, LauncherConfig, ListFile,
    ServerInfo,
};

fn info(version: u32, zips: &[(u32, &str)]) -> UpdateInfo {
    UpdateInfo {
        server_version: version,
        zips: zips.iter().map(|z| (z.0, z.1.to_string())).collect(),
        source_url: "http://x/Update.ini".to_string(),
    }
}

#[test]
fn json_text_is_escaped() {
    let s = "a\"b\\c\nd\te\u{1}f\u{8}\u{c}\r/é字😀\u{7f}";
    assert_eq!(
        to_json(s),
        "\"a\\\"b\\\\c\\nd\\te\\u0001f\\b\\f\\r/é字😀\u{7f}\""
    );
    assert_eq!(to_json(s), serde_json::to_string(s).unwrap());
    let all: String = (0u8..0x80).map(|b| b as char).collect();
    assert_eq!(to_json(&all), serde_json::to_string(&all).unwrap());
    assert_eq!(to_json(""), "\"\"");
}

#[test]
fn servers_are_listed_as_json() {
    let mut hidden = ServerInfo::new("B\"", "b", -1);
    hidden.used = false;
    assert_eq!(
        build_servers_json(&[ServerInfo::new("甲", "1.2.3.4", 7001), hidden]),
        "[{\"name\":\"甲\",\"ip\":\"1.2.3.4\",\"port\":7001,\"used\":true},\
         {\"name\":\"B\\\"\",\"ip\":\"b\",\"port\":-1,\"used\":false}]"
    );
    assert_eq!(build_servers_json(&[]), "[]");
}

#[test]
fn the_page_is_filled_by_one_script() {
    let prefs = UserPrefs {
        windowed: true,
        window_mode: 6,
    };
    assert_eq!(
        build_fill_script(&[], "a", "o", "c", &prefs),
        "if(window.lineage){\
         window.lineage.setServers([]);\
         window.lineage.setVersion('0.1.0');\
         if(window.lineage.setAnnouncement)window.lineage.setAnnouncement(\"a\");\
         if(window.lineage.setLinks)window.lineage.setLinks({official:\"o\",support:\"c\"});\
         if(window.lineage.setPrefs)window.lineage.setPrefs({\"windowed\":true,\"windowMode\":6});\
         }"
    );
}

#[test]
fn small_scripts() {
    assert_eq!(
        build_status_script(3, true),
        "if(window.lineage&&window.lineage.setServerStatus)window.lineage.setServerStatus(3,true);"
    );
    assert_eq!(
        build_alert_script("it's a \\ b\nc"),
        "window.alert('it\\'s a \\\\ b\\nc')"
    );
    assert_eq!(
        build_progress_script(7, 80),
        "if(window.lineage&&window.lineage.setProgress)window.lineage.setProgress(7,80);"
    );
    assert_eq!(
        build_lock_script(false),
        "if(window.lineage&&window.lineage.setLocked)window.lineage.setLocked(false);"
    );
    assert_eq!(
        build_message_script("嗨"),
        "if(window.lineage&&window.lineage.setStatus)window.lineage.setStatus(\"嗨\");"
    );
}

#[test]
fn the_local_version_is_read_and_written() {
    assert_eq!(write_local_version(12), "[Update]\r\nVersion=12\r\n");
    assert_eq!(read_local_version(Some(&write_local_version(12))), 12);
    assert_eq!(read_local_version(None), 0);
    assert_eq!(
        read_local_version(Some("; version=9\nfoo\nver = x\n VER= 8 \nversion=7")),
        8
    );
    assert_eq!(read_local_version(Some("[version=3")), 0);
}

#[test]
fn updates_are_looked_for_where_switched_on() {
    let mut cfg = LauncherConfig::default();
    cfg.list_update_url = "  http://x/list.txt ".to_string();
    cfg.auto_update_url = " ".to_string();
    cfg.list_update_enabled = false;
    cfg.auto_update_enabled = true;
    assert_eq!(list_update_url(&cfg), None);
    assert_eq!(auto_update_url(&cfg), None);
    cfg.list_update_enabled = true;
    cfg.auto_update_url = "http://x/U.ini".to_string();
    assert_eq!(list_update_url(&cfg).unwrap(), "http://x/list.txt");
    assert_eq!(auto_update_url(&cfg).unwrap(), "http://x/U.ini");
}

#[test]
fn only_a_newer_version_is_an_update() {
    let body = b"[Update]\nversion=3\n3=c.zip\n1=\xFFa.zip\n";
    let found = check_auto_update(body, "http://x/U.ini", 2).unwrap();
    assert_eq!(found.server_version, 3);
    assert_eq!(
        found.zips,
        vec![
            (1, "\u{FFFD}a.zip".to_string()),
            (3, "c.zip".to_string())
        ]
    );
    assert_eq!(found.source_url, "http://x/U.ini");
    assert!(check_auto_update(body, "", 3).is_none());
    assert!(check_auto_update(b"1=a.zip", "", 0).is_none());
}

#[test]
fn archives_are_taken_in_order_of_version() {
    let u = info(4, &[(2, "b"), (3, "c"), (4, "d")]);
    assert_eq!(
        plan_update(&u, 1),
        Ok(vec![
            (2, "b".to_string()),
            (3, "c".to_string()),
            (4, "d".to_string())
        ])
    );
    assert_eq!(plan_update(&u, 0), Err(1));
    assert_eq!(plan_update(&u, 4), Ok(vec![]));
    assert_eq!(
        missing_archive_text(1),
        "Update.ini 缺少版本 1 的 zip 條目"
    );
}

#[test]
fn progress_grows_to_eighty() {
    assert_eq!(progress(0, 4, 50, 100), (50, 10));
    assert_eq!(progress(1, 4, 50, 0), (0, 20));
    assert_eq!(progress(3, 4, 300, 100), (100, 80));
    assert_eq!(installed_percent(0, 4), 20);
    assert_eq!(installed_percent(3, 4), 80);
    assert_eq!(installed_percent(99, 100), 0);
}

#[test]
fn an_update_goes_step_by_step() {
    let u = info(3, &[(2, "b.zip"), (3, "http://y/c.zip")]);
    let mut run = begin_install(&u, 1).unwrap();
    let mut seen = vec![];
    let mut shown = vec![];
    while run.stage != Stage::Done && run.stage != Stage::Failed {
        seen.push(run.stage);
        if run.stage == Stage::Fetch {
            shown.push(run.fetched(1, 2));
        }
        let well = run.stage != Stage::Remove;
        shown.extend(run.advance(well));
    }
    assert_eq!(run.stage, Stage::Done);
    assert_eq!(
        seen,
        vec![
            Stage::Fetch,
            Stage::Keep,
            Stage::Unpack,
            Stage::Remove,
            Stage::Fetch,
            Stage::Keep,
            Stage::Unpack,
            Stage::Remove,
            Stage::Tool,
            Stage::Record,
        ]
    );
    assert_eq!(
        shown,
        vec![(50, 20), (100, 40), (50, 60), (100, 80), (100, 100)]
    );
}

#[test]
fn a_failed_step_ends_the_update() {
    let u = info(3, &[(2, "b.zip"), (3, "http://y/c.zip")]);
    let mut run = begin_install(&u, 1).unwrap();
    assert_eq!(run.url(), "http://x/b.zip");
    assert_eq!(run.file(), "patch_v2.zip");
    assert_eq!(run.status(true).unwrap(), "下載 v2（1/2）...");
    assert_eq!(run.failure(""), "下載 v2 失敗：http://x/b.zip");
    run.advance(true);
    assert_eq!(run.failure("C:\\patch_v2.zip"), "寫入 C:\\patch_v2.zip 失敗");
    assert_eq!(run.status(true), None);
    run.advance(true);
    assert_eq!(run.status(true).unwrap(), "解壓 v2（1/2）...");
    assert_eq!(run.failure(""), "解壓 v2 失敗");
    assert_eq!(run.advance(false), None);
    assert_eq!(run.stage, Stage::Failed);
    run.advance(true);
    assert_eq!(run.stage, Stage::Failed);

    assert_eq!(
        begin_install(&u, 0).unwrap_err(),
        "Update.ini 缺少版本 1 的 zip 條目"
    );
    let mut last = begin_install(&u, 3).unwrap();
    assert_eq!(last.status(true).unwrap(), "吃檔工具執行中...");
    assert_eq!(last.status(false), None);
    assert!(last.runs_tool(true));
    assert!(!last.runs_tool(false));
    assert!(!run.runs_tool(true));
    assert_eq!(last.failure(""), "啟動 eat.exe 失敗");
    last.advance(true);
    assert_eq!(last.failure(""), "寫回 Login.ini.Updated = v3 失敗");
}

#[test]
fn the_window_is_told_of_an_update() {
    let (begins, said) = update_begun(&info(5, &[]));
    assert!(!begins);
    assert!(matches!(said[1], UserEvent::SetLocked(false)));
    let (begins, said) = update_begun(&info(5, &[(5, "e")]));
    assert!(begins);
    assert_eq!(said.len(), 1);
    let failed = update_ended(5, Some("x"));
    assert!(matches!(
        failed[1],
        UserEvent::PushProgress {
            current_pct: 0,
            total_pct: 0
        }
    ));
    assert!(matches!(failed[2], UserEvent::SetLocked(false)));
    assert_eq!(update_ended(5, None).len(), 2);
}

#[test]
fn update_texts() {
    assert_eq!(archive_file(7), "patch_v7.zip");
    assert_eq!(
        begin_update(&info(5, &[])),
        (
            false,
            "發現新資源版本 v5 但 Update.ini 沒有 zip 條目，請聯絡管理者".to_string()
        )
    );
    assert_eq!(
        begin_update(&info(5, &[(5, "e")])),
        (true, "發現新資源版本 v5，正在下載更新...".to_string())
    );
    assert_eq!(
        end_update(5, Some("x")),
        "更新失敗：x（可重試或聯絡管理者）"
    );
    assert_eq!(
        end_update(5, None),
        "更新完成 ✓  資源版本 v5 已就緒，可以進入遊戲"
    );
    assert_ne!(download_text(3, 0, 2), unpack_text(3, 0, 2));
}

#[test]
fn causes_stand_in_one_line() {
    assert_eq!(short_error(&["a".to_string(), "b".to_string()]), "a / b");
    assert_eq!(short_error(&["a".to_string()]), "a");
}

#[test]
fn skin_requests_stay_inside() {
    for bad in ["/../secret.txt", "/a/../../b.css", "/..\\x"] {
        assert!(matches!(serve_skin_file(bad), SkinRequest::Forbidden));
    }
    match serve_skin_file("/") {
        SkinRequest::File(rel, kind) => {
            assert_eq!(rel, "index.html");
            assert!(kind.starts_with("text/html"));
        }
        SkinRequest::Forbidden => panic!("the page itself"),
    }
    match serve_skin_file("/img/bg.PNG") {
        SkinRequest::File(rel, _) => assert_eq!(rel, "img/bg.PNG"),
        SkinRequest::Forbidden => panic!("a picture"),
    }
    assert_eq!(skin_status(true, true), 403);
    assert_eq!(skin_status(false, true), 200);
    assert_eq!(skin_status(false, false), 404);
    assert_eq!(
        missing_skin_text(&skin_index("C:\\g", "dark"), "dark"),
        "找不到 skin：C:\\g\\skins\\dark\\index.html\n請確認 skins/dark/index.html 存在"
    );
}

#[test]
fn settings_come_from_two_files() {
    let mut own = ListFile::default();
    own.launcher.active_skin = "dark".to_string();
    own.aux.packet_encrypt = true;
    let ini = encrypt_config_text(&build_list_file(&own).unwrap());
    let list = build_list_txt(&[ServerInfo::new("S", "1.1.1.1", 1)]).unwrap();
    let both = load_list_file(Some(&ini), Some(&list));
    assert_eq!(both.launcher.active_skin, "dark");
    assert!(both.aux.packet_encrypt);
    assert_eq!(both.servers.len(), 1);
    assert_eq!(both.servers[0].name, "S");

    let legacy = load_list_file(Some(&list), Some("[list]\n"));
    assert_eq!(legacy.servers.len(), 1);

    let nothing = load_list_file(None, None);
    assert!(nothing.servers.is_empty());
    assert_eq!(nothing.aux, AuxConfig::default());

    let damaged = load_list_file(Some("ENC1:***"), None);
    assert_eq!(damaged.launcher.active_skin, nothing.launcher.active_skin);
}

#[test]
fn servers_are_probed_by_address() {
    assert_eq!(
        probe_target(&ServerInfo::new("S", "1.2.3.4", 7001)).unwrap(),
        "1.2.3.4:7001"
    );
    let mut idle = ServerInfo::new("S", "1.2.3.4", 7001);
    idle.used = false;
    assert_eq!(probe_target(&idle), None);
    assert_eq!(probe_target(&ServerInfo::new("S", "", 7001)), None);
    assert_eq!(probe_target(&ServerInfo::new("S", "a", 0)), None);
    assert_eq!(
        probe_target(&ServerInfo::new("S", "a", 65537)).unwrap(),
        "a:1"
    );
}

#[test]
fn a_server_is_chosen_by_index_and_port() {
    let servers = [
        ServerInfo::new("A", "a", 65535),
        ServerInfo::new("B", "b", 65536),
        ServerInfo::new("C", "c", -1),
    ];
    assert_eq!(check_server(&servers, 0).unwrap(), 65535);
    let high = check_server(&servers, 1).unwrap_err();
    assert_eq!(high.to_string(), "Port 超出範圍：65536");
    let low = check_server(&servers, 2).unwrap_err();
    assert_eq!(low.to_string(), "Port 超出範圍：-1");
    let none = check_server(&servers, 3).unwrap_err();
    assert_eq!(none.to_string(), "無效的伺服器索引");
}

#[test]
fn launch_errors_in_words() {
    assert_eq!(
        LaunchError::NoGame("C:\\g.bin".to_string()).to_string(),
        "找不到遊戲主程式：C:\\g.bin\n請將 launcher.exe 放在遊戲目錄下"
    );
    assert_eq!(
        LaunchError::NoTable("t".to_string(), "p".to_string()).to_string(),
        "找不到變身檔：t 或 p\n請先用 encoder.exe 產出變身檔到此目錄"
    );
    assert_eq!(
        LaunchError::Table("e".to_string()).to_string(),
        "載入變身檔失敗：e"
    );
}

#[test]
fn the_table_is_chosen() {
    assert_eq!(choose_table(false, true, true, true), TableChoice::Packed);
    assert_eq!(choose_table(false, true, false, true), TableChoice::Own);
    assert_eq!(choose_table(true, true, false, true), TableChoice::Plain);
    assert_eq!(choose_table(true, false, false, false), TableChoice::Missing);
    assert_eq!(
        table_path("C:\\g", "TW13081901.bin", ".txt"),
        "C:\\g\\TW13081901.txt"
    );
}

#[test]
fn a_launch_needs_a_key_where_packets_are_encrypted() {
    let mut aux = AuxConfig::default();
    aux.packet_encrypt = true;
    let mut server = ServerInfo::new("S", "1.2.3.4", 7001);
    let err = build_launch_event(&server, 7001, "C:\\g", None, &aux, true, 5).unwrap_err();
    assert!(matches!(err, LaunchError::NoKey(_)));
    server.rsa_d = 3;
    server.rsa_n = 5;
    let table = Some((vec![1, 2], "C:\\g\\t.pak".to_string()));
    let go = build_launch_event(&server, 7001, "C:\\g", table, &aux, true, 5).unwrap();
    assert_eq!(go.ip, "1.2.3.4");
    assert_eq!(go.port, 7001);
    assert_eq!(go.inject_buffer, Some(vec![1, 2]));
    assert_eq!(go.inject_source_path.as_deref(), Some("C:\\g\\t.pak"));
    assert_eq!(go.packet_encrypt.unwrap().rsa_n, 5);
}

#[test]
fn messages_of_the_page() {
    let mut pending = Some(info(2, &[]));
    let first = handle_message(JsMessage::Ready, &mut pending);
    assert_eq!(first.len(), 2);
    assert!(matches!(first[0], Reply::Send(UserEvent::PushServers)));
    assert!(matches!(
        first[1],
        Reply::Send(UserEvent::AutoUpdatePrompt(_))
    ));
    assert!(pending.is_none());
    let second = handle_message(JsMessage::Ready, &mut pending);
    assert!(matches!(
        second[1],
        Reply::Send(UserEvent::PushProgress {
            current_pct: 100,
            total_pct: 100
        })
    ));

    let launch = handle_message(
        JsMessage::Launch {
            server_idx: 1,
            windowed: true,
            window_mode: Some(9),
        },
        &mut pending,
    );
    assert!(matches!(
        launch[0],
        Reply::Save(UserPrefs {
            windowed: true,
            window_mode: 5
        })
    ));
    assert!(matches!(
        launch[1],
        Reply::Launch {
            server_idx: 1,
            windowed: true,
            window_mode: 5
        }
    ));

    let save = handle_message(
        JsMessage::SavePrefs {
            windowed: false,
            window_mode: 7,
        },
        &mut pending,
    );
    assert_eq!(save.len(), 1);
    assert!(matches!(
        save[0],
        Reply::Save(UserPrefs {
            windowed: false,
            window_mode: 7
        })
    ));

    assert!(handle_message(JsMessage::Select { index: 0 }, &mut pending).is_empty());
    let blank = JsMessage::OpenUrl {
        url: "  ".to_string(),
    };
    assert!(handle_message(blank, &mut pending).is_empty());
    let open = JsMessage::OpenUrl {
        url: " http://x ".to_string(),
    };
    match &handle_message(open, &mut pending)[0] {
        Reply::Send(UserEvent::OpenExternal(u)) => assert_eq!(u, "http://x"),
        _ => panic!("an address"),
    }
    assert_eq!(window_mode_or_default(None), 5);
    assert_eq!(window_mode_or_default(Some(4)), 4);
}

#[test]
fn closing_hides_while_the_game_runs() {
    let mut cfg = LauncherConfig::default();
    cfg.announcement_url = "u".to_string();
    cfg.announcement_enabled = false;
    let page = page_data(vec![], &cfg, UserPrefs::default());
    assert_eq!(page.announcement_url, "");

    let mut running = false;
    let quit = handle_event(UserEvent::Close, &page, &mut running);
    assert!(matches!(quit[0], Effect::Exit));

    let server = ServerInfo::new("S", "1.2.3.4", 7001);
    let aux = AuxConfig::default();
    let go = build_launch_event(&server, 7001, "C:\\g", None, &aux, false, 5).unwrap();
    let started = handle_event(UserEvent::LaunchGame(go), &page, &mut running);
    assert!(running);
    assert!(started
        .iter()
        .any(|e| matches!(e, Effect::Send(UserEvent::SetLocked(true)))));
    assert!(started.iter().any(
        |e| matches!(e, Effect::Send(UserEvent::SetStatus(s)) if s == "遊戲啟動中 → 1.2.3.4:7001")
    ));
    let hide = handle_event(UserEvent::Close, &page, &mut running);
    assert!(matches!(hide[0], Effect::Visible(false)));

    let fill = handle_event(UserEvent::PushServers, &page, &mut running);
    assert!(matches!(&fill[0], Effect::Script(s) if s.contains("setServers([])")));
    assert!(matches!(fill[1], Effect::Probe));
}

#[test]
fn the_window_comes_back_when_a_launch_fails() {
    let ok = game_ended(None);
    assert!(ok.iter().all(|e| matches!(e, UserEvent::Close)));
    let bad = game_ended(Some(("long".to_string(), "short".to_string())));
    assert!(matches!(bad[0], UserEvent::SetWindowVisible(true)));
    assert!(matches!(&bad[1], UserEvent::ShowError(s) if s == "啟動遊戲失敗：\nlong"));
    assert!(matches!(&bad[2], UserEvent::SetStatus(s) if s == "啟動失敗：short"));
    assert!(matches!(bad[3], UserEvent::SetLocked(false)));
}

#[test]
fn patches_follow_the_settings() {
    let mut aux = AuxConfig::default();
    aux.img_limit_enabled = true;
    aux.img_limit_value = 7;
    aux.inventory_limit_enabled = false;
    aux.equip_ui_enabled = true;
    aux.move_packet_no_encrypt = false;
    assert_eq!(
        wanted_patches(&aux),
        vec![
            Patch::AcCheck,
            Patch::CrtWatson,
            Patch::ImgLimit(7),
            Patch::PngLimit(7),
            Patch::EquipUi,
            Patch::SmoothRun,
            Patch::Login,
        ]
    );
    aux.img_limit_enabled = false;
    aux.inventory_limit_enabled = true;
    aux.inventory_limit_value = 9;
    aux.equip_ui_enabled = false;
    aux.move_packet_no_encrypt = true;
    assert_eq!(
        wanted_patches(&aux),
        vec![
            Patch::AcCheck,
            Patch::CrtWatson,
            Patch::Inventory(9),
            Patch::MovePackets,
            Patch::SmoothRun,
            Patch::Login,
        ]
    );
}

#[test]
fn a_parent_behind_a_drive_is_refused() {
    for raw in ["/C:../x", "/C:..", "/c:..\\x", "/C:a/../x", "/C:/x", "/C:\\x", "/..", "/a\\.."] {
        assert!(
            matches!(serve_skin_file(raw), SkinRequest::Forbidden),
            "{raw}"
        );
    }
    for raw in ["/C:x", "/C:..x", "/C:...", "/1:../x.css", "/a..", "/CC:../x"] {
        let refused = matches!(serve_skin_file(raw), SkinRequest::Forbidden);
        assert_eq!(refused, false, "{raw}");
    }
}

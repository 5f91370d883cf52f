use launcher::code::begins_with_jump;
use launcher::equip_ui::{
    classify_exit, entry_window, find_func_entry, helper_of, is_background, is_old_bound,
    plan_bound, plan_map, plan_setup, SetupExit,
};
use launcher::hook::{
    installed, module_wait, parse_ip, plan_redirect, port_bytes, HookError, ModuleWait,
};
use launcher::ime_inject::{
    cache_dir, library_path, load_error_text, needs_deploy, shown_name,
};
use launcher::inject::{
    file_hook_step, morph_preprocess_enabled, plan_file_hook, verify_file_hook, FileHookStep,
    InjectError,
};
use launcher::login::{build_cave, build_hooks};
use launcher::smooth_run_hook::{build_hook, classify_site, Site};
use launcher::startup_hook::{
    build_path_bytes, check_loaded, check_written, first_existing, hook_candidates, hook_disabled,
    plan_hook, required_error, HookPlan, LoadError, LoadWait,
};

#[test]
fn addresses_of_servers() {
    assert_eq!(parse_ip("10.0.0.255"), Ok([10, 0, 0, 255]));
    assert_eq!(
        parse_ip("10.0.0"),
        Err(HookError::PartCount("10.0.0".to_string()))
    );
    assert_eq!(
        parse_ip("10.0.256.x"),
        Err(HookError::Segment("256".to_string()))
    );
    assert_eq!(
        parse_ip("10.0.0").unwrap_err().to_string(),
        "invalid IPv4: 10.0.0"
    );
    assert_eq!(
        parse_ip("10.0.256.x").unwrap_err().to_string(),
        "invalid IPv4 segment: 256"
    );
    assert_eq!(port_bytes(7001), [0x1B, 0x59]);
}

#[test]
fn connections_are_redirected_once() {
    let (code, jump) = plan_redirect(
        &[0x8B, 0xFF, 0x55, 0x8B, 0xEC, 0x83],
        0x7600_0000,
        0x1000_0000,
        [1, 2, 3, 4],
        7001,
        0,
    )
    .unwrap();
    assert_eq!(jump, vec![0xE9, 0xFB, 0xFF, 0xFF, 0x99]);
    assert_eq!(code.len(), 35);
    assert_eq!(&code[25..30], &[0x8B, 0xFF, 0x55, 0x8B, 0xEC]);
    let hooked = plan_redirect(&[0xE9, 0, 0, 0, 0], 1, 2, [0; 4], 3, 0);
    assert_eq!(hooked, None);
    assert_eq!(installed(true, false), Ok(()));
    assert_eq!(installed(false, true), Ok(()));
    assert_eq!(installed(false, false), Err(HookError::NothingHooked));
    assert_eq!(
        HookError::NothingHooked.to_string(),
        "connect/WSAConnect hook install failed: no exports hooked"
    );
    assert_eq!(
        HookError::ModuleMissing.to_string(),
        "ws2_32.dll not loaded after 60s"
    );
}

#[test]
fn the_login_cave_holds_its_parts() {
    let cave = build_cave(0x1000_0000);
    assert_eq!(cave.len(), 1024);
    assert!(cave[..0x110].iter().all(|b| *b == 0));
    assert_eq!(&cave[0x110..0x11B], b"cssddddddd\0");
    assert_eq!(&cave[0x120..0x123], &[0x8D, 0x85, 0x68]);
    assert_eq!(&cave[0x180..0x183], &[0x8B, 0x55, 0xF4]);
    assert_eq!(cave[0x280], 0x68);
    let hooks = build_hooks(0x1000_0000);
    let places: Vec<u32> = hooks.iter().map(|w| w.addr).collect();
    assert_eq!(places, vec![0x0077_317D, 0x004A_A38E, 0x0077_2E07]);
    let sizes: Vec<usize> = hooks.iter().map(|w| w.bytes.len()).collect();
    assert_eq!(sizes, vec![6, 7, 10]);
    assert_eq!(&hooks[0].bytes, &[0xE9, 0x9E, 0xCF, 0x88, 0x0F, 0x90]);
}

#[test]
fn function_entries_are_searched_backwards() {
    assert_eq!(entry_window(0x100, 0x30), (0xD0, 0x30));
    assert_eq!(entry_window(0x10, 0x30), (0, 0x10));
    let data = [0x55, 0x8B, 0xEC, 0, 0x55, 0x8B, 0xEC, 0x55];
    assert_eq!(find_func_entry(&data, 0x1000), Some(0x1004));
    assert_eq!(find_func_entry(&[0x55, 0x8B], 0), None);
}

#[test]
fn slot_hooks_are_placed() {
    assert!(plan_map(0xE9, 1, 2).is_empty());
    let map = plan_map(0x55, 0x0079_0000, 0x1000_0000);
    assert_eq!(map[0].addr, 0x1000_0000);
    assert_eq!(map[0].bytes.len(), 64);
    assert_eq!(map[1].addr, 0x0079_0000);
    assert_eq!(map[1].bytes, vec![0xE9, 0xFB, 0xFF, 0x86, 0x0F]);

    assert_eq!(classify_exit(&[0xE9, 0, 0, 0, 0]), SetupExit::Hooked);
    assert_eq!(
        classify_exit(&[0x8B, 0xE5, 0x5D, 0xC3, 0xCC]),
        SetupExit::Expected
    );
    assert_eq!(
        classify_exit(&[0x8B, 0xE5, 0x5D, 0xC3, 0xCD]),
        SetupExit::Unknown
    );
    assert_eq!(
        helper_of(0x0079_0027, &[0xE8, 0x10, 0, 0, 0]),
        Some(0x0079_003C)
    );
    assert_eq!(helper_of(0x0079_0027, &[0xE9, 0, 0, 0, 0]), None);
    assert!(is_background(&[0x8B, 0x4D, 0x0C, 0x83, 0xC1, 0x1A, 0x51]));
    assert!(!is_background(&[0x8B, 0x4D, 0x0C, 0x83, 0xC1, 0x1A, 0x52]));

    let setup = plan_setup(0x0079_0000, 0x1000_0000, 0x0079_5000);
    let places: Vec<u32> = setup.iter().map(|w| w.addr).collect();
    assert_eq!(
        places,
        vec![0x1000_0000, 0x1000_0050, 0x0079_002E, 0x0079_0BB8]
    );
    assert_eq!(setup[2].bytes, vec![0xE9, 0xCD, 0xFF, 0x86, 0x0F]);
    assert_eq!(
        setup[3].bytes,
        vec![0xE8, 0x93, 0xF4, 0x86, 0x0F, 0x51, 0x90]
    );
}

#[test]
fn the_surface_bound_is_raised_once() {
    assert_eq!(plan_bound(&[0x81, 0xFA, 0, 0, 0, 0, 0]), None);
    assert_eq!(
        plan_bound(&[0x83, 0xFA, 0x0A, 0x7C, 0, 0, 0]).unwrap().addr,
        0x0043_87DB
    );
    assert!(!is_old_bound(&[0]));
}

#[test]
fn the_table_hook_waits_for_its_place() {
    assert_eq!(file_hook_step(0, Some(0x4D8D_016A)), FileHookStep::Install);
    assert_eq!(file_hook_step(0, Some(0x1234_56E9)), FileHookStep::Done);
    assert_eq!(file_hook_step(0, None), FileHookStep::Wait);
    assert_eq!(file_hook_step(12000, Some(1)), FileHookStep::TimedOut);
    assert_eq!(verify_file_hook(0x4D8D_016A), Ok(()));
    let wrong = verify_file_hook(0xAB).unwrap_err();
    assert_eq!(wrong, InjectError::Verify(0xAB));
    assert_eq!(
        wrong.to_string(),
        "FileHook verify failed: 0x0058788B=0x000000AB, expected 0x4D8D016A"
    );
    assert_eq!(
        InjectError::TimedOut.to_string(),
        "FileHook wait timed out before target bytes appeared"
    );
    let plan = plan_file_hook(b"Stable", 0x2000_0000, 0x3000_0000);
    assert_eq!(plan[0].addr, 0x2000_0000);
    assert_eq!(plan[0].bytes, b"Stable".to_vec());
    assert_eq!(plan[1].addr, 0x3000_0000);
    assert_eq!(plan[2].addr, 0x0058_788B);
    assert_eq!(plan[2].bytes[0], 0xE9);
}

#[test]
fn preparing_tables_can_be_switched_off() {
    assert!(morph_preprocess_enabled(None));
    assert!(morph_preprocess_enabled(Some("1")));
    for off in ["0", " False ", "NO", "off"] {
        assert!(!morph_preprocess_enabled(Some(off)));
    }
}

#[test]
fn the_run_hook_site() {
    assert_eq!(classify_site(&[0xE9, 1, 2, 3, 4]), Site::Hooked);
    assert_eq!(
        classify_site(&[0x8B, 0x44, 0xC2, 0x04, 0x5D]),
        Site::Expected
    );
    assert_eq!(classify_site(&[0; 5]), Site::Unknown);
    assert_eq!(
        build_hook(0x1000_0000),
        vec![0xE9, 0x85, 0x68, 0xBB, 0x0F]
    );
}

#[test]
fn the_startup_library_is_searched() {
    assert!(hook_disabled(Some("0")));
    assert!(!hook_disabled(None));
    let places = hook_candidates(Some("C:\\l\\launcher.exe"), Some("C:\\w"), "C:\\g");
    assert_eq!(places[0], "C:\\l\\L38Hook.dll");
    assert!(places.contains(&"C:\\w\\startup_hook.dll".to_string()));
    assert!(places.contains(&"C:\\g\\L38Hook.dll".to_string()));
    assert_eq!(first_existing(&[false, true, true]), Some(1));
    assert_eq!(first_existing(&[false]), None);
    assert_eq!(plan_hook(true, true), HookPlan::Disabled);
    assert_eq!(plan_hook(false, false), HookPlan::Missing);
    assert_eq!(plan_hook(false, true), HookPlan::Load);
    assert_eq!(required_error(HookPlan::Load), None);
    assert_eq!(
        required_error(HookPlan::Disabled),
        Some("StartupHook is required but disabled by LOGIN38_STARTUP_HOOK")
    );
    assert_eq!(
        required_error(HookPlan::Missing),
        Some("StartupHook is required but L38Hook.dll/startup_hook.dll was not found")
    );
    assert_eq!(
        build_path_bytes("甲"),
        vec![0x32, 0x75, 0, 0]
    );
}

#[test]
fn loading_a_library_can_fail() {
    assert_eq!(check_written(4, 4), Ok(()));
    let short = check_written(3, 4).unwrap_err();
    assert_eq!(short.to_string(), "WriteProcessMemory wrote 3/4");
    assert_eq!(load_error_text(&short), "路徑寫入不完整 (3/4 bytes)");
    assert_eq!(check_loaded(LoadWait::Done, 1, 9), Ok(()));
    let null = check_loaded(LoadWait::Done, 0, 9).unwrap_err();
    assert_eq!(null, LoadError::Null(9));
    assert_eq!(null.to_string(), "LoadLibraryW returned NULL tid=9");
    assert_eq!(
        load_error_text(&null),
        "LoadLibraryW 回 NULL — 載入失敗 (tid=9)"
    );
    let late = check_loaded(LoadWait::TimedOut, 1, 9).unwrap_err();
    assert_eq!(late.to_string(), "LoadLibraryW timeout 5000ms tid=9");
    let odd = check_loaded(LoadWait::Other(7), 1, 9).unwrap_err();
    assert_eq!(
        odd.to_string(),
        "LoadLibraryW wait failed: WAIT_EVENT(7) tid=9"
    );
}

#[test]
fn the_input_library_is_deployed() {
    assert_eq!(
        cache_dir(Some("C:\\Users\\a")).unwrap(),
        "C:\\Users\\a\\Lineage38Launcher\\ime"
    );
    assert_eq!(cache_dir(None), None);
    assert_eq!(library_path("C:\\c"), "C:\\c\\lineage_ime.dll");
    assert!(needs_deploy(None, b"x"));
    assert!(needs_deploy(Some(b"y"), b"x"));
    assert!(!needs_deploy(Some(b"x"), b"x"));
    assert_eq!(shown_name("C:\\c\\lineage_ime.dll"), "lineage_ime.dll");
}

#[test]
fn the_socket_library_is_waited_for() {
    assert_eq!(module_wait(Some(7), 599), ModuleWait::Found(7));
    assert_eq!(module_wait(None, 0), ModuleWait::Again);
    assert_eq!(module_wait(None, 598), ModuleWait::Again);
    assert_eq!(module_wait(None, 599), ModuleWait::Missing);
    assert!(begins_with_jump(&[0xE9, 1]));
    assert!(!begins_with_jump(&[0x8B, 0xE9]));
    assert!(!begins_with_jump(&[]));
}

use launcher::process::{
    command_line, export_offset, export_table, is_module, pe_offset, retries_snapshot,
    should_retry_module_snapshot_error, to_wide_null, ExportSearch, ModuleError, SearchStep,
};

#[test]
fn module_snapshot_retries_error_bad_length() {
    assert!(should_retry_module_snapshot_error(0x80070018u32 as i32));
    assert!(!should_retry_module_snapshot_error(0x80070005u32 as i32));
}

#[test]
fn win32_wide_string_preserves_chinese_paths() {
    let wide = to_wide_null(r"D:\天堂懶人包\TW13081901.bin");
    assert_eq!(wide.last(), Some(&0));

    let without_nul = String::from_utf16(&wide[..wide.len() - 1]).unwrap();
    assert_eq!(without_nul, r"D:\天堂懶人包\TW13081901.bin");
}

#[test]
fn snapshots_are_retried() {
    assert!(retries_snapshot(0, 0x80070018u32 as i32));
    assert!(retries_snapshot(48, 0x80070018u32 as i32));
    assert!(!retries_snapshot(49, 0x80070018u32 as i32));
    assert!(!retries_snapshot(0, 5));
}

#[test]
fn modules_are_found_by_name() {
    assert!(is_module("WS2_32.dll", "ws2_32.DLL"));
    assert!(!is_module("ws2_32.dll", "ws2.dll"));
}

#[test]
fn the_command_line_quotes_the_program() {
    assert_eq!(
        command_line("C:\\a b\\g.bin", Some("x y")),
        "\"C:\\a b\\g.bin\" x y"
    );
    assert_eq!(command_line("C:\\g.bin", Some("  ")), "C:\\g.bin");
    assert_eq!(command_line("C:\\g.bin", None), "C:\\g.bin");
}

#[test]
fn headers_are_checked() {
    let mut dos = vec![0u8; 64];
    assert_eq!(pe_offset(0x1000, &dos), Err(ModuleError::DosHeader(0x1000)));
    assert_eq!(
        ModuleError::DosHeader(0x1000).to_string(),
        "無效的 DOS header @ 0x00001000"
    );
    dos[0] = b'M';
    dos[1] = b'Z';
    dos[60] = 0x80;
    assert_eq!(pe_offset(0x1000, &dos), Ok(0x80));

    let mut pe = vec![0u8; 264];
    assert_eq!(
        export_offset(0x1080, &pe),
        Err(ModuleError::PeHeader(0x1080))
    );
    assert_eq!(
        ModuleError::PeHeader(0x1080).to_string(),
        "無效的 PE header @ 0x00001080"
    );
    pe[..4].copy_from_slice(b"PE\0\0");
    assert_eq!(export_offset(0x1080, &pe), Ok(None));
    pe[120] = 0x10;
    assert_eq!(export_offset(0x1080, &pe), Ok(Some(0x10)));
}

#[test]
fn exports_are_found_by_name() {
    let mut dir = vec![0u8; 40];
    dir[20] = 2;
    dir[24] = 2;
    dir[28] = 0x10;
    dir[32] = 0x20;
    dir[36] = 0x30;
    let table = export_table(&dir).unwrap();
    assert_eq!((table.num_funcs, table.num_names), (2, 2));
    assert_eq!(
        (table.addr_rva, table.name_rva, table.ordinal_rva),
        (0x10, 0x20, 0x30)
    );

    let name_ptrs = vec![0x40, 0, 0, 0, 0x50, 0, 0, 0];
    let ordinals = vec![1, 0, 0, 0];
    let addrs = vec![0x77, 0, 0, 0, 0x88, 0, 0, 0];
    let begin = |name: &str| {
        ExportSearch::begin(
            0x1000,
            name,
            table,
            name_ptrs.clone(),
            ordinals.clone(),
            addrs.clone(),
        )
        .unwrap()
    };
    let mut first = vec![0u8; 64];
    first[..7].copy_from_slice(b"connect");
    let mut second = vec![0u8; 64];
    second[..4].copy_from_slice(b"send");

    let mut search = begin("send");
    assert_eq!(search.look(), SearchStep::Look(0x1040));
    assert_eq!(search.take(&first), SearchStep::Look(0x1050));
    assert_eq!(search.take(&second), SearchStep::Found(0x1077));

    let mut search = begin("connect");
    assert_eq!(search.take(&first), SearchStep::Found(0x1088));

    let mut search = begin("recv");
    assert_eq!(search.take(&first), SearchStep::Look(0x1050));
    assert_eq!(search.take(&second), SearchStep::Missing);
}

#[test]
fn wide_strings_hold_surrogates() {
    assert_eq!(to_wide_null("a😀"), vec![0x61, 0xD83D, 0xDE00, 0]);
}

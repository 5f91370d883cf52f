use launcher::equip_ui::{server_index_pattern, setup_slots_pattern};
use launcher::memory::Write;
use launcher::patch::{
    clamp_img_limit, classify_decrypt_marker_value, crc_check_pattern, hash_check_pattern,
    img_alloc_pattern, img_bound_pattern, img_range_pattern, inventory_pattern, module_step,
    move_packet_no_encrypt_patch_specs, move_patch_addr, plan_ac_check, plan_img_alloc,
    plan_img_bound, plan_img_range, plan_inventory_limit, plan_move_patch, plan_png_limit,
    plan_time_guard, plan_watson, png_alloc_pattern, png_cleanup_pattern, png_init_pattern,
    prefix_start, quick_wait_step, sample_text, startup_probes, verify_time_guard, wait_outcome,
    wait_step, DecryptMarkerState, ModuleStep, PatchError, ProbeWatch, WaitAndPatchOutcome,
    WaitStep, CONDITIONAL_PATCH_VAL, DECRYPT_EXPECTED,
};

fn pattern(text: &str) -> Vec<Option<u8>> {
    text.split(' ')
        .map(|b| u8::from_str_radix(b, 16).ok())
        .collect()
}

fn write(addr: u32, bytes: &[u8]) -> Write {
    Write {
        addr,
        bytes: bytes.to_vec(),
    }
}

#[test]
fn move_packet_no_encrypt_patches_two_runtime_branches() {
    let specs = move_packet_no_encrypt_patch_specs();

    assert_eq!(specs.len(), 2);
    assert_eq!(specs[0].name, "move state obfuscation");
    assert_eq!(specs[0].patch_offset, 7);
    assert_eq!(specs[0].original, 0x74);
    assert_eq!(specs[0].patched, 0xEB);
    assert_eq!(specs[1].name, "move packet encryption");
    assert_eq!(specs[1].patch_offset, 10);
    assert_eq!(specs[1].original, 0x75);
    assert_eq!(specs[1].patched, 0xEB);
}

#[test]
fn classifies_decrypt_marker_values() {
    assert_eq!(
        classify_decrypt_marker_value(DECRYPT_EXPECTED),
        DecryptMarkerState::Ready
    );
    assert_eq!(
        classify_decrypt_marker_value(CONDITIONAL_PATCH_VAL),
        DecryptMarkerState::AlreadyPatched
    );
    assert_eq!(
        classify_decrypt_marker_value(0xD34C608D),
        DecryptMarkerState::NotReady(0xD34C608D)
    );
}

#[test]
fn patterns_of_the_game() {
    assert_eq!(
        crc_check_pattern(),
        pattern("89 45 FC 8B 45 FC 3B 05 ?? ?? ?? ?? 74 3C 83 3D ?? ?? ?? ?? 03 75 33")
    );
    assert_eq!(hash_check_pattern(), pattern("83 C4 08 3D 67 59 00 00 74 2A"));
    assert_eq!(
        img_range_pattern(),
        pattern("6A 00 68 ?? ?? ?? ?? 68 58 1B 00 00 E8")
    );
    assert_eq!(img_bound_pattern(), pattern("97 18 00 00"));
    assert_eq!(img_alloc_pattern(), pattern("68 5C 62 00 00"));
    assert_eq!(
        png_alloc_pattern(),
        pattern("68 70 18 00 00 E8 ?? ?? ?? ?? 83 C4 04")
    );
    assert_eq!(
        png_init_pattern(),
        pattern("89 55 F0 81 7D F0 1C 06 00 00 7D")
    );
    assert_eq!(
        png_cleanup_pattern(),
        pattern("89 4D FC 81 7D FC 1C 06 00 00 7D")
    );
    assert_eq!(inventory_pattern(), pattern("25 64 20 2F 20 31 38 30 00"));
    assert_eq!(
        server_index_pattern(),
        pattern("83 E9 01 89 4D F4 83 7D F4 15 0F 87 ?? ?? ?? ?? 8B 55 F4 FF 24 95")
    );
    assert_eq!(
        setup_slots_pattern(),
        pattern("C7 45 F8 01 00 00 00 EB 09 8B 4D F8 83 C1 01 89 4D F8 83 7D F8 ??")
    );
    let specs = move_packet_no_encrypt_patch_specs();
    assert_eq!(
        specs[0].pattern,
        vec![
            0x0F, 0xBE, 0x42, 0x14, 0x83, 0xF8, 0x08, 0x74, 0x21, 0x8B, 0x0D, 0xB8, 0xD2, 0xC2,
            0x00,
        ]
    );
    assert_eq!(
        specs[1].pattern,
        vec![
            0x0F, 0xBE, 0x15, 0xE1, 0xAE, 0x9A, 0x00, 0x83, 0xFA, 0x03, 0x75, 0x22, 0xA1, 0xB8,
            0xD2, 0xC2, 0x00, 0x0F, 0xBE, 0x48, 0x15, 0x83, 0xF1, 0x49,
        ]
    );
}

#[test]
fn the_wait_ends_on_the_marker() {
    let mut last = 0;
    assert_eq!(
        wait_step(&mut last, Some(7), 0),
        WaitStep::Sleep(50)
    );
    assert_eq!(last, 7);
    assert_eq!(wait_step(&mut last, None, 2400), WaitStep::TimedOut(7));
    assert_eq!(
        wait_step(&mut last, Some(DECRYPT_EXPECTED), 2400),
        WaitStep::Patch { already: false }
    );
    assert_eq!(
        quick_wait_step(&mut last, Some(CONDITIONAL_PATCH_VAL), 9, 1),
        WaitStep::Patch { already: true }
    );
    assert_eq!(
        quick_wait_step(&mut last, Some(5), 1990, 2000),
        WaitStep::Sleep(10)
    );
    assert_eq!(
        quick_wait_step(&mut last, None, 2000, 2000),
        WaitStep::TimedOut(5)
    );
    assert_eq!(
        wait_outcome(WaitStep::Patch { already: true }),
        Some(WaitAndPatchOutcome::Patched)
    );
    assert_eq!(wait_outcome(WaitStep::Sleep(1)), None);
    assert_eq!(
        wait_outcome(WaitStep::TimedOut(5)),
        Some(WaitAndPatchOutcome::NotReady { last_value: 5 })
    );
}

#[test]
fn the_time_guard_is_written_and_verified() {
    let first = write(0x004E204E, &[0x90, 0xE9, 0x97, 0x00]);
    let second = write(0x00722761, &[0xB0, 0x01, 0x90, 0x85]);
    assert_eq!(plan_time_guard(false), vec![first, second.clone()]);
    assert_eq!(plan_time_guard(true), vec![second]);
    assert_eq!(verify_time_guard(0x0097E990, 0x859001B0, true), Ok(()));
    let quick = verify_time_guard(1, 0x859001B0, true).unwrap_err();
    assert_eq!(
        quick.to_string(),
        "time patch verify failed: 0x004E204E=0x00000001(expected 0x0097E990), \
         0x00722761=0x859001B0(expected 0x859001B0)"
    );
    let slow = verify_time_guard(0x0097E990, 2, false).unwrap_err();
    assert_eq!(
        slow.to_string(),
        "修補驗證失敗: 0x004E204E=0x0097E990(預期 0x0097E990), \
         0x00722761=0x00000002(預期 0x859001B0)"
    );
    assert_eq!(PatchError::TimedOut.to_string(), "等待解密逾時（120s）");
}

#[test]
fn checks_are_jumped_over() {
    assert_eq!(
        plan_ac_check(Some(0x401000), Some(0x402000)),
        vec![write(0x40100C, &[0xEB]), write(0x402008, &[0xEB])]
    );
    assert_eq!(plan_ac_check(None, None), vec![]);
}

#[test]
fn the_runtime_is_waited_for() {
    assert_eq!(module_step(Some(5), 200), ModuleStep::Found(5));
    assert_eq!(module_step(None, 99), ModuleStep::Wait);
    assert_eq!(module_step(None, 100), ModuleStep::Skip);
    assert_eq!(plan_watson(9, &[0xC3, 0]), None);
    assert_eq!(plan_watson(9, &[0x55, 0]), Some(write(9, &[0xC3])));
}

#[test]
fn picture_limits_are_raised() {
    assert_eq!(clamp_img_limit(1), 6295);
    assert_eq!(clamp_img_limit(1_000_000), 500_000);
    assert_eq!(
        plan_img_range(&[0x401000], 50000),
        vec![write(0x401008, &[0x50, 0xC3, 0, 0])]
    );
    assert_eq!(
        plan_img_alloc(&[0x401000], 50000),
        vec![write(0x401001, &[0x40, 0x0D, 0x03, 0])]
    );
    assert_eq!(prefix_start(0x401000), 0x400FFA);
    assert_eq!(prefix_start(2), 0);
    let new = Some(write(0x401000, &[0x50, 0xC3, 0, 0]));
    for modrm in [0x79, 0x7B, 0x7D, 0x7E, 0x7F] {
        assert_eq!(
            plan_img_bound(0x401000, &[0, 0, 0, 0x81, modrm, 0xF0], 50000),
            new
        );
    }
    assert_eq!(
        plan_img_bound(0x401000, &[0x81, 0xBD, 1, 2, 3, 4], 50000),
        new
    );
    assert_eq!(
        plan_img_bound(0x401000, &[0, 0, 0, 0x81, 0x7C, 0], 50000),
        None
    );
    assert_eq!(plan_img_bound(0x401000, &[0x81, 0x7D], 50000), None);
    assert_eq!(
        plan_png_limit(Some(0x10), Some(0x20), Some(0x30), 5000),
        vec![
            write(0x11, &[0x20, 0x4E, 0, 0]),
            write(0x26, &[0x88, 0x13, 0, 0]),
            write(0x36, &[0x88, 0x13, 0, 0]),
        ]
    );
    assert_eq!(
        plan_png_limit(Some(0), None, None, u32::MAX),
        vec![write(1, &[0xFF; 4])]
    );
}

#[test]
fn the_inventory_limit_is_shown() {
    assert_eq!(
        plan_inventory_limit(0x800000, 255),
        write(0x800005, b"255")
    );
    assert_eq!(
        plan_inventory_limit(0x800000, 7),
        write(0x800005, &[b'7', 0, 0])
    );
    assert_eq!(
        plan_inventory_limit(0x800000, 5000),
        write(0x800005, b"999")
    );
}

#[test]
fn move_packets_are_patched_once() {
    let specs = move_packet_no_encrypt_patch_specs();
    assert_eq!(move_patch_addr(&specs[0], 0, Some(0x401000)), Ok(0x401007));
    let none = move_patch_addr(&specs[1], 1, None).unwrap_err();
    assert_eq!(
        none.to_string(),
        "move packet no-encrypt pattern not found: move packet encryption"
    );
    assert_eq!(
        plan_move_patch(&specs[0], 0, 0x401007, 0x74),
        Ok(Some(write(0x401007, &[0xEB])))
    );
    assert_eq!(plan_move_patch(&specs[0], 0, 0x401007, 0xEB), Ok(None));
    let other = plan_move_patch(&specs[0], 0, 0x401007, 0x0A).unwrap_err();
    assert_eq!(
        other.to_string(),
        "move packet no-encrypt target mismatch: move state obfuscation @ 0x00401007, \
         current=0x0A, expected=0x74"
    );
}

#[test]
fn probes_are_watched() {
    let probes = startup_probes();
    assert_eq!(probes.len(), 6);
    let mut watch = ProbeWatch::new();
    let nothing = vec![None; 6];
    let (hits, sample, over) = watch.step(0, &nothing);
    assert!(hits.is_empty());
    assert!(sample);
    assert!(!over);
    let all: Vec<Option<u32>> = probes.iter().map(|p| p.expected).collect();
    let (hits, _, over) = watch.step(1, &all);
    assert_eq!(
        hits.len(),
        probes.iter().filter(|p| p.expected.is_some()).count()
    );
    assert!(over);
    let (hits, _, _) = watch.step(1, &all);
    assert!(hits.is_empty());
    assert!(sample_text(&nothing).starts_with(probes[0].name));
}

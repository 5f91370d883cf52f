use launcher::equip_ui::{build_background, build_map_cave, build_more_slots};
use launcher::hook::build_shellcode as build_connect;
use launcher::img_hover::code::{build_blit_hook, build_draw_hook_v2};
use launcher::inject::build_file_hook_shellcode;
use launcher::login::{build_login77_shellcode, build_pass_shellcode, build_user_shellcode};
use launcher::smooth_run_hook::build_shellcode as build_run;

#[test]
fn connect_code_with_a_hover_counter() {
    assert_eq!(
        build_connect(
            [10, 0, 0, 1],
            [0x1B, 0x58],
            &[0x8B, 0xFF, 0x55, 0x8B, 0xEC],
            0x7600_0000,
            0x1000_0000,
            0x2000
        ),
        vec![
            0x60, 0x8B, 0x44, 0x24, 0x28, 0x66, 0x83, 0x38, 0x02, 0x75, 0x17, 0x66, 0xC7, 0x40,
            0x02, 0x1B, 0x58, 0xC7, 0x40, 0x04, 0x0A, 0x00, 0x00, 0x01, 0xC7, 0x05, 0x00, 0x20,
            0x00, 0x00, 0x00, 0x00, 0x00, 0x00, 0x61, 0x8B, 0xFF, 0x55, 0x8B, 0xEC, 0xE9, 0xD8,
            0xFF, 0xFF, 0x65,
        ]
    );
}

#[test]
fn connect_code_without_a_hover_counter() {
    assert_eq!(
        build_connect(
            [10, 0, 0, 1],
            [0x1B, 0x58],
            &[0x8B, 0xFF, 0x55, 0x8B, 0xEC],
            0x0040_0000,
            0x7000_0000,
            0
        ),
        vec![
            0x60, 0x8B, 0x44, 0x24, 0x28, 0x66, 0x83, 0x38, 0x02, 0x75, 0x0D, 0x66, 0xC7, 0x40,
            0x02, 0x1B, 0x58, 0xC7, 0x40, 0x04, 0x0A, 0x00, 0x00, 0x01, 0x61, 0x8B, 0xFF, 0x55,
            0x8B, 0xEC, 0xE9, 0xE2, 0xFF, 0x3F, 0x90,
        ]
    );
}

#[test]
fn account_code() {
    assert_eq!(
        build_user_shellcode(0x1000_0000),
        vec![
            0x8D, 0x85, 0x68, 0xFF, 0xFF, 0xFF, 0x60, 0x8B, 0xF0, 0xBF, 0x00, 0x00, 0x00, 0x10,
            0xB9, 0x20, 0x00, 0x00, 0x00, 0xFC, 0xF3, 0xA4, 0x61, 0xE9, 0x47, 0x30, 0x77, 0xF0,
        ]
    );
}

#[test]
fn password_code() {
    assert_eq!(
        build_pass_shellcode(0x1000_0000),
        vec![
            0x8B, 0x55, 0xF4, 0x8B, 0x4C, 0x8A, 0x3C, 0x60, 0xB8, 0x00, 0x28, 0x40, 0x00, 0xFF,
            0xD0, 0x8B, 0x0D, 0x00, 0x01, 0x00, 0x10, 0x85, 0xC9, 0x75, 0x13, 0x50, 0x57, 0xBF,
            0x80, 0x00, 0x00, 0x10, 0x33, 0xC0, 0xAB, 0xAB, 0xAB, 0xAB, 0xAB, 0xAB, 0xAB, 0xAB,
            0x5F, 0x58, 0xBA, 0x80, 0x00, 0x00, 0x10, 0x88, 0x04, 0x0A, 0x41, 0x89, 0x0D, 0x00,
            0x01, 0x00, 0x10, 0x61, 0xE9, 0xD4, 0xA1, 0x4A, 0xF0,
        ]
    );
}

#[test]
fn login_packet_code() {
    assert_eq!(
        build_login77_shellcode(0x1000_0000),
        vec![
            0x68, 0x1F, 0x00, 0x00, 0x00, 0x68, 0x00, 0x00, 0x00, 0x00, 0x68, 0x00, 0x00, 0x00,
            0x00, 0x68, 0x00, 0x00, 0x00, 0x00, 0x68, 0x00, 0x00, 0x00, 0x00, 0x68, 0x00, 0x00,
            0x00, 0x00, 0x68, 0x7F, 0x00, 0x00, 0x01, 0x68, 0x80, 0x00, 0x00, 0x10, 0x68, 0x00,
            0x00, 0x00, 0x10, 0x68, 0x77, 0x00, 0x00, 0x00, 0x68, 0x10, 0x01, 0x00, 0x10, 0xE8,
            0x94, 0x0B, 0x58, 0xF0, 0x83, 0xC4, 0x2C, 0xC7, 0x05, 0x00, 0x01, 0x00, 0x10, 0x00,
            0x00, 0x00, 0x00, 0xE9, 0xA9, 0x2B, 0x77, 0xF0,
        ]
    );
}

#[test]
fn draw_code() {
    assert_eq!(
        build_draw_hook_v2(0x1000_0000, 0x004B_0000, 0x004C_0000, 0x009A_0000),
        vec![
            0x50, 0xA1, 0x0C, 0x01, 0x00, 0x10, 0x85, 0xC0, 0x58, 0x75, 0x05, 0xE9, 0xF0, 0xFF,
            0x4A, 0xF0, 0x50, 0xA1, 0xA0, 0x01, 0x00, 0x10, 0x3B, 0x05, 0x0C, 0x01, 0x00, 0x10,
            0x58, 0x7D, 0x61, 0x50, 0x51, 0x52, 0x56, 0x57, 0x8B, 0x45, 0xBC, 0xA3, 0xA4, 0x01,
            0x00, 0x10, 0x8B, 0x40, 0x20, 0x8B, 0x35, 0x0C, 0x01, 0x00, 0x10, 0xBF, 0x20, 0x01,
            0x00, 0x10, 0xBA, 0x60, 0x01, 0x00, 0x10, 0x85, 0xF6, 0x74, 0x0D, 0x39, 0x07, 0x74,
            0x0B, 0x83, 0xC7, 0x08, 0x83, 0xC2, 0x04, 0x4E, 0xEB, 0xEF, 0xEB, 0x24, 0x83, 0x3A,
            0x00, 0x75, 0x1F, 0x56, 0x8B, 0x71, 0x04, 0x89, 0x32, 0x5E, 0x52, 0xFF, 0x77, 0x04,
            0xB9, 0x00, 0x00, 0x9A, 0x00, 0xE8, 0x94, 0xFF, 0x4B, 0xF0, 0x5A, 0x89, 0x42, 0x20,
            0xFF, 0x05, 0xA0, 0x01, 0x00, 0x10, 0x5F, 0x5E, 0x5A, 0x59, 0x58, 0xE9, 0x80, 0xFF,
            0x4A, 0xF0, 0x50, 0x52, 0x56, 0x57, 0x8B, 0x41, 0x04, 0x3B, 0x05, 0x10, 0x01, 0x00,
            0x10, 0x75, 0x27, 0x8B, 0x35, 0x0C, 0x01, 0x00, 0x10, 0xBF, 0x60, 0x01, 0x00, 0x10,
            0xBA, 0x80, 0x01, 0x00, 0x10, 0x85, 0xF6, 0x74, 0x13, 0x39, 0x07, 0x74, 0x09, 0x83,
            0xC7, 0x04, 0x83, 0xC2, 0x04, 0x4E, 0xEB, 0xEF, 0x8B, 0x0A, 0x85, 0xC9, 0x74, 0x00,
            0x5F, 0x5E, 0x5A, 0x58, 0xE9, 0x41, 0xFF, 0x4A, 0xF0,
        ]
    );
}

#[test]
fn blit_code() {
    assert_eq!(
        build_blit_hook(0x1000_0000, 0x0055_5CE6, &[0x55, 0x8B, 0xEC, 0x83, 0xEC, 0x14]),
        vec![
            0x50, 0x51, 0x56, 0x57, 0x8B, 0x44, 0x24, 0x14, 0x8B, 0x0D, 0x60, 0x00, 0x00, 0x10,
            0x85, 0xC9, 0x74, 0x2B, 0x8B, 0x35, 0x64, 0x00, 0x00, 0x10, 0x8B, 0xFE, 0x3B, 0x06,
            0x74, 0x08, 0x83, 0xC6, 0x04, 0x49, 0x75, 0xF6, 0xEB, 0x17, 0x2B, 0xF7, 0xD1, 0xE6,
            0x81, 0xC6, 0x80, 0x00, 0x00, 0x10, 0x8B, 0x7C, 0x24, 0x20, 0x89, 0x3E, 0x8B, 0x7C,
            0x24, 0x24, 0x89, 0x7E, 0x04, 0x5F, 0x5E, 0x59, 0x58, 0x55, 0x8B, 0xEC, 0x83, 0xEC,
            0x14, 0xE9, 0x9A, 0x5C, 0x55, 0xF0,
        ]
    );
}

#[test]
fn run_code() {
    assert_eq!(
        build_run(0x1234_0000),
        vec![
            0x8B, 0x45, 0x0C, 0x8B, 0x44, 0xC2, 0x04, 0x81, 0xBA, 0x14, 0x03, 0x00, 0x00, 0x00,
            0x00, 0x01, 0x00, 0x0F, 0x82, 0xF2, 0x00, 0x00, 0x00, 0x8B, 0x4D, 0x0C, 0x85, 0xC9,
            0x74, 0x46, 0x83, 0xF9, 0x04, 0x74, 0x41, 0x83, 0xF9, 0x0B, 0x74, 0x3C, 0x83, 0xF9,
            0x14, 0x74, 0x37, 0x83, 0xF9, 0x18, 0x74, 0x32, 0x83, 0xF9, 0x28, 0x74, 0x2D, 0x83,
            0xF9, 0x2E, 0x74, 0x28, 0x83, 0xF9, 0x32, 0x74, 0x23, 0x83, 0xF9, 0x36, 0x74, 0x1E,
            0x83, 0xF9, 0x3A, 0x74, 0x19, 0x83, 0xF9, 0x3E, 0x74, 0x14, 0x83, 0xF9, 0x53, 0x74,
            0x0F, 0x83, 0xF9, 0x58, 0x74, 0x0A, 0x83, 0xF9, 0x77, 0x74, 0x05, 0xE9, 0xA5, 0x00,
            0x00, 0x00, 0x8B, 0x4D, 0x04, 0x81, 0xF9, 0x00, 0xA0, 0x5A, 0x00, 0x0F, 0x82, 0x96,
            0x00, 0x00, 0x00, 0x81, 0xF9, 0x00, 0xAA, 0x5A, 0x00, 0x0F, 0x87, 0x8A, 0x00, 0x00,
            0x00, 0x8B, 0x4D, 0x00, 0x8B, 0x49, 0xA4, 0x85, 0xC9, 0x0F, 0x84, 0x7C, 0x00, 0x00,
            0x00, 0x50, 0x80, 0x79, 0x29, 0x00, 0x74, 0x74, 0x57, 0x89, 0xC8, 0xC1, 0xE8, 0x03,
            0x83, 0xE0, 0x3F, 0xC1, 0xE0, 0x02, 0x05, 0x00, 0x02, 0x34, 0x12, 0x89, 0xC7, 0x66,
            0x39, 0x0F, 0x75, 0x12, 0x0F, 0xB6, 0x41, 0x17, 0x3A, 0x47, 0x02, 0x73, 0x04, 0x80,
            0x77, 0x03, 0x01, 0x88, 0x47, 0x02, 0xEB, 0x19, 0x66, 0x89, 0x0F, 0x0F, 0xB6, 0x41,
            0x17, 0x88, 0x47, 0x02, 0xC6, 0x47, 0x03, 0x00, 0x8B, 0x45, 0x0C, 0x85, 0xC0, 0x74,
            0x04, 0xC6, 0x47, 0x03, 0x01, 0x0F, 0xB6, 0x47, 0x03, 0x5F, 0x85, 0xC0, 0x59, 0x75,
            0x0B, 0x8B, 0x82, 0x14, 0x03, 0x00, 0x00, 0xE9, 0x1D, 0x00, 0x00, 0x00, 0x81, 0xBA,
            0x1C, 0x03, 0x00, 0x00, 0x00, 0x00, 0x01, 0x00, 0x72, 0x08, 0x8B, 0x82, 0x1C, 0x03,
            0x00, 0x00, 0xEB, 0x09, 0x8B, 0x82, 0x14, 0x03, 0x00, 0x00, 0xEB, 0x01, 0x58, 0x5D,
            0xC3,
        ]
    );
}

#[test]
fn file_hook_code() {
    assert_eq!(
        build_file_hook_shellcode(0x0001_2345, 0x2000_0000, 0x3000_0000),
        vec![
            0xB8, 0x45, 0x23, 0x01, 0x00, 0x89, 0x45, 0xEC, 0xB8, 0x01, 0x00, 0x00, 0x20, 0x8B,
            0x95, 0xC4, 0xFD, 0xFF, 0xFF, 0x89, 0x42, 0x08, 0xE9, 0x34, 0x79, 0x58, 0xD0,
        ]
    );
}

#[test]
fn slot_map_cave() {
    assert_eq!(
        build_map_cave(0x1000_0000),
        vec![
            0x55, 0x8B, 0xEC, 0x8B, 0x45, 0x08, 0x83, 0xF8, 0x1F, 0x77, 0x0F, 0x85, 0xC0, 0x74,
            0x0B, 0x0F, 0xB6, 0x80, 0x20, 0x00, 0x00, 0x10, 0x5D, 0xC2, 0x04, 0x00, 0x31, 0xC0,
            0x5D, 0xC2, 0x04, 0x00, 0x00, 0x02, 0x05, 0x04, 0x06, 0x0B, 0x07, 0x09, 0x0E, 0x10,
            0x03, 0x08, 0x01, 0x00, 0x00, 0x00, 0x00, 0x00, 0x0A, 0x0C, 0x0D, 0x0F, 0x11, 0x12,
            0x13, 0x10, 0x2E, 0x2F, 0x30, 0x31, 0x32, 0x33,
        ]
    );
}

#[test]
fn more_slots_code() {
    assert_eq!(
        build_more_slots(0x1000_0000, 0x0079_5000),
        vec![
            0xC7, 0x45, 0xF8, 0x00, 0x00, 0x00, 0x00, 0x83, 0x7D, 0xF8, 0x06, 0x7D, 0x1C, 0x6A,
            0x00, 0x6A, 0x00, 0x8B, 0x55, 0xF8, 0x83, 0xC2, 0x2E, 0x52, 0x8B, 0x45, 0xFC, 0x50,
            0x8B, 0x4D, 0xF4, 0xE8, 0xDC, 0x4F, 0x79, 0xF0, 0xFF, 0x45, 0xF8, 0xEB, 0xDE, 0x8B,
            0xE5, 0x5D, 0xC3,
        ]
    );
}

#[test]
fn slot_background_code() {
    assert_eq!(
        build_background(),
        vec![
            0x8B, 0x4D, 0x0C, 0x83, 0xF9, 0x2E, 0x7C, 0x04, 0x83, 0xC1, 0x06, 0xC3, 0x83, 0xC1,
            0x1A, 0xC3,
        ]
    );
}

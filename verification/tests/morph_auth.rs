use launcher::morph_auth::{has_tag, morph_mac};

#[test]
fn mac_is_deterministic() {
    let a = morph_mac(b"hello world");
    let b = morph_mac(b"hello world");
    assert_eq!(a, b);
}

#[test]
fn mac_differs_on_byte_change() {
    let a = morph_mac(b"hello world");
    let b = morph_mac(b"hello worle");
    assert_ne!(a, b);
}

#[test]
fn mac_differs_on_length_change() {
    let a = morph_mac(b"hello world");
    let b = morph_mac(b"hello world ");
    assert_ne!(a, b);
}

#[test]
fn mac_handles_empty() {
    let _ = morph_mac(b"");
}

#[test]
fn mac_handles_block_boundary() {
    let a = morph_mac(b"0123456789abcdef");
    let b = morph_mac(b"0123456789abcdefX");
    assert_ne!(a, b);
}

#[test]
fn mac_values() {
    assert_eq!(
        morph_mac(b""),
        [
            0xA6, 0x96, 0x02, 0xE4, 0x88, 0x8C, 0xCB, 0x1E, 0x6A, 0x73, 0x23, 0x27, 0x9B, 0x74,
            0x7D, 0xB3,
        ]
    );
    assert_eq!(
        morph_mac(b"hello world"),
        [
            0x7C, 0xDF, 0xB4, 0x19, 0xB2, 0x30, 0x46, 0x78, 0x5D, 0x1C, 0x4E, 0x77, 0x43, 0x8E,
            0x14, 0x80,
        ]
    );
    assert_eq!(
        morph_mac(b"0123456789abcdef"),
        [
            0x11, 0xB2, 0x17, 0x29, 0x3C, 0xC7, 0xB0, 0x7A, 0x89, 0x56, 0xD3, 0x0E, 0xCA, 0xDA,
            0xEF, 0xF3,
        ]
    );
}

#[test]
fn a_tag_ends_the_file() {
    let mut file = b"some bytes of a table".to_vec();
    let mac = morph_mac(&file);
    file.extend_from_slice(&mac);
    assert!(has_tag(&file));
    file[3] ^= 1;
    assert!(!has_tag(&file));
}

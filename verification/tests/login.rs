use launcher::login::{
    build_login77_shellcode, G_FMT_OFF, G_ID_OFF, G_PWD_OFF, LOGIN77_OPCODE,
};

fn pushed_immediates_before_call(sc: &[u8]) -> Vec<u32> {
    let mut values = Vec::new();
    let mut i = 0usize;
    while i < sc.len() {
        match sc[i] {
            0x68 => {
                values.push(u32::from_le_bytes(
                    sc[i + 1..i + 5].try_into().expect("push imm32"),
                ));
                i += 5;
            }
            0xE8 => break,
            _ => panic!("unexpected opcode before call at {i}: 0x{:02X}", sc[i]),
        }
    }
    values
}

#[test]
fn login77_packet_places_account_before_password() {
    let cave = 0x1000_0000;
    let sc = build_login77_shellcode(cave);
    let pushes = pushed_immediates_before_call(&sc);
    let args = pushes.into_iter().rev().collect::<Vec<_>>();

    assert_eq!(args[0], cave + G_FMT_OFF);
    assert_eq!(args[1], LOGIN77_OPCODE);
    assert_eq!(args[2], cave + G_ID_OFF);
    assert_eq!(args[3], cave + G_PWD_OFF);
}

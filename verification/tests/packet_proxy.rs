use launcher::packet_proxy::{
    auth_xor_from_cipher, packet_encrypt_config_from_server, PacketEncryptConfig,
    PacketProxyConfig,
};
use launcher::server_list::{AuxConfig, ServerInfo};

#[test]
fn packet_proxy_auth_xor_matches_startup_hook_formula() {
    assert_eq!(auth_xor_from_cipher(42, 1, 1000), 43);
    assert_eq!(auth_xor_from_cipher(254, 1, 1000), 255);
    assert_eq!(auth_xor_from_cipher(255, 1, 1000), 1);
}

#[test]
fn packet_proxy_config_keeps_real_server_and_rsa_key() {
    let cfg = PacketProxyConfig {
        server_ip: "203.0.113.10".to_string(),
        server_port: 7000,
        packet_encrypt: PacketEncryptConfig {
            rsa_d: 17,
            rsa_n: 3233,
        },
    };

    assert_eq!(cfg.server_ip, "203.0.113.10");
    assert_eq!(cfg.server_port, 7000);
    assert_eq!(cfg.packet_encrypt.rsa_d, 17);
    assert_eq!(cfg.packet_encrypt.rsa_n, 3233);
}

#[test]
fn packet_encrypt_requires_selected_server_rsa_key() {
    let mut aux = AuxConfig::default();
    aux.packet_encrypt = true;
    let server = ServerInfo::new("S", "127.0.0.1", 7001);

    let err = packet_encrypt_config_from_server(&aux, &server).unwrap_err();

    assert!(err.contains("封包加密"));
    assert!(err.contains("產生金鑰"));
}

#[test]
fn packet_encrypt_uses_selected_server_rsa_key() {
    let mut aux = AuxConfig::default();
    aux.packet_encrypt = true;
    let mut server = ServerInfo::new("S", "127.0.0.1", 7001);
    server.rsa_d = 12345;
    server.rsa_n = 67890;

    let cfg = packet_encrypt_config_from_server(&aux, &server)
        .unwrap()
        .unwrap();

    assert_eq!(cfg.rsa_d, 12345);
    assert_eq!(cfg.rsa_n, 67890);
}

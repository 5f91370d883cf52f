//! The encryption between the client and the server.
//!
//! The server's first four bytes, decrypted with the client's key, give the byte
//! that everything the client sends is masked with.

use vstd::prelude::*;
use vstd::arithmetic::power::pow;
use crate::code::read32;
#[allow(unused_imports)]
use crate::block_cipher::lemma_xor_twice;
#[allow(unused_imports)]
use crate::code::from_le32;
use crate::rsa32::modpow;
#[allow(unused_imports)]
use crate::rsa32::Rsa32;
use crate::server_list::config::AuxConfig;
use crate::server_list::info::ServerInfo;
use crate::text::own;

verus! {

/// The client's half of a key.
#[derive(Debug, Clone, Copy, PartialEq, Eq, Structural)]
pub struct PacketEncryptConfig {
    pub rsa_d: u32,
    pub rsa_n: u32,
}

/// Where a proxy sends what it masks.
#[derive(Debug, Clone, PartialEq, Eq)]
pub struct PacketProxyConfig {
    pub server_ip: String,
    pub server_port: u16,
    pub packet_encrypt: PacketEncryptConfig,
}

/// Where a proxy listens.
#[derive(Debug, Clone, PartialEq, Eq)]
pub struct PacketProxyEndpoint {
    pub ip: String,
    pub port: u16,
}

/// `base` to the power of `exp`, modulo `modulus`; 0 modulo 0.
pub open spec fn power_mod(base: nat, exp: nat, modulus: nat) -> int {
    if modulus == 0 {
        0
    } else {
        pow(base as int, exp) % modulus as int
    }
}

/// `base` to the power of `exp`, modulo `modulus`; 0 modulo 0.
pub fn modpow32(base: u64, exp: u64, modulus: u64) -> (r: u64)
    ensures
        r == power_mod(base as nat, exp as nat, modulus as nat),
{
    if modulus == 0 {
        return 0;
    }
    modpow(base, exp, modulus)
}

/// The byte that a cipher stands for.
pub open spec fn xor_of(cipher: u32, rsa_d: u32, rsa_n: u32) -> int {
    power_mod(cipher as nat, rsa_d as nat, rsa_n as nat) % 255 + 1
}

/// The byte that a cipher stands for.
pub fn auth_xor_from_cipher(cipher: u32, rsa_d: u32, rsa_n: u32) -> (r: u8)
    ensures
        r == xor_of(cipher, rsa_d, rsa_n),
        r >= 1,
{
    let plain: u64 = modpow32(cipher as u64, rsa_d as u64, rsa_n as u64);
    (plain % 255 + 1) as u8
}

/// The byte that the server's first four bytes stand for.
pub fn session_xor(auth: &[u8], config: &PacketEncryptConfig) -> (r: u8)
    requires
        auth@.len() >= 4,
    ensures
        r == xor_of(from_le32(auth@.subrange(0, 4)), config.rsa_d, config.rsa_n),
{
    auth_xor_from_cipher(read32(auth, 0), config.rsa_d, config.rsa_n)
}

/// Bytes masked with one byte.
pub open spec fn masked(s: Seq<u8>, xor: u8) -> Seq<u8> {
    Seq::new(s.len(), |i: int| s[i] ^ xor)
}

/// Masks the first `n` bytes of a buffer in their place.
pub fn xor_bytes(buf: &mut [u8], n: usize, xor: u8)
    requires
        n <= old(buf)@.len(),
    ensures
        final(buf)@ == masked(old(buf)@.take(n as int), xor) + old(buf)@.skip(n as int),
{
    let ghost start = buf@;
    let mut i: usize = 0;
    while i < n
        invariant
            i <= n,
            n <= start.len(),
            buf@.len() == start.len(),
            forall|k: int| 0 <= k < i ==> buf@[k] == start[k] ^ xor,
            forall|k: int| i <= k < start.len() ==> buf@[k] == start[k],
        decreases n - i,
    {
        let b: u8 = buf[i];
        buf[i] = b ^ xor;
        i += 1;
    }
    assert(buf@ == masked(start.take(n as int), xor) + start.skip(n as int));
}

/// The mask taken twice leaves the bytes as they were.
pub proof fn law_mask_twice(s: Seq<u8>, xor: u8)
    ensures
        masked(masked(s, xor), xor) == s,
{
    assert forall|i: int| 0 <= i < s.len() implies masked(masked(s, xor), xor)[i] == s[i] by {
        lemma_xor_twice(s[i], xor);
    }
    assert(masked(masked(s, xor), xor) == s);
}

/// With both halves of a key, what the server encrypted with its half is the
/// byte that the client finds with the other.
pub proof fn law_session_agrees(key: Rsa32, p: nat, q: nat, x: nat, cipher: u32)
    requires
        key.made_of(p, q),
        x < key.n,
        cipher == pow(x as int, key.e as nat) % key.n as int,
    ensures
        xor_of(cipher, key.d, key.n) == x % 255 + 1,
{
    crate::rsa32::law_key_round_trip(key, p, q, x);
}

/// The client's half of the key of the server that was chosen. `None` where
/// packets are not encrypted.
pub fn packet_encrypt_config_from_server(aux: &AuxConfig, server: &ServerInfo) -> (r: Result<
    Option<PacketEncryptConfig>,
    String,
>)
    ensures
        match r {
            Ok(None) => !aux.packet_encrypt,
            Ok(Some(c)) => {
                &&& aux.packet_encrypt
                &&& server.rsa_d != 0 && server.rsa_n != 0
                &&& c.rsa_d == server.rsa_d
                &&& c.rsa_n == server.rsa_n
            },
            Err(m) => {
                &&& aux.packet_encrypt
                &&& server.rsa_d == 0 || server.rsa_n == 0
                &&& m@
                    == "封包加密已開啟，但所選伺服器沒有 D/N 金鑰；請先在編碼器產生金鑰並重新編碼。"@
            },
        },
{
    if !aux.packet_encrypt {
        return Ok(None);
    }
    if server.rsa_d == 0 || server.rsa_n == 0 {
        return Err(
            own(
                "封包加密已開啟，但所選伺服器沒有 D/N 金鑰；請先在編碼器產生金鑰並重新編碼。",
            ),
        );
    }
    Ok(Some(PacketEncryptConfig { rsa_d: server.rsa_d, rsa_n: server.rsa_n }))
}

} // verus!

//! Keys of thirty-two bits.

use launcher::rsa32::{generate, is_prime, modpow, seed_nanos, seed_of};

#[test]
fn miller_rabin_basic() {
    assert!(is_prime(2));
    assert!(is_prime(65537));
    assert!(is_prime(2_001_201_551 / 41953)); // example N's q-prime guess
    assert!(!is_prime(1));
    assert!(!is_prime(100));
    assert!(!is_prime(65536));
}

/// 例子：E=628624543, N=2001201551, D=1424206015
/// 驗證 random^E mod N → cipher → cipher^D mod N == random
#[test]
fn example_rsa_roundtrip() {
    let e: u64 = 628_624_543;
    let d: u64 = 1_424_206_015;
    let n: u64 = 2_001_201_551;
    for &r in &[255u64, 12345, 0x1234567, 900_000_254] {
        let c = modpow(r, e, n);
        let p = modpow(c, d, n);
        assert_eq!(p, r, "RSA roundtrip 失敗 r={r}");
    }
}

#[test]
fn generated_keys_roundtrip() {
    for _ in 0..5 {
        let k = generate();
        let n_u = k.n as u64;
        assert!(n_u >= (1u64 << 30));
        assert!(n_u <= u32::MAX as u64);
        for &r in &[255u64, 0xABCD1234u64 % (n_u - 1), n_u / 2, n_u - 2] {
            let c = modpow(r, k.e as u64, n_u);
            let p = modpow(c, k.d as u64, n_u);
            assert_eq!(p, r, "k={k:?} r={r}");
        }
    }
}

#[test]
fn primes_above_thirty_two_bits_are_told() {
    assert!(is_prime(4_294_967_291));
    assert!(is_prime(4_294_967_311));
    assert!(is_prime(1_000_000_000_039));
    assert!(!is_prime(4_294_967_297));
    assert!(!is_prime(65_537 * 65_539));
    assert!(!is_prime(3_215_031_751));
    assert!(!is_prime(u64::MAX));
}

#[test]
fn a_clock_before_the_epoch_gives_a_fixed_seed() {
    assert_eq!(seed_of(Some(5)), 5);
    assert_eq!(seed_of(None), 0x12345678);
    assert_ne!(seed_nanos(), 0);
}

//! Small RSA keys that bind a client to its server: the server encrypts a
//! random number with `e`, the client gets it back with `d`.

use crate::primes::{
    divides, gcd_of, lemma_divisor_bound, lemma_prime_passes, lemma_rsa, passes_base, prime,
    squared,
};
use std::time::{Duration, SystemTime, UNIX_EPOCH};
use vstd::arithmetic::div_mod::*;
use vstd::arithmetic::mul::*;
use vstd::arithmetic::power::*;
use vstd::prelude::*;

verus! {

/// A key: the public exponent, the private exponent and the modulus.
#[derive(Debug, Clone, Copy)]
pub struct Rsa32 {
    pub e: u32,
    pub d: u32,
    pub n: u32,
}

impl Rsa32 {
    /// The key belongs to the primes `p` and `q`.
    pub open spec fn made_of(self, p: nat, q: nat) -> bool {
        &&& prime(p)
        &&& prime(q)
        &&& p != q
        &&& 40000 <= p <= 65535
        &&& 40000 <= q <= 65535
        &&& self.n == p * q
        &&& 1 < self.e < (p - 1) * (q - 1)
        &&& 3 <= self.d < (p - 1) * (q - 1)
        &&& self.d % 2 == 1
        &&& (self.e * self.d) % ((p - 1) * (q - 1)) == 1
    }
}

/// `a` times `b` modulo `m`.
pub fn mulmod(a: u64, b: u64, m: u64) -> (r: u64)
    requires
        m > 0,
    ensures
        r == (a as int * b as int) % (m as int),
        r < m,
{
    assert(a * b <= 0xffff_ffff_ffff_ffff * 0xffff_ffff_ffff_ffff) by (nonlinear_arith)
        requires
            a <= 0xffff_ffff_ffff_ffff,
            b <= 0xffff_ffff_ffff_ffff,
    ;
    assert(a * b >= 0) by (nonlinear_arith)
        requires
            a >= 0,
            b >= 0,
    ;
    let p: u128 = (a as u128) * (b as u128);
    (p % (m as u128)) as u64
}

proof fn lemma_power_step(b: int, e: nat, m: int)
    requires
        m > 0,
    ensures
        pow((b * b) % m, e / 2) % m == pow(b, (e - e % 2) as nat) % m,
        e % 2 == 1 ==> pow(b, e) == b * pow(b, (e - 1) as nat),
{
    lemma_pow_mod_noop(b * b, e / 2, m);
    lemma_square_is_pow2(b);
    lemma_pow_multiplies(b, 2, e / 2);
    if e % 2 == 1 {
        reveal(pow);
    }
}

/// `base` to the power of `exp` modulo `m`.
pub fn modpow(base: u64, exp: u64, m: u64) -> (r: u64)
    requires
        m > 0,
    ensures
        r == pow(base as int, exp as nat) % (m as int),
{
    if m == 1 {
        return 0;
    }
    let mut result: u64 = 1;
    let mut b: u64 = base % m;
    let mut e: u64 = exp;
    let ghost target = pow(base as int, exp as nat) % (m as int);
    proof {
        lemma_pow_mod_noop(base as int, exp as nat, m as int);
        assert(1 * pow(b as int, e as nat) == pow(b as int, e as nat));
    }
    while e > 0
        invariant
            m > 1,
            result < m,
            b < m,
            (result * pow(b as int, e as nat)) % (m as int) == target,
        decreases e,
    {
        let ghost m0 = m as int;
        let ghost r0 = result as int;
        let ghost b0 = b as int;
        let ghost e0 = e as nat;
        proof {
            lemma_power_step(b0, e0, m0);
        }
        if e % 2 == 1 {
            result = mulmod(result, b, m);
            proof {
                let z = pow(b0, (e0 - 1) as nat);
                assert(r0 * (b0 * z) == (r0 * b0) * z) by (nonlinear_arith);
                lemma_mul_mod_noop_left(r0 * b0, z, m0);
            }
        }
        proof {
            let z = pow(b0, (e0 - e0 % 2) as nat);
            assert((result * z) % m0 == target);
            lemma_mul_mod_noop_right(result as int, z, m0);
            lemma_mul_mod_noop_right(result as int, pow((b0 * b0) % m0, e0 / 2), m0);
        }
        e = e / 2;
        b = mulmod(b, b, m);
    }
    proof {
        lemma_pow0(b as int);
        assert(result * 1 == result);
        lemma_small_mod(result as nat, m as nat);
    }
    result
}

/// The greatest common divisor.
pub fn gcd(a: u64, b: u64) -> (r: u64)
    ensures
        r == gcd_of(a as nat, b as nat),
{
    let mut x: u64 = a;
    let mut y: u64 = b;
    while y != 0
        invariant
            gcd_of(x as nat, y as nat) == gcd_of(a as nat, b as nat),
        decreases y,
    {
        let t: u64 = y;
        y = x % y;
        x = t;
    }
    x
}

/// The greatest common divisor `g` of `a` and `b`, and `x` and `y` with
/// `a * x + b * y == g`.
pub fn ext_gcd(a: i64, b: i64) -> (r: (i64, i64, i64))
    requires
        0 <= a,
        0 <= b,
    ensures
        r.0 == gcd_of(a as nat, b as nat),
        a * r.1 + b * r.2 == r.0,
        b == 0 ==> r.1 == 1 && r.2 == 0,
        b > 0 ==> -b <= r.1 <= b,
        b > 0 && a > 0 ==> -a <= r.2 <= a,
        b > 0 && a == 0 ==> r.2 == 1,
    decreases b,
{
    if b == 0 {
        (a, 1, 0)
    } else {
        let q: i64 = ((a as u64) / (b as u64)) as i64;
        let t: i64 = ((a as u64) % (b as u64)) as i64;
        let (g, x1, y1) = ext_gcd(b, t);
        proof {
            lemma_fundamental_div_mod(a as int, b as int);
            lemma_div_pos_is_pos(a as int, b as int);
            assert(-(b * q) <= q * y1 <= b * q) by (nonlinear_arith)
                requires
                    -b <= y1 <= b,
                    q >= 0,
                    b > 0,
            ;
            assert(a == b * q + t);
            assert(a * y1 + b * (x1 - q * y1) == b * x1 + t * y1) by (nonlinear_arith)
                requires
                    a == b * q + t,
            ;
            if a == 0 {
                assert(q == 0 && t == 0) by {
                    lemma_div_of0(b as int);
                    lemma_small_mod(0, b as nat);
                }
            }
            if t == 0 {
                assert(q * y1 == 0) by (nonlinear_arith)
                    requires
                        y1 == 0,
                ;
            }
        }
        (g, y1, x1 - q * y1)
    }
}

/// The inverse of `a` modulo `m`; there is none where the two have a common
/// divisor.
pub fn mod_inverse(a: u64, m: u64) -> (r: Option<u64>)
    requires
        a <= i64::MAX,
        0 < m <= i64::MAX,
    ensures
        match r {
            Some(v) => gcd_of(a as nat, m as nat) == 1 && v < m && (a * v) % (m as int) == 1int % (
            m as int),
            None => gcd_of(a as nat, m as nat) != 1,
        },
{
    let (g, x, y) = ext_gcd(a as i64, m as i64);
    if g != 1 {
        return None;
    }
    let v: u64 = if x >= 0 {
        (x as u64) % m
    } else {
        let k: u64 = ((-x) as u64) % m;
        if k == 0 {
            0
        } else {
            m - k
        }
    };
    proof {
        let mm = m as int;
        if x >= 0 {
            lemma_fundamental_div_mod(x as int, mm);
        } else {
            lemma_fundamental_div_mod(-(x as int), mm);
        }
        let c = if x >= 0 {
            x as int / mm
        } else if (-(x as int)) % mm == 0 {
            -((-(x as int)) / mm)
        } else {
            -((-(x as int)) / mm) - 1
        };
        assert(x == mm * c + v) by (nonlinear_arith)
            requires
                x >= 0 ==> x == mm * (x as int / mm) + (x as int) % mm && c == x as int / mm && v == (
                x as int) % mm,
                x < 0 ==> -(x as int) == mm * ((-(x as int)) / mm) + (-(x as int)) % mm,
                x < 0 && (-(x as int)) % mm == 0 ==> c == -((-(x as int)) / mm) && v == 0,
                x < 0 && (-(x as int)) % mm != 0 ==> c == -((-(x as int)) / mm) - 1 && v == mm - (-(
                x as int)) % mm,
        ;
        assert(a * v == mm * (-(a * c) - y) + 1) by (nonlinear_arith)
            requires
                x == mm * c + v,
                a * x + mm * y == 1,
        ;
        lemma_mod_multiples_vanish(-(a * c) - y, 1, mm);
    }
    Some(v)
}

/// The bases of the strong primality test.
pub open spec fn bases() -> Seq<u64> {
    seq![2, 3, 5, 7, 11, 13, 17, 19, 23, 29, 31, 37]
}

fn base_list() -> (r: [u64; 12])
    ensures
        r@ == bases(),
{
    [2, 3, 5, 7, 11, 13, 17, 19, 23, 29, 31, 37]
}

proof fn lemma_divisor_of_divisor(q: int, d: int, n: int)
    requires
        q > 0,
        d > 0,
        d % q == 0,
        n % d == 0,
    ensures
        n % q == 0,
{
    lemma_fundamental_div_mod(n, d);
    lemma_fundamental_div_mod(d, q);
    let c = n / d;
    let e = d / q;
    assert(n == q * (e * c)) by (nonlinear_arith)
        requires
            n == d * c,
            d == q * e,
    ;
    lemma_mod_multiples_basic(e * c, q);
    assert((e * c) * q == q * (e * c)) by (nonlinear_arith);
}

proof fn lemma_six_more(k: nat, n: int)
    requires
        k >= 5,
        k % 6 == 5,
        n % 2 != 0,
        n % 3 != 0,
        !divides(k, n),
        !divides(k + 2, n),
        forall|d: nat| 1 < d < k ==> !#[trigger] divides(d, n),
    ensures
        forall|d: nat| 1 < d < k + 6 ==> !#[trigger] divides(d, n),
{
    assert forall|d: nat| 1 < d < k + 6 implies !#[trigger] divides(d, n) by {
        if d >= k && divides(d, n) {
            if d % 2 == 0 {
                lemma_divisor_of_divisor(2, d as int, n);
            } else if d == k + 4 {
                assert(d % 3 == 0);
                lemma_divisor_of_divisor(3, d as int, n);
            } else {
                assert(d == k || d == k + 2);
            }
        }
    }
}

/// Tries two, three and all divisors next to a multiple of six, up to the square
/// root.
fn has_no_divisor(n: u64) -> (r: bool)
    requires
        2 <= n,
    ensures
        r == prime(n as nat),
{
    if n < 4 {
        assert forall|d: nat| 1 < d < n implies !#[trigger] divides(d, n as int) by {
            assert(d == 2 && n == 3);
        }
        return true;
    }
    if n % 2 == 0 {
        assert(divides(2, n as int));
        return false;
    }
    if n % 3 == 0 {
        assert(divides(3, n as int));
        return false;
    }
    let mut k: u64 = 5;
    assert forall|d: nat| 1 < d < k implies !#[trigger] divides(d, n as int) by {
        if d == 4 && divides(d, n as int) {
            lemma_divisor_of_divisor(2, 4, n as int);
        }
    }
    while k < 0x1_0000_0000 && k * k <= n
        invariant
            4 <= n,
            n % 2 != 0,
            n % 3 != 0,
            5 <= k <= 0x1_0000_0005,
            k % 6 == 5,
            k < 0x1_0000_0000 ==> k * k <= u64::MAX,
            forall|d: nat| 1 < d < k ==> !#[trigger] divides(d, n as int),
        decreases 0x1_0000_0005 - k,
    {
        assert(k + 2 < n) by (nonlinear_arith)
            requires
                k * k <= n,
                k >= 5,
        ;
        if n % k == 0 {
            assert(divides(k as nat, n as int));
            return false;
        }
        if n % (k + 2) == 0 {
            assert(divides((k + 2) as nat, n as int));
            return false;
        }
        proof {
            lemma_six_more(k as nat, n as int);
        }
        k += 6;
        assert(k < 0x1_0000_0000 ==> k * k <= u64::MAX) by (nonlinear_arith)
            requires
                5 <= k,
        ;
    }
    proof {
        assert(k * k > n) by (nonlinear_arith)
            requires
                !(k < 0x1_0000_0000 && k * k <= n),
                5 <= k,
                n <= u64::MAX,
        ;
        assert forall|d: nat| 1 < d < n implies !#[trigger] divides(d, n as int) by {
            if divides(d, n as int) && d >= k {
                let nn = n as int;
                lemma_fundamental_div_mod(nn, d as int);
                let c = nn / (d as int);
                assert(1 < c < k) by (nonlinear_arith)
                    requires
                        nn == d * c,
                        1 < d < nn,
                        d >= k,
                        k * k > nn,
                        k >= 2,
                ;
                assert(nn == d * c);
                lemma_mod_multiples_basic(d as int, c);
                assert(divides(c as nat, nn));
            }
        }
    }
    true
}

/// One round of the strong test.
fn base_passes(n: u64, d: u64, r: u64, a: u64) -> (ok: bool)
    requires
        n > 1,
        r > 0,
    ensures
        ok == passes_base(n as nat, d as nat, r as nat, a as nat),
{
    let mut x: u64 = modpow(a, d, n);
    let ghost x0 = x as int;
    if x == 1 || x == n - 1 {
        proof {
            if x == n - 1 {
                assert(squared(x0, 0, n as int) == n - 1);
            }
        }
        return true;
    }
    let mut i: u64 = 0;
    while i < r - 1
        invariant
            n > 1,
            r > 0,
            i <= r - 1,
            x == squared(x0, i as nat, n as int),
            x0 == pow(a as int, d as nat) % (n as int),
            x0 != 1,
            forall|j: nat| j <= i ==> #[trigger] squared(x0, j, n as int) != n - 1,
        decreases r - i,
    {
        x = mulmod(x, x, n);
        assert(x == squared(x0, (i + 1) as nat, n as int));
        if x == n - 1 {
            return true;
        }
        i += 1;
    }
    false
}

/// Whether `n` is a prime. What fails the strong test to one of twelve bases is
/// none; what passes is confirmed by trial division.
pub fn is_prime(n: u64) -> (r: bool)
    ensures
        r == prime(n as nat),
{
    if n < 2 {
        return false;
    }
    let list = base_list();
    let mut i: usize = 0;
    while i < 12
        invariant
            i <= 12,
            n >= 2,
            list@ == bases(),
            forall|j: int|
                0 <= j < i ==> !divides(#[trigger] bases()[j] as nat, n as int) && n != bases()[j],
        decreases 12 - i,
    {
        let p: u64 = list[i];
        assert(p == bases()[i as int]);
        assert(2 <= p <= 37);
        if n == p {
            return has_no_divisor(n);
        }
        if n % p == 0 {
            proof {
                assert(divides(p as nat, n as int));
                lemma_divisor_bound(p as nat, n as nat);
            }
            return false;
        }
        i += 1;
    }
    proof {
        assert(n > 37) by {
            assert(!divides(bases()[0] as nat, n as int) && n != bases()[0]);
            assert(!divides(bases()[1] as nat, n as int) && n != bases()[1]);
            assert(!divides(bases()[2] as nat, n as int) && n != bases()[2]);
            assert(!divides(bases()[3] as nat, n as int) && n != bases()[3]);
            assert(n != bases()[4] && n != bases()[5] && n != bases()[6] && n != bases()[7]);
            assert(n != bases()[8] && n != bases()[9] && n != bases()[10] && n != bases()[11]);
            assert(n % 2 != 0 && n % 3 != 0 && n % 5 != 0 && n % 7 != 0);
        }
    }
    let mut d: u64 = n - 1;
    let mut r: u64 = 0;
    proof {
        lemma_pow0(2);
        assert(!divides(bases()[0] as nat, n as int));
        assert(n % 2 == 1);
    }
    while d % 2 == 0
        invariant
            n > 37,
            n % 2 == 1,
            d > 0,
            r + d <= n - 1,
            n - 1 == d * pow(2, r as nat),
            r == 0 ==> d == n - 1,
        decreases d,
    {
        proof {
            assert(pow(2, (r + 1) as nat) == 2 * pow(2, r as nat)) by {
                reveal(pow);
            }
            assert((d / 2) * (2 * pow(2, r as nat)) == d * pow(2, r as nat)) by (nonlinear_arith)
                requires
                    d == 2 * (d / 2),
            ;
        }
        d = d / 2;
        r += 1;
    }
    assert(r > 0);
    let mut k: usize = 0;
    while k < 12
        invariant
            k <= 12,
            n > 37,
            r > 0,
            list@ == bases(),
            n - 1 == d * pow(2, r as nat),
            forall|j: int|
                0 <= j < 12 ==> !divides(#[trigger] bases()[j] as nat, n as int) && n != bases()[j],
        decreases 12 - k,
    {
        let a: u64 = list[k];
        assert(a == bases()[k as int]);
        assert(2 <= a <= 37);
        if !base_passes(n, d, r, a) {
            proof {
                if prime(n as nat) {
                    lemma_prime_passes(n as nat, d as nat, r as nat, a as nat);
                }
            }
            return false;
        }
        k += 1;
    }
    has_no_divisor(n)
}

/// One output of the generator for a state.
#[verifier::opaque]
pub open spec fn mixed(s: u64) -> u64 {
    let a = (s ^ (s >> 30)).wrapping_mul(0xBF58476D1CE4E5B9);
    let b = (a ^ (a >> 27)).wrapping_mul(0x94D049BB133111EB);
    b ^ (b >> 31)
}

/// The state behind a state.
#[verifier::opaque]
pub open spec fn advanced(s: u64) -> u64 {
    s.wrapping_add(0x9E3779B97F4A7C15)
}

/// The generator's first state for a clock reading.
pub open spec fn seeded(nanos: u64) -> u64 {
    nanos.wrapping_mul(0x9E3779B97F4A7C15).wrapping_add(1)
}

/// `std::time::SystemTime`, a reading of the clock.
#[verifier::external_type_specification]
#[verifier::external_body]
pub struct ExSystemTime(std::time::SystemTime);

/// `SystemTime::now`. The reading depends on the clock, so nothing is said of it.
#[verifier::external_body]
fn clock_now() -> (r: SystemTime) {
    SystemTime::now()
}

/// `SystemTime::duration_since` of the epoch; nothing where the reading stands
/// before it. A reading is opaque, so no more is said.
#[verifier::external_body]
fn since_epoch(now: SystemTime) -> (r: Option<Duration>) {
    now.duration_since(UNIX_EPOCH).ok()
}

/// `Duration::as_nanos`. A duration is opaque, so nothing is said of the number.
#[verifier::external_body]
fn whole_nanos(d: Duration) -> (r: u128) {
    d.as_nanos()
}

/// The clock in nanoseconds since the epoch, as far as 64 bits go; nothing before
/// the epoch.
fn clock_nanos() -> (r: Option<u64>) {
    match since_epoch(clock_now()) {
        Some(d) => Some(whole_nanos(d) as u64),
        None => None,
    }
}

/// What a generator is seeded with for a clock reading; a fixed number where the
/// clock stands before the epoch.
pub open spec fn seed_for(reading: Option<u64>) -> u64 {
    match reading {
        Some(v) => v,
        None => 0x12345678,
    }
}

/// What a generator is seeded with for a clock reading.
pub fn seed_of(reading: Option<u64>) -> (r: u64)
    ensures
        r == seed_for(reading),
{
    match reading {
        Some(v) => v,
        None => 0x12345678,
    }
}

/// What a generator is seeded with now. It is what some reading of the clock
/// gives; which one depends on the clock.
pub fn seed_nanos() -> (r: u64)
    ensures
        exists|reading: Option<u64>| r == #[trigger] seed_for(reading),
{
    let reading = clock_nanos();
    let r: u64 = seed_of(reading);
    assert(r == seed_for(reading));
    r
}

/// A small random number generator.
pub struct Lcg {
    pub state: u64,
}

impl Lcg {
    /// A generator seeded with a clock reading.
    pub fn from_nanos(nanos: u64) -> (r: Lcg)
        ensures
            r.state == seeded(nanos),
    {
        Lcg { state: nanos.wrapping_mul(0x9E3779B97F4A7C15).wrapping_add(1) }
    }

    /// The next 64 bits.
    pub fn next(&mut self) -> (r: u64)
        ensures
            final(self).state == advanced(old(self).state),
            r == mixed(final(self).state),
    {
        proof {
            reveal(mixed);
            reveal(advanced);
        }
        self.state = self.state.wrapping_add(0x9E3779B97F4A7C15);
        let s: u64 = self.state;
        let a: u64 = (s ^ (s >> 30)).wrapping_mul(0xBF58476D1CE4E5B9);
        let b: u64 = (a ^ (a >> 27)).wrapping_mul(0x94D049BB133111EB);
        b ^ (b >> 31)
    }

    /// A number in `lo..hi`.
    pub fn range(&mut self, lo: u64, hi: u64) -> (r: u64)
        requires
            lo < hi,
        ensures
            final(self).state == advanced(old(self).state),
            r == lo + mixed(final(self).state) % ((hi - lo) as u64),
            lo <= r < hi,
    {
        lo + self.next() % (hi - lo)
    }
}

/// The odd number from 40001 to 65535 that a state stands for.
pub open spec fn candidate(s: u64) -> u64 {
    let n = (40000 + mixed(s) % 25536) as u64;
    if n % 2 == 0 {
        (n + 1) as u64
    } else {
        n
    }
}

/// The first prime among the candidates of the next `fuel` states, and the state
/// that it came from; the largest such prime if none of them is one.
pub open spec fn next_prime(s: u64, fuel: nat) -> (u64, u64)
    decreases fuel,
{
    if fuel == 0 {
        (65521, s)
    } else if prime(candidate(advanced(s)) as nat) {
        (candidate(advanced(s)), advanced(s))
    } else {
        next_prime(advanced(s), (fuel - 1) as nat)
    }
}

/// Draws until a candidate is prime.
pub fn random_prime_16bit(rng: &mut Lcg) -> (r: u64)
    ensures
        (r, final(rng).state) == next_prime(old(rng).state, u64::MAX as nat),
        prime(r as nat),
        40000 <= r <= 65535,
{
    let mut fuel: u64 = u64::MAX;
    while fuel > 0
        invariant
            next_prime(old(rng).state, u64::MAX as nat) == next_prime(rng.state, fuel as nat),
        decreases fuel,
    {
        let n: u64 = rng.range(40000, 65536);
        let odd: u64 = if n % 2 == 0 {
            n + 1
        } else {
            n
        };
        assert(odd == candidate(rng.state));
        if is_prime(odd) {
            return odd;
        }
        fuel -= 1;
    }
    proof {
        lemma_known_primes();
    }
    65521
}

proof fn lemma_known_primes()
    ensures
        prime(65521),
        prime(65519),
{
    lemma_known_prime(65521);
    lemma_known_prime(65519);
}

proof fn lemma_known_prime(n: u32)
    requires
        n == 65521 || n == 65519,
    ensures
        prime(n as nat),
{
    assert forall|d: nat| 1 < d < n implies !#[trigger] divides(d, n as int) by {
        if divides(d, n as int) {
            let nn = n as int;
            lemma_fundamental_div_mod(nn, d as int);
            let c = nn / (d as int);
            assert(1 < c < nn && (d < 256 || c < 256)) by (nonlinear_arith)
                requires
                    nn == d * c,
                    1 < d < nn,
                    nn < 65536,
            ;
            lemma_mod_multiples_basic(d as int, c);
            assert(nn == d * c && nn % c == 0);
            let s: u32 = if d < 256 {
                d as u32
            } else {
                c as u32
            };
            assert(n % s == 0);
            assert(n % s != 0) by (bit_vector)
                requires
                    n == 65521u32 || n == 65519u32,
                    1 < s < 256,
            ;
        }
    }
}

/// The first prime other than `p` that `fuel` draws find, and the state behind it.
pub open spec fn next_other_prime(s: u64, p: u64, fuel: nat) -> (u64, u64)
    decreases fuel,
{
    if fuel == 0 {
        (if p == 65521 {
            65519
        } else {
            65521
        }, s)
    } else {
        let (q, t) = next_prime(s, u64::MAX as nat);
        if q != p {
            (q, t)
        } else {
            next_other_prime(t, p, (fuel - 1) as nat)
        }
    }
}

fn other_prime(rng: &mut Lcg, p: u64) -> (r: u64)
    ensures
        (r, final(rng).state) == next_other_prime(old(rng).state, p, u64::MAX as nat),
        prime(r as nat),
        40000 <= r <= 65535,
        r != p,
{
    let mut fuel: u64 = u64::MAX;
    while fuel > 0
        invariant
            next_other_prime(old(rng).state, p, u64::MAX as nat) == next_other_prime(
                rng.state,
                p,
                fuel as nat,
            ),
        decreases fuel,
    {
        let q: u64 = random_prime_16bit(rng);
        if q != p {
            return q;
        }
        fuel -= 1;
    }
    proof {
        lemma_known_primes();
    }
    if p == 65521 {
        65519
    } else {
        65521
    }
}

/// The key with the primes `p` and `q` and the private exponent `d`, if there is
/// one: `d` has to be odd and without a common divisor with `(p - 1) * (q - 1)`.
pub fn key_for(p: u64, q: u64, d: u64) -> (r: Option<Rsa32>)
    requires
        prime(p as nat),
        prime(q as nat),
        p != q,
        40000 <= p <= 65535,
        40000 <= q <= 65535,
        3 <= d < (p - 1) * (q - 1),
    ensures
        match r {
            Some(k) => k.made_of(p as nat, q as nat) && k.d == d && gcd_of(
                d as nat,
                ((p - 1) * (q - 1)) as nat,
            ) == 1,
            None => d % 2 == 0 || gcd_of(d as nat, ((p - 1) * (q - 1)) as nat) != 1,
        },
{
    proof {
        assert(1_600_000_000 <= p * q <= 4_294_836_225) by (nonlinear_arith)
            requires
                40000 <= p <= 65535,
                40000 <= q <= 65535,
        ;
        assert(1_599_920_001 <= (p - 1) * (q - 1) <= 4_294_705_156) by (nonlinear_arith)
            requires
                40000 <= p <= 65535,
                40000 <= q <= 65535,
        ;
        assert((p - 1) * (q - 1) < p * q) by (nonlinear_arith)
            requires
                40000 <= p,
                40000 <= q,
        ;
    }
    let n: u64 = p * q;
    let phi: u64 = (p - 1) * (q - 1);
    if d % 2 == 0 {
        return None;
    }
    if gcd(d, phi) != 1 {
        return None;
    }
    let e: u64 = match mod_inverse(d, phi) {
        Some(x) => x,
        None => return None,
    };
    proof {
        lemma_small_mod(1, phi as nat);
        assert(d * e == e * d) by (nonlinear_arith);
        if e == 0 {
            assert(d * e == 0) by (nonlinear_arith)
                requires
                    e == 0,
            ;
            lemma_small_mod(0, phi as nat);
        }
        if e == 1 {
            assert(d * e == d) by (nonlinear_arith)
                requires
                    e == 1,
            ;
            lemma_small_mod(d as nat, phi as nat);
        }
        assert(e > 1);
    }
    let probe: u64 = n / 7;
    let cipher: u64 = modpow(probe, e, n);
    let plain: u64 = modpow(cipher, d, n);
    proof {
        lemma_rsa(p as nat, q as nat, e as nat, d as nat, probe as nat);
    }
    if plain != probe {
        return None;
    }
    Some(Rsa32 { e: e as u32, d: d as u32, n: n as u32 })
}

/// The first private exponent that fits `phi` among those of the next `tries`
/// states, and the state behind the last draw.
pub open spec fn next_exponent(s: u64, phi: u64, tries: nat) -> (Option<u64>, u64)
    decreases tries,
{
    if tries == 0 {
        (None, s)
    } else {
        let t = advanced(s);
        let d = (3 + mixed(t) % ((phi - 3) as u64)) as u64;
        if d % 2 == 1 && gcd_of(d as nat, phi as nat) == 1 {
            (Some(d), t)
        } else {
            next_exponent(t, phi, (tries - 1) as nat)
        }
    }
}

/// The primes and the private exponent that are found from a state on. A search
/// that has failed `fuel` times ends with fixed ones.
pub open spec fn key_parts(s: u64, fuel: nat) -> (u64, u64, u64)
    decreases fuel,
{
    if fuel == 0 {
        (65521, 65519, 65_537)
    } else {
        let (p, s1) = next_prime(s, u64::MAX as nat);
        let (q, s2) = next_other_prime(s1, p, u64::MAX as nat);
        let phi = ((p - 1) * (q - 1)) as u64;
        match next_exponent(s2, phi, 1024) {
            (Some(d), s3) => (p, q, d),
            (None, s3) => key_parts(s3, (fuel - 1) as nat),
        }
    }
}

/// The key has the given primes and private exponent. The public exponent is the
/// one that belongs to them.
pub open spec fn key_has_parts(k: Rsa32, parts: (u64, u64, u64)) -> bool {
    k.made_of(parts.0 as nat, parts.1 as nat) && k.d == parts.2
}

/// A key from the generator's state on.
pub fn generate_with(rng: &mut Lcg) -> (r: Rsa32)
    ensures
        key_has_parts(r, key_parts(old(rng).state, u64::MAX as nat)),
{
    let mut fuel: u64 = u64::MAX;
    while fuel > 0
        invariant
            key_parts(old(rng).state, u64::MAX as nat) == key_parts(rng.state, fuel as nat),
        decreases fuel,
    {
        let ghost s = rng.state;
        let p: u64 = random_prime_16bit(rng);
        let q: u64 = other_prime(rng, p);
        let ghost s2 = rng.state;
        assert(3 < (p - 1) * (q - 1) <= 4_294_705_156) by (nonlinear_arith)
            requires
                40000 <= p <= 65535,
                40000 <= q <= 65535,
        ;
        let phi: u64 = (p - 1) * (q - 1);
        let mut tries: u32 = 0;
        while tries < 1024
            invariant
                tries <= 1024,
                prime(p as nat),
                prime(q as nat),
                p != q,
                40000 <= p <= 65535,
                40000 <= q <= 65535,
                phi == (p - 1) * (q - 1),
                3 < phi,
                next_exponent(s2, phi, 1024) == next_exponent(
                    rng.state,
                    phi,
                    (1024 - tries) as nat,
                ),
                key_parts(old(rng).state, u64::MAX as nat) == key_parts(s, fuel as nat),
                fuel > 0,
                (p, q) == (
                    next_prime(s, u64::MAX as nat).0,
                    next_other_prime(
                        next_prime(s, u64::MAX as nat).1,
                        p,
                        u64::MAX as nat,
                    ).0,
                ),
                s2 == next_other_prime(next_prime(s, u64::MAX as nat).1, p, u64::MAX as nat).1,
            decreases 1024 - tries,
        {
            let d: u64 = rng.range(3, phi);
            match key_for(p, q, d) {
                Some(k) => {
                    assert(k.made_of(p as nat, q as nat));
                    assert(gcd_of(d as nat, phi as nat) == 1);
                    return k;
                },
                None => {},
            }
            tries += 1;
        }
        fuel -= 1;
    }
    let k = Rsa32 { e: 1_475_213_633, d: 65_537, n: 4_292_870_399 };
    proof {
        lemma_known_primes();
        let p: nat = 65521;
        let q: nat = 65519;
        assert(p * q == 4_292_870_399 && (p - 1) * (q - 1) == 4_292_739_360) by (nonlinear_arith)
            requires
                p == 65521,
                q == 65519,
        ;
        assert(k.e * k.d == 96_681_075_865_921) by (nonlinear_arith)
            requires
                k.e == 1_475_213_633,
                k.d == 65_537,
        ;
        assert(k.made_of(p, q));
    }
    k
}

/// A new key, from the clock.
pub fn generate() -> (r: Rsa32)
    ensures
        exists|nanos: u64|
            key_has_parts(r, #[trigger] key_parts(seeded(nanos), u64::MAX as nat)),
        exists|p: nat, q: nat| r.made_of(p, q),
{
    let nanos: u64 = seed_nanos();
    let mut rng = Lcg::from_nanos(nanos);
    let k = generate_with(&mut rng);
    assert(key_has_parts(k, key_parts(seeded(nanos), u64::MAX as nat)));
    k
}

/// What the server encrypts with a key, the client decrypts to what it was.
pub proof fn law_key_round_trip(k: Rsa32, p: nat, q: nat, r: nat)
    requires
        k.made_of(p, q),
        r < k.n,
    ensures
        pow(pow(r as int, k.e as nat) % (k.n as int), k.d as nat) % (k.n as int) == r,
{
    lemma_rsa(p, q, k.e as nat, k.d as nat, r);
}

/// The modulus of a key has thirty-one or thirty-two bits.
pub proof fn law_modulus_size(k: Rsa32, p: nat, q: nat)
    requires
        k.made_of(p, q),
    ensures
        0x4000_0000 <= k.n <= u32::MAX,
{
    assert(p * q >= 1_600_000_000) by (nonlinear_arith)
        requires
            p >= 40000,
            q >= 40000,
    ;
}

/// A candidate for a prime is odd and lies between 40000 and 65535.
pub proof fn law_candidates(s: u64)
    ensures
        40000 <= candidate(s) <= 65535,
        candidate(s) % 2 == 1,
{
}

/// A private exponent that is found is odd, has no divisor in common with the number it
/// is chosen for, and lies below it.
pub proof fn law_exponents(s: u64, phi: u64, tries: nat)
    requires
        phi > 3,
    ensures
        next_exponent(s, phi, tries).0 matches Some(d) ==> 3 <= d < phi && d % 2 == 1 && gcd_of(
            d as nat,
            phi as nat,
        ) == 1,
    decreases tries,
{
    if tries > 0 {
        law_exponents(advanced(s), phi, (tries - 1) as nat);
    }
}

} // verus!

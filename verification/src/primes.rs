//! Divisibility, primes and powers: what the key generator rests on.

use vstd::arithmetic::div_mod::*;
use vstd::arithmetic::mul::*;
use vstd::arithmetic::power::*;
use vstd::prelude::*;

verus! {

/// `d` divides `n` without remainder.
pub open spec fn divides(d: nat, n: int) -> bool {
    d > 0 && n % (d as int) == 0
}

/// A prime number: greater than one, and divided by nothing in between.
pub open spec fn prime(p: nat) -> bool {
    p > 1 && forall|d: nat| 1 < d < p ==> !#[trigger] divides(d, p as int)
}

/// The greatest common divisor, after Euclid.
pub open spec fn gcd_of(a: nat, b: nat) -> nat
    decreases b,
{
    if b == 0 {
        a
    } else {
        gcd_of(b, a % b)
    }
}

pub proof fn lemma_divides_sum(d: nat, x: int, y: int, k: int)
    requires
        divides(d, x),
        divides(d, y),
    ensures
        divides(d, x + k * y),
        divides(d, k * y),
{
    let m = d as int;
    lemma_fundamental_div_mod(x, m);
    lemma_fundamental_div_mod(y, m);
    let a = x / m;
    let b = y / m;
    assert(x + k * y == (a + k * b) * m) by (nonlinear_arith)
        requires
            x == m * a,
            y == m * b,
    ;
    assert(k * y == (k * b) * m) by (nonlinear_arith)
        requires
            y == m * b,
    ;
    lemma_mod_multiples_basic(a + k * b, m);
    lemma_mod_multiples_basic(k * b, m);
}

/// The greatest common divisor divides both numbers, and every common divisor
/// divides it.
pub proof fn lemma_gcd(a: nat, b: nat)
    requires
        a > 0 || b > 0,
    ensures
        divides(gcd_of(a, b), a as int),
        divides(gcd_of(a, b), b as int),
        forall|d: nat|
            divides(d, a as int) && divides(d, b as int) ==> #[trigger] divides(
                d,
                gcd_of(a, b) as int,
            ),
    decreases b,
{
    if b > 0 {
        let r = a % b;
        lemma_gcd(b, r);
        let g = gcd_of(a, b);
        lemma_fundamental_div_mod(a as int, b as int);
        lemma_divides_sum(g, r as int, b as int, (a / b) as int);
        assert(r + (a / b) * b == a) by (nonlinear_arith)
            requires
                a == b * (a / b) + r,
        ;
        assert forall|d: nat| divides(d, a as int) && divides(d, b as int) implies
            #[trigger] divides(d, g as int) by {
            lemma_divides_sum(d, a as int, b as int, -((a / b) as int));
            assert(a + -((a / b) as int) * b == r) by (nonlinear_arith)
                requires
                    a == b * (a / b) + r,
            ;
        }
    } else {
        lemma_mod_self_0(a as int);
        lemma_small_mod(0, a);
    }
}

/// The greatest common divisor as a combination of the two numbers.
pub proof fn lemma_bezout(a: nat, b: nat) -> (r: (int, int))
    ensures
        a * r.0 + b * r.1 == gcd_of(a, b),
    decreases b,
{
    if b == 0 {
        (1, 0)
    } else {
        let (x1, y1) = lemma_bezout(b, a % b);
        lemma_fundamental_div_mod(a as int, b as int);
        let q = (a / b) as int;
        let r = (a % b) as int;
        assert(a * y1 + b * (x1 - q * y1) == b * x1 + r * y1) by (nonlinear_arith)
            requires
                a == b * q + r,
        ;
        (y1, x1 - q * y1)
    }
}

/// A divisor of a positive number is not larger.
pub proof fn lemma_divisor_bound(d: nat, n: nat)
    requires
        divides(d, n as int),
        n > 0,
    ensures
        d <= n,
{
    if d > n {
        lemma_small_mod(n, d);
    }
}

/// A prime has no divisor in common with a number that it does not divide.
pub proof fn lemma_prime_coprime(p: nat, a: nat)
    requires
        prime(p),
        !divides(p, a as int),
    ensures
        gcd_of(a, p) == 1,
{
    lemma_gcd(a, p);
    let g = gcd_of(a, p);
    lemma_divisor_bound(g, p);
    if g != 1 && g != p {
        assert(divides(g, p as int));
    }
}

/// Euclid's lemma.
pub proof fn lemma_euclid(p: nat, a: nat, b: int)
    requires
        prime(p),
        divides(p, a * b),
        !divides(p, a as int),
    ensures
        divides(p, b),
{
    lemma_prime_coprime(p, a);
    let (x, y) = lemma_bezout(a, p);
    let m = p as int;
    lemma_fundamental_div_mod(a * b, m);
    let k = (a * b) / m;
    assert(b == (k * x + b * y) * m) by (nonlinear_arith)
        requires
            a * x + p * y == 1,
            a * b == m * k,
            m == p,
    ;
    lemma_mod_multiples_basic(k * x + b * y, m);
}

/// The binomial coefficients.
pub open spec fn binom(n: nat, k: nat) -> nat
    decreases n,
{
    if k == 0 {
        1
    } else if n == 0 {
        0
    } else {
        binom((n - 1) as nat, (k - 1) as nat) + binom((n - 1) as nat, k)
    }
}

proof fn lemma_binom_zero(n: nat, k: nat)
    requires
        k > n,
    ensures
        binom(n, k) == 0,
    decreases n,
{
    if n > 0 {
        lemma_binom_zero((n - 1) as nat, (k - 1) as nat);
        lemma_binom_zero((n - 1) as nat, k);
    }
}

proof fn lemma_binom_one(n: nat)
    ensures
        binom(n, n) == 1,
    decreases n,
{
    if n > 0 {
        lemma_binom_one((n - 1) as nat);
        lemma_binom_zero((n - 1) as nat, n);
    }
}

proof fn lemma_binom_absorb(n: nat, k: nat)
    requires
        n > 0,
        k > 0,
    ensures
        k * binom(n, k) == n * binom((n - 1) as nat, (k - 1) as nat),
    decreases n,
{
    let n1 = (n - 1) as nat;
    let k1 = (k - 1) as nat;
    let a = binom(n1, k1);
    let b = binom(n1, k);
    if n == 1 {
        if k > 1 {
            lemma_binom_zero(n1, k1);
            lemma_binom_zero(n1, k);
        } else {
            assert(binom(0, 0) == 1);
            assert(binom(0, 1) == 0);
        }
        assert(k * (a + b) == n * a) by (nonlinear_arith)
            requires
                n == 1,
                b == 0,
                k == 1 || a == 0,
        ;
    } else {
        lemma_binom_absorb(n1, k);
        let n2 = (n - 2) as nat;
        if k == 1 {
            assert(binom(n1, 0) == 1);
            assert(binom(n2, 0) == 1);
            assert(k * (a + b) == n * a) by (nonlinear_arith)
                requires
                    k == 1,
                    a == 1,
                    k * b == n1 * 1,
                    n1 == n - 1,
            ;
        } else {
            lemma_binom_absorb(n1, k1);
            let k2 = (k - 2) as nat;
            assert(a == binom(n2, k2) + binom(n2, k1));
            assert(k * (a + b) == n * a) by (nonlinear_arith)
                requires
                    k * b == n1 * binom(n2, k1),
                    k1 * a == n1 * binom(n2, k2),
                    a == binom(n2, k2) + binom(n2, k1),
                    k1 == k - 1,
                    n1 == n - 1,
            ;
        }
    }
}

/// The first terms of the binomial expansion of `(x + 1)^n`.
spec fn expansion(n: nat, x: int, j: nat) -> int
    decreases j,
{
    if j == 0 {
        1
    } else {
        expansion(n, x, (j - 1) as nat) + binom(n, j) * pow(x, j)
    }
}

proof fn lemma_expansion_pascal(n: nat, x: int, j: nat)
    requires
        j > 0,
    ensures
        expansion(n + 1, x, j) == expansion(n, x, j) + x * expansion(n, x, (j - 1) as nat),
    decreases j,
{
    let j1 = (j - 1) as nat;
    assert(pow(x, j) == x * pow(x, j1)) by {
        reveal(pow);
    }
    assert(binom(n + 1, j) == binom(n, j1) + binom(n, j));
    if j == 1 {
        lemma_pow0(x);
        assert(binom(n, 0) == 1);
        assert(expansion(n + 1, x, 0) == 1 && expansion(n, x, 0) == 1);
        assert((binom(n, j1) + binom(n, j)) * pow(x, j) == x * 1 + binom(n, j) * pow(x, j))
            by (nonlinear_arith)
            requires
                binom(n, j1) == 1,
                pow(x, j) == x * pow(x, j1),
                pow(x, j1) == 1,
        ;
    } else {
        lemma_expansion_pascal(n, x, j1);
        let j2 = (j - 2) as nat;
        assert(expansion(n, x, j1) == expansion(n, x, j2) + binom(n, j1) * pow(x, j1));
        assert(x * expansion(n, x, j1) == x * expansion(n, x, j2) + binom(n, j1) * pow(x, j))
            by (nonlinear_arith)
            requires
                expansion(n, x, j1) == expansion(n, x, j2) + binom(n, j1) * pow(x, j1),
                pow(x, j) == x * pow(x, j1),
        ;
        assert((binom(n, j1) + binom(n, j)) * pow(x, j) == binom(n, j1) * pow(x, j) + binom(n, j)
            * pow(x, j)) by (nonlinear_arith);
    }
}

proof fn lemma_expansion(n: nat, x: int)
    ensures
        expansion(n, x, n) == pow(x + 1, n),
    decreases n,
{
    if n == 0 {
        lemma_pow0(x + 1);
    } else {
        let n1 = (n - 1) as nat;
        lemma_expansion(n1, x);
        lemma_expansion_pascal(n1, x, n);
        lemma_binom_zero(n1, n);
        assert(binom(n1, n) * pow(x, n) == 0) by (nonlinear_arith)
            requires
                binom(n1, n) == 0,
        ;
        assert(pow(x + 1, n) == (x + 1) * pow(x + 1, n1)) by {
            reveal(pow);
        }
        assert((x + 1) * expansion(n1, x, n1) == expansion(n1, x, n1) + x * expansion(n1, x, n1))
            by (nonlinear_arith);
    }
}

proof fn lemma_middle_terms(p: nat, x: int, j: nat)
    requires
        prime(p),
        j < p,
    ensures
        divides(p, expansion(p, x, j) - 1),
    decreases j,
{
    if j == 0 {
        lemma_small_mod(0, p);
    } else {
        lemma_middle_terms(p, x, (j - 1) as nat);
        lemma_binom_absorb(p, j);
        let b = binom(p, j);
        let c = binom((p - 1) as nat, (j - 1) as nat);
        assert(j * b == c * (p as int)) by (nonlinear_arith)
            requires
                j * b == p * c,
        ;
        lemma_mod_multiples_basic(c as int, p as int);
        lemma_small_mod(j, p);
        lemma_euclid(p, j, b as int);
        lemma_divides_sum(p, expansion(p, x, (j - 1) as nat) - 1, b as int, pow(x, j));
        assert(pow(x, j) * b == b * pow(x, j)) by (nonlinear_arith);
    }
}

/// Fermat's little theorem.
pub proof fn lemma_fermat(p: nat, a: nat)
    requires
        prime(p),
    ensures
        pow(a as int, p) % (p as int) == (a as int) % (p as int),
    decreases a,
{
    let m = p as int;
    if a == 0 {
        lemma0_pow(p);
    } else {
        let x = a - 1;
        lemma_fermat(p, x as nat);
        lemma_expansion(p, x);
        let p1 = (p - 1) as nat;
        lemma_middle_terms(p, x, p1);
        lemma_binom_one(p);
        let s = expansion(p, x, p1);
        assert(pow(a as int, p) == s + pow(x, p));
        lemma_fundamental_div_mod(s - 1, m);
        lemma_fundamental_div_mod(pow(x, p), m);
        lemma_fundamental_div_mod(x, m);
        let k = (s - 1) / m + pow(x, p) / m - x / m;
        assert(pow(a as int, p) == m * k + a) by (nonlinear_arith)
            requires
                pow(a as int, p) == s + pow(x, p),
                s - 1 == m * ((s - 1) / m),
                pow(x, p) == m * (pow(x, p) / m) + pow(x, p) % m,
                x == m * (x / m) + x % m,
                pow(x, p) % m == x % m,
                k == (s - 1) / m + pow(x, p) / m - x / m,
                x == a - 1,
        ;
        lemma_mod_multiples_vanish(k, a as int, m);
    }
}

/// The power `p - 1` of a number that `p` does not divide.
pub proof fn lemma_fermat_unit(p: nat, a: nat)
    requires
        prime(p),
        !divides(p, a as int),
    ensures
        pow(a as int, (p - 1) as nat) % (p as int) == 1,
{
    let m = p as int;
    let y = pow(a as int, (p - 1) as nat);
    lemma_fermat(p, a);
    assert(pow(a as int, p) == a * y) by {
        reveal(pow);
    }
    assert(a * (y - 1) == a * y - a) by (nonlinear_arith);
    lemma_mod_equivalence(a * y, a as int, m);
    assert(divides(p, a * (y - 1)));
    lemma_euclid(p, a, y - 1);
    lemma_mod_equivalence(y, 1, m);
    lemma_small_mod(1, p);
}

/// A power with exponent one more than a multiple of `p - 1` changes nothing
/// modulo `p`.
pub proof fn lemma_power_identity(p: nat, r: nat, k: nat)
    requires
        prime(p),
    ensures
        pow(r as int, 1 + k * ((p - 1) as nat)) % (p as int) == (r as int) % (p as int),
{
    let m = p as int;
    let p1 = (p - 1) as nat;
    let e = k * p1;
    lemma_pow_adds(r as int, 1, e);
    lemma_pow1(r as int);
    let z = pow(r as int, e);
    assert(pow(r as int, 1 + e) == r * z);
    if divides(p, r as int) {
        lemma_fundamental_div_mod(r as int, m);
        let c = (r as int) / m;
        assert(r * z == (c * z) * m) by (nonlinear_arith)
            requires
                r == m * c,
        ;
        lemma_mod_multiples_basic(c * z, m);
    } else {
        lemma_fermat_unit(p, r);
        lemma_pow_multiplies(r as int, p1, k);
        assert(p1 * k == k * p1) by (nonlinear_arith);
        lemma_pow_mod_noop(pow(r as int, p1), k, m);
        lemma1_pow(k);
        lemma_small_mod(1, p);
        assert(z % m == 1);
        lemma_mul_mod_noop_right(r as int, z, m);
        assert((r * z) % m == (r * 1int) % m);
    }
}

/// The encryption and decryption exponents of a key with the primes `p` and `q`
/// undo each other.
pub proof fn lemma_rsa(p: nat, q: nat, e: nat, d: nat, r: nat)
    requires
        prime(p),
        prime(q),
        p != q,
        ((e * d) as int) % ((p - 1) * (q - 1)) == 1,
        r < p * q,
    ensures
        pow(pow(r as int, e) % (p * q) as int, d) % (p * q) as int == r,
{
    let n = (p * q) as int;
    let phi = (p - 1) * (q - 1);
    assert(n > 0) by (nonlinear_arith)
        requires
            n == p * q,
            p > 1,
            q > 1,
    ;
    assert(phi >= 1) by (nonlinear_arith)
        requires
            phi == (p - 1) * (q - 1),
            p > 1,
            q > 1,
    ;
    lemma_pow_mod_noop(pow(r as int, e), d, n);
    lemma_pow_multiplies(r as int, e, d);
    let ed = e * d;
    lemma_fundamental_div_mod(ed as int, phi);
    let k = (ed as int) / phi;
    assert(k >= 0) by {
        lemma_div_pos_is_pos(ed as int, phi);
    }
    let kp = (k * (q - 1)) as nat;
    let kq = (k * (p - 1)) as nat;
    assert(k * (q - 1) >= 0 && k * (p - 1) >= 0) by (nonlinear_arith)
        requires
            k >= 0,
            p > 1,
            q > 1,
    ;
    assert(ed == 1 + kp * ((p - 1) as nat)) by (nonlinear_arith)
        requires
            ed == phi * k + 1,
            phi == (p - 1) * (q - 1),
            kp == k * (q - 1),
            p > 1,
    ;
    assert(ed == 1 + kq * ((q - 1) as nat)) by (nonlinear_arith)
        requires
            ed == phi * k + 1,
            phi == (p - 1) * (q - 1),
            kq == k * (p - 1),
            q > 1,
    ;
    lemma_power_identity(p, r, kp);
    lemma_power_identity(q, r, kq);
    let x = pow(r as int, ed);
    lemma_mod_equivalence(x, r as int, p as int);
    lemma_mod_equivalence(x, r as int, q as int);
    let diff = x - r;
    lemma_fundamental_div_mod(diff, p as int);
    let c = diff / (p as int);
    assert(diff == p * c);
    assert(divides(q, p * c));
    if divides(q, p as int) {
        lemma_divisor_bound(q, p);
        assert(!divides(q, p as int));
    }
    lemma_euclid(q, p, c);
    lemma_fundamental_div_mod(c, q as int);
    let c2 = c / (q as int);
    assert(diff == c2 * n) by (nonlinear_arith)
        requires
            diff == p * c,
            c == q * c2,
            n == p * q,
    ;
    lemma_mod_multiples_vanish(c2, r as int, n);
    assert(n * c2 + r == x) by (nonlinear_arith)
        requires
            diff == c2 * n,
            diff == x - r,
    ;
    lemma_small_mod(r, (p * q) as nat);
}

/// Repeated squaring modulo `n`.
pub open spec fn squared(x: int, i: nat, n: int) -> int
    decreases i,
{
    if i == 0 {
        x
    } else {
        let y = squared(x, (i - 1) as nat, n);
        (y * y) % n
    }
}

proof fn lemma_squared_pow(a: int, d: nat, i: nat, n: int)
    requires
        n > 1,
    ensures
        squared(pow(a, d) % n, i, n) == pow(a, d * pow(2, i) as nat) % n,
    decreases i,
{
    if i == 0 {
        lemma_pow0(2);
        assert(d * 1 == d);
    } else {
        let i1 = (i - 1) as nat;
        lemma_squared_pow(a, d, i1, n);
        lemma_pow_positive(2, i1);
        assert(pow(2, i) == 2 * pow(2, i1)) by {
            reveal(pow);
        }
        let e1 = d * pow(2, i1) as nat;
        assert(d * pow(2, i) as nat == e1 + e1) by (nonlinear_arith)
            requires
                e1 == d * pow(2, i1) as nat,
                pow(2, i) == 2 * pow(2, i1),
                pow(2, i1) > 0,
        ;
        lemma_pow_adds(a, e1, e1);
        lemma_mul_mod_noop_general(pow(a, e1), pow(a, e1), n);
    }
}

proof fn lemma_root_of_unity(n: nat, x: int, i: nat)
    requires
        prime(n),
        0 <= x < n,
        squared(x, i, n as int) == 1,
    ensures
        x == 1 || exists|j: nat| j < i && #[trigger] squared(x, j, n as int) == n - 1,
    decreases i,
{
    if i > 0 {
        let m = n as int;
        let i1 = (i - 1) as nat;
        let y = squared(x, i1, m);
        lemma_squared_bound(x, i1, m);
        assert((y * y) % m == 1);
        if y == 1 {
            lemma_root_of_unity(n, x, i1);
            if x != 1 {
                let j = choose|j: nat| j < i1 && #[trigger] squared(x, j, m) == n - 1;
                assert(j < i && squared(x, j, m) == n - 1);
            }
        } else if y != n - 1 {
            lemma_small_mod(1, n);
            lemma_mod_equivalence(y * y, 1, m);
            assert((y + 1) * (y - 1) == y * y - 1) by (nonlinear_arith);
            lemma_small_mod((y + 1) as nat, n);
            assert(!divides(n, y + 1));
            lemma_euclid(n, (y + 1) as nat, y - 1);
            if y == 0 {
                assert(y * y == 0);
                lemma_small_mod(0, n);
            } else {
                lemma_small_mod((y - 1) as nat, n);
            }
            assert(false);
        }
    }
}

proof fn lemma_squared_bound(x: int, i: nat, n: int)
    requires
        0 <= x < n,
    ensures
        0 <= squared(x, i, n) < n,
    decreases i,
{
    if i > 0 {
        lemma_squared_bound(x, (i - 1) as nat, n);
        let y = squared(x, (i - 1) as nat, n);
        lemma_mod_bound(y * y, n);
    }
}

/// `n` passes the strong primality test to base `a`, where `n - 1` is `d` times
/// the `r`-th power of two.
pub open spec fn passes_base(n: nat, d: nat, r: nat, a: nat) -> bool {
    let x = pow(a as int, d) % (n as int);
    x == 1 || exists|j: nat| j < r && #[trigger] squared(x, j, n as int) == n - 1
}

/// A prime passes the test to every base that it does not divide.
pub proof fn lemma_prime_passes(n: nat, d: nat, r: nat, a: nat)
    requires
        prime(n),
        n - 1 == d * pow(2, r),
        0 < a < n,
    ensures
        passes_base(n, d, r, a),
{
    let m = n as int;
    lemma_pow_positive(2, r);
    lemma_small_mod(a, n);
    lemma_fermat_unit(n, a);
    lemma_squared_pow(a as int, d, r, m);
    lemma_mod_bound(pow(a as int, d), m);
    lemma_root_of_unity(n, pow(a as int, d) % m, r);
}

} // verus!

//! Greatest common divisors: the Euclid definition, the facts the rest of the
//! crate needs about it, and executable versions on machine integers.

use vstd::arithmetic::div_mod::*;
use vstd::arithmetic::mul::*;
use vstd::math::abs;
use vstd::prelude::*;

verus! {

/// Euclid's greatest common divisor on natural numbers (`gcd(a, 0) == a`).
pub open spec fn gcd(a: nat, b: nat) -> nat
    decreases b,
{
    if b == 0 {
        a
    } else {
        gcd(b, a % b)
    }
}

/// `d` divides `x` (for a positive `d`).
pub open spec fn divides(d: int, x: int) -> bool {
    d > 0 && x % d == 0
}

/// The gcd divides both arguments, and is positive unless both are zero.
pub proof fn lemma_gcd_divides(a: nat, b: nat)
    ensures
        a + b > 0 ==> gcd(a, b) > 0,
        a + b > 0 ==> divides(gcd(a, b) as int, a as int),
        a + b > 0 ==> divides(gcd(a, b) as int, b as int),
        gcd(a, b) <= a || b > 0,
    decreases b,
{
    if b == 0 {
        if a > 0 {
            lemma_mod_self_0(a as int);
            lemma_small_mod(0, a);
        }
    } else {
        let r = a % b;
        lemma_mod_pos_bound(a as int, b as int);
        lemma_gcd_divides(b, r);
        let g = gcd(b, r);
        assert(g > 0);
        // b = g * k, r = g * j, a = q * b + r = g * (q * k + j)
        lemma_fundamental_div_mod(a as int, b as int);
        lemma_fundamental_div_mod(b as int, g as int);
        lemma_fundamental_div_mod(r as int, g as int);
        let q = a as int / b as int;
        let k = b as int / g as int;
        let j = r as int / g as int;
        assert(a as int == b as int * q + r as int);
        assert(b as int == g * k);
        assert(r as int == g * j);
        assert(a as int == g * (k * q + j)) by (nonlinear_arith)
            requires
                a as int == b as int * q + r as int,
                b as int == g * k,
                r as int == g * j,
        ;
        lemma_mod_multiples_basic(k * q + j, g as int);
        lemma_mul_is_commutative(k * q + j, g as int);
    }
}

/// `(k·a) mod (k·b) == k·(a mod b)` for positive `k` and `b`.
pub proof fn lemma_mul_mod_scale(k: int, a: int, b: int)
    requires
        k > 0,
        b > 0,
        a >= 0,
    ensures
        (k * a) % (k * b) == k * (a % b),
        (k * a) / (k * b) == a / b,
{
    lemma_fundamental_div_mod(a, b);
    lemma_mod_pos_bound(a, b);
    let q = a / b;
    let r = a % b;
    assert(k * a == q * (k * b) + k * r) by (nonlinear_arith)
        requires
            a == b * q + r,
    ;
    assert(0 <= k * r < k * b) by (nonlinear_arith)
        requires
            0 <= r < b,
            k > 0,
    ;
    lemma_fundamental_div_mod_converse(k * a, k * b, q, k * r);
}

/// The gcd is homogeneous: `gcd(k·a, k·b) == k·gcd(a, b)`.
pub proof fn lemma_gcd_scale(k: nat, a: nat, b: nat)
    ensures
        gcd(k * a, k * b) == k * gcd(a, b),
    decreases b,
{
    if k == 0 {
        assert(k * a == 0 && k * b == 0);
        assert(gcd(0, 0) == 0);
    } else if b == 0 {
        assert(k * b == 0);
    } else {
        lemma_mul_strictly_positive(k as int, b as int);
        lemma_mul_mod_scale(k as int, a as int, b as int);
        lemma_mod_pos_bound(a as int, b as int);
        let r = a % b;
        assert((k * a) % (k * b) == k * r);
        lemma_gcd_scale(k, b, r);
    }
}

/// Coprime pairs name a fraction uniquely: if `a/b == c/e` with both pairs
/// coprime and both denominators positive, the pairs are equal.
pub proof fn lemma_coprime_unique(a: int, b: int, c: int, e: int)
    requires
        b > 0,
        e > 0,
        gcd(abs(a) as nat, b as nat) == 1,
        gcd(abs(c) as nat, e as nat) == 1,
        a * e == c * b,
    ensures
        a == c,
        b == e,
{
    let aa = abs(a) as nat;
    let cc = abs(c) as nat;
    assert(aa * e == cc * b) by (nonlinear_arith)
        requires
            a * e == c * b,
            b > 0,
            e > 0,
            aa == abs(a),
            cc == abs(c),
    ;
    lemma_gcd_scale(e as nat, aa, b as nat);
    lemma_gcd_scale(b as nat, cc, e as nat);
    lemma_mul_is_commutative(e, aa as int);
    lemma_mul_is_commutative(b, cc as int);
    lemma_mul_is_commutative(e, b);
    assert(gcd(aa * e as nat, b as nat * e as nat) == e);
    assert(gcd(cc * b as nat, e as nat * b as nat) == b);
    assert(b == e);
    assert(a == c) by (nonlinear_arith)
        requires
            a * e == c * b,
            b == e,
            b > 0,
    ;
}

/// Dividing a pair by its gcd leaves a coprime pair.
pub proof fn lemma_reduced_coprime(m: nat, d: nat)
    requires
        d > 0,
    ensures
        gcd(m / gcd(m, d), d / gcd(m, d)) == 1,
        divides(gcd(m, d) as int, m as int),
        divides(gcd(m, d) as int, d as int),
{
    lemma_gcd_divides(m, d);
    let g = gcd(m, d);
    lemma_fundamental_div_mod(m as int, g as int);
    lemma_fundamental_div_mod(d as int, g as int);
    let mm = m / g;
    let dd = d / g;
    assert(m == g * mm);
    assert(d == g * dd);
    lemma_gcd_scale(g, mm, dd);
    assert(g * gcd(mm, dd) == g * 1);
    lemma_mul_equality_converse(g as int, gcd(mm, dd) as int, 1);
}

/// The greatest common divisor of two 128-bit unsigned integers.
pub fn gcd_u128(a: u128, b: u128) -> (g: u128)
    ensures
        g == gcd(a as nat, b as nat),
{
    let mut x = a;
    let mut y = b;
    while y != 0
        invariant
            gcd(x as nat, y as nat) == gcd(a as nat, b as nat),
        decreases y,
    {
        let r = x % y;
        x = y;
        y = r;
    }
    x
}

/// The greatest common divisor of two 32-bit unsigned integers.
pub fn gcd_u32(a: u32, b: u32) -> (g: u32)
    ensures
        g == gcd(a as nat, b as nat),
{
    let mut x = a;
    let mut y = b;
    while y != 0
        invariant
            gcd(x as nat, y as nat) == gcd(a as nat, b as nat),
        decreases y,
    {
        let r = x % y;
        x = y;
        y = r;
    }
    x
}

} // verus!

//! Exact rational time: `num / den` in lowest terms with a positive
//! denominator, both in `i64`. Every arithmetic operation is exact or reports
//! overflow; nothing ever rounds silently.

use crate::divisor::{gcd, gcd_u128, lemma_coprime_unique, lemma_gcd_divides, lemma_reduced_coprime};
use vstd::arithmetic::div_mod::*;
use vstd::arithmetic::mul::*;
use vstd::arithmetic::power2::{lemma2_to64, lemma_pow2_unfold, pow2};
use vstd::math::abs;
use vstd::prelude::*;

verus! {

/// What can go wrong building or combining rationals.
#[derive(Debug, Clone, Copy, PartialEq, Eq)]
pub enum TimeError {
    /// The exact result does not fit `i64` numerator and denominator.
    Overflow,
    /// A zero denominator, or a division by zero.
    ZeroDenominator,
}

/// The flick grid: 705 600 000 ticks per second, the finest time step the
/// engine ever rounds to.
pub const FLICK_DEN: i64 = 705_600_000;

/// `n / d` (d > 0) rounded to the nearest integer, ties away from zero.
pub open spec fn round_half_away(n: int, d: int) -> int {
    if n < 0 {
        -((2 * (-n) + d) / (2 * d))
    } else {
        (2 * n + d) / (2 * d)
    }
}

/// The flick-grid rational nearest to `n / d` (d > 0), ties away from zero;
/// `Overflow` when the grid count does not fit `i64`.
pub open spec fn grid_round_spec(n: int, d: int) -> Result<Rational, TimeError> {
    let u = round_half_away(n * FLICK_DEN, d);
    if fits_i64(u) {
        from_parts_spec(u, FLICK_DEN as int)
    } else {
        Err(TimeError::Overflow)
    }
}

/// The `i64` range.
pub open spec fn fits_i64(x: int) -> bool {
    i64::MIN <= x <= i64::MAX
}

/// `n / d` (d ≠ 0) in lowest terms with a positive denominator.
pub open spec fn reduce(n: int, d: int) -> (int, int) {
    let sn = if d < 0 {
        -n
    } else {
        n
    };
    let sd = if d < 0 {
        -d
    } else {
        d
    };
    let g = gcd(abs(sn) as nat, sd as nat) as int;
    let m = abs(sn) as int / g;
    (
        if sn < 0 {
            -m
        } else {
            m
        },
        sd / g,
    )
}

/// The lowest-terms pair for `n / d`, or the error building it reports.
pub open spec fn parts(n: int, d: int) -> Result<(int, int), TimeError> {
    if d == 0 {
        Err(TimeError::ZeroDenominator)
    } else {
        let r = reduce(n, d);
        if fits_i64(r.0) && fits_i64(r.1) {
            Ok(r)
        } else {
            Err(TimeError::Overflow)
        }
    }
}

/// An exact rational number of seconds (or a speed, or an influence).
#[derive(Debug, Clone, Copy, PartialEq, Eq, Structural)]
pub struct Rational {
    num: i64,
    den: i64,
}

/// The rational `n / d` would build (with the error it would report).
pub closed spec fn from_parts_spec(n: int, d: int) -> Result<Rational, TimeError> {
    match parts(n, d) {
        Ok(p) => Ok(Rational { num: p.0 as i64, den: p.1 as i64 }),
        Err(e) => Err(e),
    }
}

/// Mathematical value `a` is less than value `b` (denominators positive).
pub open spec fn frac_lt(an: int, ad: int, bn: int, bd: int) -> bool {
    an * bd < bn * ad
}

impl Rational {
    /// The numerator.
    pub closed spec fn n(self) -> int {
        self.num as int
    }

    /// The denominator.
    pub closed spec fn d(self) -> int {
        self.den as int
    }

    /// Lowest terms with a positive denominator.
    #[verifier::type_invariant]
    pub open spec fn wf(self) -> bool {
        &&& self.d() > 0
        &&& gcd(abs(self.n()) as nat, self.d() as nat) == 1
        &&& fits_i64(self.n())
        &&& fits_i64(self.d())
    }

    /// `self + o`, exactly.
    pub open spec fn spec_add(self, o: Rational) -> Result<Rational, TimeError> {
        from_parts_spec(self.n() * o.d() + o.n() * self.d(), self.d() * o.d())
    }

    /// `self − o`, exactly.
    pub open spec fn spec_sub(self, o: Rational) -> Result<Rational, TimeError> {
        from_parts_spec(self.n() * o.d() - o.n() * self.d(), self.d() * o.d())
    }

    /// `self · o`, exactly.
    pub open spec fn spec_mul(self, o: Rational) -> Result<Rational, TimeError> {
        from_parts_spec(self.n() * o.n(), self.d() * o.d())
    }

    /// `self / o`, exactly (division by zero is an error).
    pub open spec fn spec_div(self, o: Rational) -> Result<Rational, TimeError> {
        from_parts_spec(self.n() * o.d(), self.d() * o.n())
    }

    /// `self < o` as numbers.
    pub open spec fn spec_lt(self, o: Rational) -> bool {
        frac_lt(self.n(), self.d(), o.n(), o.d())
    }

    /// `self ≤ o` as numbers.
    pub open spec fn spec_le(self, o: Rational) -> bool {
        !o.spec_lt(self)
    }

    /// The same number as `n / d`.
    pub open spec fn equals_frac(self, n: int, d: int) -> bool {
        self.n() * d == n * self.d()
    }

    /// The exact rational 0.
    pub closed spec fn spec_zero() -> Rational {
        Rational { num: 0, den: 1 }
    }

    /// The exact rational 1.
    pub closed spec fn spec_one() -> Rational {
        Rational { num: 1, den: 1 }
    }

    /// What zero is made of.
    pub proof fn lemma_zero()
        ensures
            Rational::spec_zero().n() == 0,
            Rational::spec_zero().d() == 1,
            Rational::spec_zero().wf(),
    {
        assert(gcd(0, 1) == gcd(1, 0nat % 1nat));
    }

    /// The exact rational 0.
    pub fn zero() -> (r: Rational)
        ensures
            r == Rational::spec_zero(),
    {
        proof {
            Rational::lemma_zero();
        }
        Rational { num: 0, den: 1 }
    }

    /// The exact rational 1.
    pub fn one() -> (r: Rational)
        ensures
            r == Rational::spec_one(),
            r.n() == 1,
            r.d() == 1,
    {
        proof {
            assert(gcd(1, 1) == gcd(1, 1nat % 1nat));
            assert(gcd(1, 0) == 1);
        }
        Rational { num: 1, den: 1 }
    }

    /// The numerator (lowest terms; carries the sign).
    pub fn num(&self) -> (r: i64)
        ensures
            r == self.n(),
    {
        self.num
    }

    /// The denominator (lowest terms; always positive).
    pub fn den(&self) -> (r: i64)
        ensures
            r == self.d(),
            r > 0,
    {
        proof {
            use_type_invariant(self);
        }
        self.den
    }

    /// True for values below zero.
    pub fn is_negative(&self) -> (r: bool)
        ensures
            r == (self.n() < 0),
            r == self.spec_lt(Rational::spec_zero()),
    {
        proof {
            use_type_invariant(self);
            Rational::lemma_zero();
            assert((self.n() < 0) == (self.n() * 1 < 0 * self.d())) by (nonlinear_arith)
                requires
                    self.d() > 0,
            ;
        }
        self.num < 0
    }

    /// `num / den` in lowest terms; an error for a zero denominator or when
    /// the reduced form does not fit `i64`.
    pub fn new(num: i64, den: i64) -> (r: Result<Rational, TimeError>)
        ensures
            r == from_parts_spec(num as int, den as int),
    {
        from_parts(num as i128, den as i128)
    }

    /// `self + o`, exactly; `Err(Overflow)` when the reduced sum does not fit.
    pub fn checked_add(self, o: Rational) -> (r: Result<Rational, TimeError>)
        ensures
            r == self.spec_add(o),
    {
        proof {
            use_type_invariant(&self);
            use_type_invariant(&o);
            lemma_num_den_bound(self.n(), o.d());
            lemma_num_den_bound(o.n(), self.d());
            lemma_prod_bound(self.d(), o.d());
        }
        let n = (self.num as i128) * (o.den as i128) + (o.num as i128) * (self.den as i128);
        let d = (self.den as i128) * (o.den as i128);
        from_parts(n, d)
    }

    /// `self − o`, exactly; `Err(Overflow)` when the reduced difference does not fit.
    pub fn checked_sub(self, o: Rational) -> (r: Result<Rational, TimeError>)
        ensures
            r == self.spec_sub(o),
    {
        proof {
            use_type_invariant(&self);
            use_type_invariant(&o);
            lemma_num_den_bound(self.n(), o.d());
            lemma_num_den_bound(o.n(), self.d());
            lemma_prod_bound(self.d(), o.d());
        }
        let n = (self.num as i128) * (o.den as i128) - (o.num as i128) * (self.den as i128);
        let d = (self.den as i128) * (o.den as i128);
        from_parts(n, d)
    }

    /// `self · o`, exactly; `Err(Overflow)` when the reduced product does not fit.
    pub fn checked_mul(self, o: Rational) -> (r: Result<Rational, TimeError>)
        ensures
            r == self.spec_mul(o),
    {
        proof {
            use_type_invariant(&self);
            use_type_invariant(&o);
            lemma_prod_bound(self.n(), o.n());
            lemma_prod_bound(self.d(), o.d());
        }
        let n = (self.num as i128) * (o.num as i128);
        let d = (self.den as i128) * (o.den as i128);
        from_parts(n, d)
    }

    /// `self / o`, exactly; `Err(ZeroDenominator)` for `o == 0`,
    /// `Err(Overflow)` when the reduced quotient does not fit.
    pub fn checked_div(self, o: Rational) -> (r: Result<Rational, TimeError>)
        ensures
            r == self.spec_div(o),
    {
        proof {
            use_type_invariant(&self);
            use_type_invariant(&o);
            lemma_prod_bound(self.n(), o.d());
            lemma_prod_bound(self.d(), o.n());
        }
        let n = (self.num as i128) * (o.den as i128);
        let d = (self.den as i128) * (o.num as i128);
        from_parts(n, d)
    }

    /// `self < o` as numbers.
    pub fn lt(&self, o: &Rational) -> (r: bool)
        ensures
            r == self.spec_lt(*o),
    {
        proof {
            use_type_invariant(self);
            use_type_invariant(o);
            lemma_prod_bound(self.n(), o.d());
            lemma_prod_bound(o.n(), self.d());
        }
        (self.num as i128) * (o.den as i128) < (o.num as i128) * (self.den as i128)
    }

    /// `self ≤ o` as numbers.
    pub fn le(&self, o: &Rational) -> (r: bool)
        ensures
            r == self.spec_le(*o),
    {
        !o.lt(self)
    }

}

/// A product of two `i64`-range values stays far inside `i128`.
pub proof fn lemma_prod_bound(a: int, b: int)
    requires
        fits_i64(a),
        fits_i64(b),
    ensures
        -0x4000_0000_0000_0000_0000_0000_0000_0000 <= a * b <= 0x4000_0000_0000_0000_0000_0000_0000_0000,
{
    assert(-0x8000_0000_0000_0000 <= a <= 0x8000_0000_0000_0000);
    assert(-0x8000_0000_0000_0000 <= b <= 0x8000_0000_0000_0000);
    assert(abs(a * b) == abs(a) * abs(b)) by (nonlinear_arith);
    assert(abs(a) * abs(b) <= 0x8000_0000_0000_0000 * 0x8000_0000_0000_0000) by (nonlinear_arith)
        requires
            0 <= abs(a) <= 0x8000_0000_0000_0000,
            0 <= abs(b) <= 0x8000_0000_0000_0000,
    ;
}

/// A numerator times a denominator stays below `2^126 − 2^63` in size.
pub proof fn lemma_num_den_bound(a: int, b: int)
    requires
        fits_i64(a),
        0 < b <= i64::MAX,
    ensures
        -0x3fff_ffff_ffff_ffff_8000_0000_0000_0000 <= a * b <= 0x3fff_ffff_ffff_ffff_8000_0000_0000_0000,
{
    assert(abs(a * b) == abs(a) * b) by (nonlinear_arith)
        requires
            b > 0,
    ;
    assert(abs(a) * b <= 0x8000_0000_0000_0000 * 0x7fff_ffff_ffff_ffff) by (nonlinear_arith)
        requires
            0 <= abs(a) <= 0x8000_0000_0000_0000,
            0 < b <= 0x7fff_ffff_ffff_ffff,
    ;
}

/// The reduced pair is coprime, has a positive denominator, and names the
/// same number as `n / d`.
pub proof fn lemma_reduce(n: int, d: int)
    requires
        d != 0,
    ensures
        reduce(n, d).1 > 0,
        gcd(abs(reduce(n, d).0) as nat, reduce(n, d).1 as nat) == 1,
        reduce(n, d).0 * d == n * reduce(n, d).1,
{
    let sn = if d < 0 {
        -n
    } else {
        n
    };
    let sd = if d < 0 {
        -d
    } else {
        d
    };
    let m = abs(sn) as nat;
    lemma_reduced_coprime(m, sd as nat);
    let g = gcd(m, sd as nat) as int;
    lemma_fundamental_div_mod(m as int, g);
    lemma_fundamental_div_mod(sd, g);
    let mq = m as int / g;
    let dq = sd / g;
    assert(m as int == g * mq);
    assert(sd == g * dq);
    lemma_div_pos_is_pos(sd, g);
    assert(dq > 0) by {
        if dq <= 0 {
            lemma_mul_inequality(dq, 0, g);
            lemma_mul_is_commutative(dq, g);
        }
    }
    let rn = if sn < 0 {
        -mq
    } else {
        mq
    };
    assert(abs(rn) == mq);
    assert(sn == g * rn) by (nonlinear_arith)
        requires
            m as int == g * mq,
            rn == (if sn < 0 {
                -mq
            } else {
                mq
            }),
            m as int == abs(sn),
    ;
    assert(rn * sd == sn * dq) by (nonlinear_arith)
        requires
            sn == g * rn,
            sd == g * dq,
    ;
    assert(rn * d == n * dq) by (nonlinear_arith)
        requires
            rn * sd == sn * dq,
            sd == (if d < 0 {
                -d
            } else {
                d
            }),
            sn == (if d < 0 {
                -n
            } else {
                n
            }),
    ;
}

/// What a successful or failed build of `n / d` says.
pub proof fn lemma_from_parts(n: int, d: int)
    requires
        d != 0,
    ensures
        from_parts_spec(n, d) is Ok <==> (fits_i64(reduce(n, d).0) && fits_i64(reduce(n, d).1)),
        from_parts_spec(n, d) is Err ==> from_parts_spec(n, d) == Err::<Rational, TimeError>(
            TimeError::Overflow,
        ),
        from_parts_spec(n, d) matches Ok(r) ==> {
            &&& r.wf()
            &&& r.n() == reduce(n, d).0
            &&& r.d() == reduce(n, d).1
            &&& r.equals_frac(n, d)
        },
{
    lemma_reduce(n, d);
}

/// A rational that names the number `n / d` is exactly what building
/// `n / d` produces.
pub proof fn lemma_from_parts_unique(n: int, d: int, x: Rational)
    requires
        d != 0,
        x.wf(),
        x.equals_frac(n, d),
    ensures
        from_parts_spec(n, d) == Ok::<Rational, TimeError>(x),
{
    lemma_reduce(n, d);
    let (rn, rd) = reduce(n, d);
    assert(x.n() * rd == rn * x.d()) by (nonlinear_arith)
        requires
            x.n() * d == n * x.d(),
            rn * d == n * rd,
            d != 0,
    {
        assert(x.n() * d * rd == n * x.d() * rd);
        assert(rn * d * x.d() == n * rd * x.d());
        assert(x.n() * rd * d == rn * x.d() * d);
    }
    lemma_coprime_unique(x.n(), x.d(), rn, rd);
}

/// A rational from small literal parts, infallibly: zero when `n / d` cannot
/// be built.
pub fn rat(n: i64, d: i64) -> (r: Rational)
    ensures
        match from_parts_spec(n as int, d as int) {
            Ok(x) => r == x,
            Err(_) => r == Rational::spec_zero(),
        },
{
    match Rational::new(n, d) {
        Ok(x) => x,
        Err(_) => Rational::zero(),
    }
}

/// Two rationals in lowest terms, neither less than the other, are equal.
pub proof fn lemma_same_value(a: Rational, b: Rational)
    requires
        a.wf(),
        b.wf(),
        !a.spec_lt(b),
        !b.spec_lt(a),
    ensures
        a == b,
{
    lemma_coprime_unique(a.n(), a.d(), b.n(), b.d());
}

/// Two fractions of the same value build the same rational, or fail alike.
pub proof fn lemma_from_parts_same(n1: int, d1: int, n2: int, d2: int)
    requires
        d1 != 0,
        d2 != 0,
        n1 * d2 == n2 * d1,
    ensures
        from_parts_spec(n1, d1) == from_parts_spec(n2, d2),
{
    lemma_reduce(n1, d1);
    lemma_reduce(n2, d2);
    let a = reduce(n1, d1).0;
    let b = reduce(n1, d1).1;
    let c = reduce(n2, d2).0;
    let e = reduce(n2, d2).1;
    let k = d1 * d2;
    assert(a * e * k == (a * d1) * (e * d2)) by (nonlinear_arith)
        requires
            k == d1 * d2,
    ;
    assert((a * d1) * (e * d2) == (n1 * b) * (e * d2));
    assert((n1 * b) * (e * d2) == (n1 * d2) * (b * e)) by (nonlinear_arith);
    assert((n1 * d2) * (b * e) == (n2 * d1) * (b * e));
    assert((n2 * d1) * (b * e) == (n2 * e) * (b * d1)) by (nonlinear_arith);
    assert((n2 * e) * (b * d1) == (c * d2) * (b * d1));
    assert((c * d2) * (b * d1) == c * b * k) by (nonlinear_arith)
        requires
            k == d1 * d2,
    ;
    assert(k != 0) by (nonlinear_arith)
        requires
            k == d1 * d2,
            d1 != 0,
            d2 != 0,
    ;
    assert(a * e == c * b) by (nonlinear_arith)
        requires
            a * e * k == c * b * k,
            k != 0,
    ;
    lemma_coprime_unique(a, b, c, e);
}

/// The cross-multiplied form of `(a − t) − (b − t) = a − b`, from the
/// cross-multiplied forms of `p = a − t` and `q = b − t`.
proof fn lemma_shift_identity(pn: int, pd: int, qn: int, qd: int, an: int, ad: int, bn: int, bd: int, tn: int, td: int)
    requires
        pn * (ad * td) == (an * td - tn * ad) * pd,
        qn * (bd * td) == (bn * td - tn * bd) * qd,
        td > 0,
    ensures
        (pn * qd - qn * pd) * (ad * bd) == (an * bd - bn * ad) * (pd * qd),
{
    let x = pn * qd * (ad * bd) * td;
    let y = qn * pd * (ad * bd) * td;
    assert(x == (pn * (ad * td)) * (qd * bd)) by (nonlinear_arith)
        requires
            x == pn * qd * (ad * bd) * td,
    ;
    assert((pn * (ad * td)) * (qd * bd) == ((an * td - tn * ad) * pd) * (qd * bd));
    let u = an * td * pd * qd * bd;
    let w = tn * ad * pd * qd * bd;
    assert(((an * td - tn * ad) * pd) * (qd * bd) == u - w) by (nonlinear_arith)
        requires
            u == an * td * pd * qd * bd,
            w == tn * ad * pd * qd * bd,
    ;
    assert(y == (qn * (bd * td)) * (pd * ad)) by (nonlinear_arith)
        requires
            y == qn * pd * (ad * bd) * td,
    ;
    assert((qn * (bd * td)) * (pd * ad) == ((bn * td - tn * bd) * qd) * (pd * ad));
    let v = bn * td * qd * pd * ad;
    let ba = bn * td;
    let bb = tn * bd;
    let k = pd * ad;
    lemma_mul_is_distributive_sub_other_way(qd, ba, bb);
    lemma_mul_is_distributive_sub_other_way(k, ba * qd, bb * qd);
    assert(ba * qd * k == v) by (nonlinear_arith)
        requires
            ba == bn * td,
            k == pd * ad,
            v == bn * td * qd * pd * ad,
    ;
    assert(bb * qd * k == w) by (nonlinear_arith)
        requires
            bb == tn * bd,
            k == pd * ad,
            w == tn * ad * pd * qd * bd,
    ;
    assert(((bn * td - tn * bd) * qd) * (pd * ad) == v - w);
    let lhs = (pn * qd - qn * pd) * (ad * bd);
    let rhs = (an * bd - bn * ad) * (pd * qd);
    assert(lhs * td == x - y) by (nonlinear_arith)
        requires
            lhs == (pn * qd - qn * pd) * (ad * bd),
            x == pn * qd * (ad * bd) * td,
            y == qn * pd * (ad * bd) * td,
    ;
    let m = pd * qd;
    lemma_mul_is_distributive_sub_other_way(m, an * bd, bn * ad);
    lemma_mul_is_distributive_sub_other_way(td, (an * bd) * m, (bn * ad) * m);
    assert((an * bd) * m * td == u) by (nonlinear_arith)
        requires
            m == pd * qd,
            u == an * td * pd * qd * bd,
    ;
    assert((bn * ad) * m * td == v) by (nonlinear_arith)
        requires
            m == pd * qd,
            v == bn * td * qd * pd * ad,
    ;
    assert(u - v == rhs * td);
    assert(lhs == rhs) by (nonlinear_arith)
        requires
            lhs * td == rhs * td,
            td > 0,
    ;
}

/// Moving two times back by the same amount keeps their difference:
/// `(a − t) − (b − t) = a − b`, failing exactly when `a − b` does.
pub proof fn lemma_sub_shift(a: Rational, b: Rational, t: Rational)
    requires
        a.wf(),
        b.wf(),
        t.wf(),
        a.spec_sub(t) is Ok,
        b.spec_sub(t) is Ok,
    ensures
        a.spec_sub(t)->Ok_0.spec_sub(b.spec_sub(t)->Ok_0) == a.spec_sub(b),
{
    let (an, ad, bn, bd, tn, td) = (a.n(), a.d(), b.n(), b.d(), t.n(), t.d());
    assert(ad * td != 0 && bd * td != 0 && ad * bd != 0) by (nonlinear_arith)
        requires
            ad > 0,
            bd > 0,
            td > 0,
    ;
    lemma_from_parts(an * td - tn * ad, ad * td);
    lemma_from_parts(bn * td - tn * bd, bd * td);
    let p = a.spec_sub(t)->Ok_0;
    let q = b.spec_sub(t)->Ok_0;
    let (pn, pd, qn, qd) = (p.n(), p.d(), q.n(), q.d());
    assert(pd * qd != 0) by (nonlinear_arith)
        requires
            pd > 0,
            qd > 0,
    ;
    lemma_shift_identity(pn, pd, qn, qd, an, ad, bn, bd, tn, td);
    lemma_from_parts_same(pn * qd - qn * pd, pd * qd, an * bd - bn * ad, ad * bd);
}

/// `v − v` is exactly zero.
pub proof fn lemma_sub_self(v: Rational)
    requires
        v.wf(),
    ensures
        v.spec_sub(v) == Ok::<Rational, TimeError>(Rational::spec_zero()),
{
    Rational::lemma_zero();
    assert(v.n() * v.d() - v.n() * v.d() == 0);
    assert(v.d() * v.d() != 0) by (nonlinear_arith)
        requires
            v.d() > 0,
    ;
    lemma_from_parts_unique(v.n() * v.d() - v.n() * v.d(), v.d() * v.d(), Rational::spec_zero());
}

/// `0 · x` is exactly zero.
pub proof fn lemma_zero_mul(x: Rational)
    requires
        x.wf(),
    ensures
        Rational::spec_zero().spec_mul(x) == Ok::<Rational, TimeError>(Rational::spec_zero()),
{
    Rational::lemma_zero();
    assert(0 * x.n() == 0);
    assert(1 * x.d() == x.d());
    lemma_from_parts_unique(0, x.d(), Rational::spec_zero());
}

/// `v + 0` is exactly `v`.
pub proof fn lemma_add_zero(v: Rational)
    requires
        v.wf(),
    ensures
        v.spec_add(Rational::spec_zero()) == Ok::<Rational, TimeError>(v),
{
    Rational::lemma_zero();
    assert(v.n() * 1 + 0 * v.d() == v.n());
    assert(v.d() * 1 == v.d());
    lemma_from_parts_unique(v.n(), v.d(), v);
}

/// `a · (b / a)` is exactly `b` for a nonzero `a`.
pub proof fn lemma_div_mul_cancel(a: Rational, b: Rational, v: Rational)
    requires
        a.wf(),
        b.wf(),
        a.n() != 0,
        b.spec_div(a) == Ok::<Rational, TimeError>(v),
    ensures
        a.spec_mul(v) == Ok::<Rational, TimeError>(b),
{
    lemma_from_parts(b.n() * a.d(), b.d() * a.n());
    assert(b.d() * a.n() != 0) by (nonlinear_arith)
        requires
            b.d() > 0,
            a.n() != 0,
    ;
    assert(a.d() * v.d() != 0) by (nonlinear_arith)
        requires
            a.d() > 0,
            v.d() > 0,
    ;
    assert(b.n() * (a.d() * v.d()) == (a.n() * v.n()) * b.d()) by (nonlinear_arith)
        requires
            v.n() * (b.d() * a.n()) == (b.n() * a.d()) * v.d(),
    ;
    lemma_from_parts_unique(a.n() * v.n(), a.d() * v.d(), b);
}

/// `s0 + (s1 − s0)` is exactly `s1`.
pub proof fn lemma_sub_add_cancel(s0: Rational, s1: Rational, ds: Rational)
    requires
        s0.wf(),
        s1.wf(),
        s1.spec_sub(s0) == Ok::<Rational, TimeError>(ds),
    ensures
        s0.spec_add(ds) == Ok::<Rational, TimeError>(s1),
{
    assert(s1.d() * s0.d() != 0) by (nonlinear_arith)
        requires
            s1.d() > 0,
            s0.d() > 0,
    ;
    lemma_from_parts(s1.n() * s0.d() - s0.n() * s1.d(), s1.d() * s0.d());
    assert(s0.d() * ds.d() != 0) by (nonlinear_arith)
        requires
            ds.d() > 0,
            s0.d() > 0,
    ;
    let (a, b, c, d, e, f) = (s0.n(), s0.d(), s1.n(), s1.d(), ds.n(), ds.d());
    assert((a * f + e * b) * d == a * f * d + e * (d * b)) by (nonlinear_arith);
    assert((c * b - a * d) * f == c * (b * f) - a * f * d) by (nonlinear_arith);
    assert(e * (d * b) == (c * b - a * d) * f);
    assert(c * (b * f) == (a * f + e * b) * d);
    lemma_from_parts_unique(s0.n() * ds.d() + ds.n() * s0.d(), s0.d() * ds.d(), s1);
}

/// `(a + w) − a` is exactly `w`.
pub proof fn lemma_add_sub_back(a: Rational, w: Rational, v: Rational)
    requires
        a.wf(),
        w.wf(),
        a.spec_add(w) == Ok::<Rational, TimeError>(v),
    ensures
        v.spec_sub(a) == Ok::<Rational, TimeError>(w),
{
    assert(a.d() * w.d() != 0) by (nonlinear_arith)
        requires
            a.d() > 0,
            w.d() > 0,
    ;
    lemma_from_parts(a.n() * w.d() + w.n() * a.d(), a.d() * w.d());
    assert(v.d() * a.d() != 0) by (nonlinear_arith)
        requires
            a.d() > 0,
            v.d() > 0,
    ;
    let (an, ad, wn, wd, vn, vd) = (a.n(), a.d(), w.n(), w.d(), v.n(), v.d());
    assert(vn * (ad * wd) == (an * wd + wn * ad) * vd);
    assert((an * wd + wn * ad) * vd == an * wd * vd + wn * (vd * ad)) by (nonlinear_arith);
    assert((vn * ad - an * vd) * wd == vn * (ad * wd) - an * wd * vd) by (nonlinear_arith);
    assert(wn * (vd * ad) == (vn * ad - an * vd) * wd);
    lemma_from_parts_unique(vn * ad - an * vd, vd * ad, w);
}

/// `(x / e) · e` is exactly `x` for a nonzero `e`.
pub proof fn lemma_div_mul_cancel_right(e: Rational, x: Rational, w: Rational)
    requires
        e.wf(),
        x.wf(),
        e.n() != 0,
        x.spec_div(e) == Ok::<Rational, TimeError>(w),
    ensures
        w.spec_mul(e) == Ok::<Rational, TimeError>(x),
{
    lemma_div_mul_cancel(e, x, w);
    assert(e.n() * w.n() == w.n() * e.n()) by (nonlinear_arith);
    assert(e.d() * w.d() == w.d() * e.d()) by (nonlinear_arith);
}

/// `floor((2·r·FLICK_DEN + d) / (2·d))` for `0 ≤ r < d`, without overflow:
/// the product `r·FLICK_DEN` is divided by `d` bit by bit.
fn flick_frac_round(r: u128, d: u128) -> (u: u128)
    requires
        r < d,
        d < 0x8000_0000_0000_0000_0000_0000_0000_0000,
    ensures
        u == (2 * r * FLICK_DEN + d) / (2 * d),
        u <= FLICK_DEN,
{
    let f: u64 = 705_600_000;
    let mut w: u64 = 0x4000_0000;
    let mut qa: u128 = 0;
    let mut ra: u128 = 0;
    let ghost mut j: nat = 30;
    let ghost mut m: int = 0;
    proof {
        lemma2_to64();
        assert(f as int / w as int == 0) by {
            lemma_basic_div(f as int, w as int);
        }
    }
    while w > 1
        invariant
            w == pow2(j),
            j <= 30,
            f == FLICK_DEN,
            m == f as int / w as int,
            0 <= m <= f,
            qa * d + ra == r * m,
            ra < d,
            r < d,
            d < 0x8000_0000_0000_0000_0000_0000_0000_0000,
            qa <= m,
        decreases j,
    {
        proof {
            lemma2_to64();
            assert(j > 0);
            lemma_pow2_unfold(j);
        }
        let wo = w;
        w = w / 2;
        proof {
            j = (j - 1) as nat;
            assert(wo as int == 2 * w as int);
            lemma_div_denominator(f as int, w as int, 2);
            lemma_fundamental_div_mod(f as int / w as int, 2);
            lemma_mod_pos_bound(f as int / w as int, 2);
            lemma_mul_is_commutative(w as int, 2);
            lemma_div_is_ordered_by_denominator(f as int, 1, w as int);
            lemma_div_basics(f as int);
        }
        let bit = (f / w) % 2;
        let ghost m_old = m;
        proof {
            m = f as int / w as int;
            assert(m == 2 * m_old + bit);
        }
        // double
        let ghost qa0 = qa;
        let ghost ra0 = ra;
        qa = 2 * qa;
        ra = 2 * ra;
        if ra >= d {
            ra = ra - d;
            qa = qa + 1;
        }
        assert(qa * d + ra == 2 * (qa0 * d + ra0)) by (nonlinear_arith)
            requires
                (qa == 2 * qa0 && ra == 2 * ra0) || (qa == 2 * qa0 + 1 && ra == 2 * ra0 - d),
        ;
        assert(qa * d + ra == 2 * (r * m_old));
        let ghost qa1 = qa;
        let ghost ra1 = ra;
        if bit == 1 {
            ra = ra + r;
            if ra >= d {
                ra = ra - d;
                qa = qa + 1;
            }
        }
        assert(qa * d + ra == qa1 * d + ra1 + r * bit) by (nonlinear_arith)
            requires
                (bit == 0 && qa == qa1 && ra == ra1) || (bit == 1 && qa == qa1 && ra == ra1 + r)
                    || (bit == 1 && qa == qa1 + 1 && ra == ra1 + r - d),
        ;
        assert(qa * d + ra == r * m) by (nonlinear_arith)
            requires
                qa * d + ra == 2 * (r * m_old) + r * bit,
                m == 2 * m_old + bit,
        ;
        assert(qa <= m) by (nonlinear_arith)
            requires
                qa * d + ra == r * m,
                r < d,
                0 <= ra,
                0 <= m,
        {
            if qa > m {
                assert(qa * d >= (m + 1) * d);
                assert(r * m <= d * m);
            }
        }
    }
    proof {
        assert(w == 1) by {
            if j > 0 {
                lemma_pow2_unfold(j);
            }
        }
        lemma_div_basics(f as int);
        assert(m == FLICK_DEN);
        assert(2 * r * FLICK_DEN + d == qa * (2 * d) + (2 * ra + d)) by (nonlinear_arith)
            requires
                qa * d + ra == r * FLICK_DEN,
        ;
    }
    let u = if 2 * ra >= d {
        qa + 1
    } else {
        qa
    };
    proof {
        if 2 * ra >= d {
            assert(2 * r * FLICK_DEN + d == (qa + 1) * (2 * d) + (2 * ra + d - 2 * d)) by (nonlinear_arith)
                requires
                    2 * r * FLICK_DEN + d == qa * (2 * d) + (2 * ra + d),
            ;
            lemma_fundamental_div_mod_converse(
                2 * r * FLICK_DEN + d,
                2 * d as int,
                qa + 1,
                2 * ra + d - 2 * d,
            );
            assert(qa < m) by (nonlinear_arith)
                requires
                    qa * d + ra == r * m,
                    r < d,
                    2 * ra >= d,
                    ra < d,
                    d > 0,
            {
                if qa >= m {
                    assert(qa * d >= m * d);
                    assert(r * m < d * m || m == 0);
                }
            }
        } else {
            lemma_fundamental_div_mod_converse(
                2 * r * FLICK_DEN + d,
                2 * d as int,
                qa as int,
                2 * ra + d,
            );
        }
    }
    u
}

/// `(x·e + y) / e == x + y / e` for positive `e`.
proof fn lemma_div_shift(x: int, y: int, e: int)
    requires
        e > 0,
    ensures
        (x * e + y) / e == x + y / e,
{
    lemma_fundamental_div_mod(y, e);
    lemma_mod_bound(y, e);
    assert(x * e + y == (x + y / e) * e + y % e) by (nonlinear_arith)
        requires
            y == e * (y / e) + y % e,
    ;
    lemma_fundamental_div_mod_converse(x * e + y, e, x + y / e, y % e);
}

/// How many flick-grid ticks are nearest to `n / d` (ties away from zero),
/// or None when that count does not fit `i64`.
pub fn grid_count(n: i128, d: i128) -> (r: Option<i64>)
    requires
        d > 0,
        -0x7fff_ffff_ffff_ffff_ffff_ffff_ffff_ffff <= n,
    ensures
        match r {
            Some(u) => u as int == round_half_away(n as int * FLICK_DEN, d as int),
            None => !fits_i64(round_half_away(n as int * FLICK_DEN, d as int)),
        },
{
    let neg = n < 0;
    let m: u128 = if neg {
        (-n) as u128
    } else {
        n as u128
    };
    let du = d as u128;
    let q = m / du;
    let rem = m % du;
    proof {
        lemma_fundamental_div_mod(m as int, du as int);
        lemma_mod_pos_bound(m as int, du as int);
        // 2·m·F + d == (q·F)·(2d) + (2·rem·F + d)
        assert(2 * (m * FLICK_DEN) + du == (q * FLICK_DEN) * (2 * du) + (2 * rem * FLICK_DEN + du))
            by (nonlinear_arith)
            requires
                m == du * q + rem,
        ;
        lemma_div_shift(q * FLICK_DEN, 2 * rem * FLICK_DEN + du, 2 * du);
        assert(2 * (m * FLICK_DEN) == 2 * m * FLICK_DEN) by (nonlinear_arith);
        assert(n * FLICK_DEN == (if neg { -(m * FLICK_DEN) } else { m * FLICK_DEN })) by (nonlinear_arith)
            requires
                m == (if neg { -(n as int) } else { n as int }),
                neg == (n < 0),
        ;
    }
    if q > 13_071_672_388 {
        proof {
            assert(q * FLICK_DEN > 0x8000_0000_0000_0000) by (nonlinear_arith)
                requires
                    q > 13_071_672_388,
            ;
            lemma_div_pos_is_pos(2 * rem * FLICK_DEN + du, 2 * du);
        }
        return None;
    }
    let frac = flick_frac_round(rem, du);
    proof {
        assert(q * FLICK_DEN <= 13_071_672_388 * FLICK_DEN) by (nonlinear_arith)
            requires
                q <= 13_071_672_388,
        ;
    }
    let ua: u128 = q * 705_600_000u128 + frac;
    if neg {
        if ua > 0x8000_0000_0000_0000 {
            return None;
        }
        let units: i64 = (-(ua as i128)) as i64;
        Some(units)
    } else {
        if ua > 0x7fff_ffff_ffff_ffff {
            return None;
        }
        Some(ua as i64)
    }
}

/// The flick-grid rational nearest to `n / d` (ties away from zero), or
/// `Overflow` when that grid count does not fit `i64`.
pub fn round_onto_grid(n: i128, d: i128) -> (r: Result<Rational, TimeError>)
    requires
        d > 0,
        -0x7fff_ffff_ffff_ffff_ffff_ffff_ffff_ffff <= n,
    ensures
        r == grid_round_spec(n as int, d as int),
{
    match grid_count(n, d) {
        Some(u) => Rational::new(u, FLICK_DEN),
        None => Err(TimeError::Overflow),
    }
}

/// Builds `n / d` from wide parts.
fn from_parts(n: i128, d: i128) -> (r: Result<Rational, TimeError>)
    requires
        -0x7fff_ffff_ffff_ffff_ffff_ffff_ffff_ffff <= n <= 0x7fff_ffff_ffff_ffff_ffff_ffff_ffff_ffff,
        -0x7fff_ffff_ffff_ffff_ffff_ffff_ffff_ffff <= d <= 0x7fff_ffff_ffff_ffff_ffff_ffff_ffff_ffff,
    ensures
        r == from_parts_spec(n as int, d as int),
{
    if d == 0 {
        return Err(TimeError::ZeroDenominator);
    }
    proof {
        lemma_reduce(n as int, d as int);
    }
    let sn: i128 = if d < 0 {
        -n
    } else {
        n
    };
    let sd: i128 = if d < 0 {
        -d
    } else {
        d
    };
    let m: u128 = if sn < 0 {
        (-sn) as u128
    } else {
        sn as u128
    };
    let g = gcd_u128(m, sd as u128);
    proof {
        lemma_gcd_divides(m as nat, sd as nat);
    }
    let rm = m / g;
    let rd = (sd as u128) / g;
    let neg = sn < 0;
    if rd > 0x7fff_ffff_ffff_ffff {
        return Err(TimeError::Overflow);
    }
    if neg {
        if rm > 0x8000_0000_0000_0000 {
            return Err(TimeError::Overflow);
        }
        let num: i64 = (-(rm as i128)) as i64;
        Ok(Rational { num, den: rd as i64 })
    } else {
        if rm > 0x7fff_ffff_ffff_ffff {
            return Err(TimeError::Overflow);
        }
        Ok(Rational { num: rm as i64, den: rd as i64 })
    }
}

} // verus!

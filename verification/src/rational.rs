//! Exact rational arithmetic on `i64` numerator/denominator pairs.
//!
//! Every operation normalizes its result (positive denominator, reduced by
//! the greatest common divisor).  A result whose reduced form does not fit
//! the `i64` range becomes the single invalid value ("poison", `0/0`),
//! which every later operation propagates, so all arithmetic is total and
//! panic-free and an overflow can be detected at the end of a computation
//! by one validity test.

use vstd::prelude::*;
use vstd::arithmetic::div_mod::{
    lemma_fundamental_div_mod, lemma_div_multiples_vanish,
};

verus! {

/// Mathematical value of a rational: an unreduced pair of integers.
/// Specification arithmetic on these pairs never leaves `int`.
pub struct RatV {
    pub n: int,
    pub d: int,
}

pub open spec fn iabs(x: int) -> int {
    if x < 0 { -x } else { x }
}

pub open spec fn gcd_nat(a: nat, b: nat) -> nat
    decreases b,
{
    if b == 0 { a } else { gcd_nat(b, a % b) }
}

/// The invalid rational that stands for a value outside the representable range.
pub open spec fn rat_poison() -> RatV {
    RatV { n: 0, d: 0 }
}

pub open spec fn rat_zero() -> RatV {
    RatV { n: 0, d: 1 }
}

/// A pair that denotes a real rational number (denominator at least one).
pub open spec fn rat_valid(a: RatV) -> bool {
    1 <= a.d
}

/// A pair whose two components fit the executable representation.
/// `i64::MIN` is excluded so that negation stays in range.
pub open spec fn rat_fits(a: RatV) -> bool {
    &&& -(i64::MAX as int) <= a.n <= i64::MAX as int
    &&& 1 <= a.d <= i64::MAX as int
}

/// Canonical form of `n / d`: positive denominator, reduced by the gcd.
pub open spec fn rat_norm_v(n: int, d: int) -> RatV {
    if d == 0 {
        rat_poison()
    } else {
        let g = gcd_nat(iabs(n) as nat, iabs(d) as nat) as int;
        let sn = if d < 0 { -n } else { n };
        RatV { n: sn / g, d: iabs(d) / g }
    }
}

pub open spec fn rat_clamp(r: RatV) -> RatV {
    if rat_fits(r) { r } else { rat_poison() }
}

/// Canonical form of `n / d`, or poison when it leaves the `i64` range.
pub open spec fn rat_norm_fit(n: int, d: int) -> RatV {
    rat_clamp(rat_norm_v(n, d))
}

/// What [`Rat::new`] returns.
pub open spec fn rat_new_v(n: int, d: int) -> RatV {
    if d == 0 { rat_poison() } else { rat_norm_fit(n, d) }
}

/// What [`Rat::add`] returns.
pub open spec fn rat_add_v(a: RatV, b: RatV) -> RatV {
    if rat_fits(a) && rat_fits(b) {
        rat_norm_fit(a.n * b.d + b.n * a.d, a.d * b.d)
    } else {
        rat_poison()
    }
}

/// What [`Rat::sub`] returns.
pub open spec fn rat_sub_v(a: RatV, b: RatV) -> RatV {
    if rat_fits(a) && rat_fits(b) {
        rat_norm_fit(a.n * b.d - b.n * a.d, a.d * b.d)
    } else {
        rat_poison()
    }
}

/// What [`Rat::mul`] returns.
pub open spec fn rat_mul_v(a: RatV, b: RatV) -> RatV {
    if rat_fits(a) && rat_fits(b) {
        rat_norm_fit(a.n * b.n, a.d * b.d)
    } else {
        rat_poison()
    }
}

/// What [`Rat::div`] returns; division by zero gives poison.
pub open spec fn rat_div_v(a: RatV, b: RatV) -> RatV {
    if rat_fits(a) && rat_fits(b) && b.n != 0 {
        rat_norm_fit(a.n * b.d, a.d * b.n)
    } else {
        rat_poison()
    }
}

/// What [`Rat::neg`] returns.
pub open spec fn rat_neg_v(a: RatV) -> RatV {
    if rat_fits(a) { RatV { n: -a.n, d: a.d } } else { rat_poison() }
}

/// Value equality of two pairs (cross multiplication).
pub open spec fn rat_eqv(a: RatV, b: RatV) -> bool {
    a.n * b.d == b.n * a.d
}

/// Value order of two pairs; meaningful when both denominators are positive.
pub open spec fn rat_le_v(a: RatV, b: RatV) -> bool {
    a.n * b.d <= b.n * a.d
}

pub open spec fn rat_lt_v(a: RatV, b: RatV) -> bool {
    a.n * b.d < b.n * a.d
}

/// Unbounded (purely mathematical) addition, used to state laws about sums.
pub open spec fn rat_radd(a: RatV, b: RatV) -> RatV {
    RatV { n: a.n * b.d + b.n * a.d, d: a.d * b.d }
}

pub open spec fn divides(f: int, x: int) -> bool {
    exists|k: int| x == #[trigger] (f * k)
}

pub proof fn lemma_gcd_pos(a: nat, b: nat)
    requires
        a > 0 || b > 0,
    ensures
        gcd_nat(a, b) >= 1,
    decreases b,
{
    if b > 0 {
        lemma_gcd_pos(b, a % b);
    }
}

pub proof fn lemma_gcd_divides(a: nat, b: nat)
    ensures
        divides(gcd_nat(a, b) as int, a as int),
        divides(gcd_nat(a, b) as int, b as int),
    decreases b,
{
    let g = gcd_nat(a, b) as int;
    if b == 0 {
        assert(a as int == g * 1);
        assert(0int == g * 0);
    } else {
        lemma_gcd_divides(b, a % b);
        let k1 = choose|k: int| b as int == #[trigger] (g * k);
        let k2 = choose|k: int| (a % b) as int == #[trigger] (g * k);
        lemma_fundamental_div_mod(a as int, b as int);
        let q = a as int / b as int;
        assert(a as int == b as int * q + (a % b) as int);
        assert(a as int == g * (k1 * q + k2)) by (nonlinear_arith)
            requires
                a as int == b as int * q + (a % b) as int,
                b as int == g * k1,
                (a % b) as int == g * k2,
        ;
    }
}

/// Exact division both ways when the divisor divides the dividend.
proof fn lemma_exact_div(a: int, g: int)
    requires
        g >= 1,
        divides(g, a),
    ensures
        a == g * (a / g),
        (-a) / g == -(a / g),
{
    let k = choose|k: int| a == #[trigger] (g * k);
    lemma_div_multiples_vanish(k, g);
    assert(g * k / g == k);
    lemma_div_multiples_vanish(-k, g);
    assert(g * -k == -(g * k)) by (nonlinear_arith);
    assert((-a) / g == -k);
}

/// The canonical form of `n / d` is a valid rational of the same value,
/// and reduction never makes the components larger.
pub proof fn lemma_norm_props(n: int, d: int)
    requires
        d != 0,
    ensures
        ({
            let r = rat_norm_v(n, d);
            &&& rat_valid(r)
            &&& r.n * d == n * r.d
            &&& iabs(r.n) <= iabs(n)
            &&& r.d <= iabs(d)
        }),
{
    let a = iabs(n);
    let b = iabs(d);
    lemma_gcd_pos(a as nat, b as nat);
    lemma_gcd_divides(a as nat, b as nat);
    let g = gcd_nat(a as nat, b as nat) as int;
    lemma_exact_div(a, g);
    lemma_exact_div(b, g);
    let ka = a / g;
    let kb = b / g;
    let r = rat_norm_v(n, d);
    assert(kb >= 1) by (nonlinear_arith)
        requires b == g * kb, b >= 1, g >= 1,
    ;
    assert(ka <= a) by (nonlinear_arith)
        requires a == g * ka, a >= 0, g >= 1,
    ;
    let en: int = if n < 0 { -1 } else { 1 };
    let ed: int = if d < 0 { -1 } else { 1 };
    assert(n == en * a && en * en == 1) by (nonlinear_arith)
        requires
            en == (if n < 0 { -1int } else { 1int }),
            a == (if n < 0 { -n } else { n }),
    ;
    assert(d == ed * b && ed * ed == 1) by (nonlinear_arith)
        requires
            ed == (if d < 0 { -1int } else { 1int }),
            b == (if d < 0 { -d } else { d }),
    ;
    let sn = if d < 0 { -n } else { n };
    assert(sn == ed * en * a) by (nonlinear_arith)
        requires
            n == en * a,
            sn == (if d < 0 { -n } else { n }),
            ed == (if d < 0 { -1int } else { 1int }),
    ;
    // sn / g is +/- ka depending on the combined sign.
    if sn >= 0 {
        assert(sn == a) by (nonlinear_arith)
            requires sn == ed * en * a, iabs(sn) == a, sn >= 0,
        ;
        assert(r.n == ka);
    } else {
        assert(sn == -a);
        assert(r.n == -ka);
    }
    assert(r.n == ed * en * ka) by (nonlinear_arith)
        requires
            sn == ed * en * a,
            a == g * ka,
            g >= 1,
            ka >= 0,
            r.n == sn / g,
            (sn >= 0 ==> r.n == ka) && (sn < 0 ==> r.n == -ka),
            en * en == 1,
            ed * ed == 1,
    ;
    assert(iabs(r.n) == ka);
    // value preservation: r.n * d == n * kb with r.d == kb.
    assert(r.d == kb);
    assert(r.n * d == n * kb) by (nonlinear_arith)
        requires
            r.n == ed * en * ka,
            d == ed * b,
            b == g * kb,
            n == en * a,
            a == g * ka,
            en * en == 1,
            ed * ed == 1,
    ;
    assert(r.n * d == n * r.d);
}

/// Unbounded negation, used to state laws about sums.
pub open spec fn rat_rneg(a: RatV) -> RatV {
    RatV { n: -a.n, d: a.d }
}

/// Unbounded product, used to state laws.
pub open spec fn rat_rmul(a: RatV, b: RatV) -> RatV {
    RatV { n: a.n * b.n, d: a.d * b.d }
}

/// A computed sum is either the overflow poison or a valid rational with
/// exactly the mathematical value of the sum.
pub proof fn lemma_add_value(a: RatV, b: RatV)
    ensures
        rat_add_v(a, b) == rat_poison() || (rat_valid(rat_add_v(a, b)) && rat_eqv(
            rat_add_v(a, b),
            rat_radd(a, b),
        )),
{
    if rat_fits(a) && rat_fits(b) {
        let nr = a.n * b.d + b.n * a.d;
        let dr = a.d * b.d;
        assert(dr >= 1) by (nonlinear_arith)
            requires a.d >= 1, b.d >= 1, dr == a.d * b.d,
        ;
        lemma_norm_props(nr, dr);
    }
}

/// A computed difference is poison or has exactly the value of
/// `a + (-b)`.
pub proof fn lemma_sub_value(a: RatV, b: RatV)
    ensures
        rat_sub_v(a, b) == rat_poison() || (rat_valid(rat_sub_v(a, b)) && rat_eqv(
            rat_sub_v(a, b),
            rat_radd(a, rat_rneg(b)),
        )),
{
    if rat_fits(a) && rat_fits(b) {
        let nr = a.n * b.d - b.n * a.d;
        let dr = a.d * b.d;
        assert(dr >= 1) by (nonlinear_arith)
            requires a.d >= 1, b.d >= 1, dr == a.d * b.d,
        ;
        lemma_norm_props(nr, dr);
        assert(nr == a.n * b.d + (-b.n) * a.d) by (nonlinear_arith)
            requires nr == a.n * b.d - b.n * a.d,
        ;
    }
}

/// Value equality is transitive across a valid middle term.
pub proof fn lemma_eqv_trans(a: RatV, b: RatV, c: RatV)
    requires
        b.d != 0,
        rat_eqv(a, b),
        rat_eqv(b, c),
    ensures
        rat_eqv(a, c),
{
    assert(a.n * c.d == c.n * a.d) by (nonlinear_arith)
        requires
            a.n * b.d == b.n * a.d,
            b.n * c.d == c.n * b.d,
            b.d != 0,
    ;
}

/// Mathematical addition respects value equality.
pub proof fn lemma_radd_congruence(a1: RatV, a2: RatV, b1: RatV, b2: RatV)
    requires
        rat_eqv(a1, a2),
        rat_eqv(b1, b2),
    ensures
        rat_eqv(rat_radd(a1, b1), rat_radd(a2, b2)),
{
    assert((a1.n * b1.d + b1.n * a1.d) * (a2.d * b2.d) == (a1.n * b1.d) * (a2.d * b2.d) + (b1.n
        * a1.d) * (a2.d * b2.d)) by (nonlinear_arith);
    assert((a1.n * b1.d) * (a2.d * b2.d) == (a1.n * a2.d) * (b1.d * b2.d)) by (nonlinear_arith);
    assert((b1.n * a1.d) * (a2.d * b2.d) == (b1.n * b2.d) * (a1.d * a2.d)) by (nonlinear_arith);
    assert((a2.n * b2.d + b2.n * a2.d) * (a1.d * b1.d) == (a2.n * b2.d) * (a1.d * b1.d) + (b2.n
        * a2.d) * (a1.d * b1.d)) by (nonlinear_arith);
    assert((a2.n * b2.d) * (a1.d * b1.d) == (a2.n * a1.d) * (b1.d * b2.d)) by (nonlinear_arith);
    assert((b2.n * a2.d) * (a1.d * b1.d) == (b2.n * b1.d) * (a1.d * a2.d)) by (nonlinear_arith);
}

/// Mathematical addition is commutative.
pub proof fn lemma_radd_comm(a: RatV, b: RatV)
    ensures
        rat_radd(a, b) == rat_radd(b, a),
{
}

/// Mathematical addition is associative.
pub proof fn lemma_radd_assoc(a: RatV, b: RatV, c: RatV)
    ensures
        rat_radd(rat_radd(a, b), c) == rat_radd(a, rat_radd(b, c)),
{
    assert((a.n * b.d + b.n * a.d) * c.d == a.n * (b.d * c.d) + (b.n * c.d) * a.d)
        by (nonlinear_arith);
    assert(c.n * (a.d * b.d) == (c.n * b.d) * a.d) by (nonlinear_arith);
    assert((b.n * c.d) * a.d + (c.n * b.d) * a.d == (b.n * c.d + c.n * b.d) * a.d)
        by (nonlinear_arith);
    assert((a.d * b.d) * c.d == a.d * (b.d * c.d)) by (nonlinear_arith);
}

/// Zero is the identity of mathematical addition.
pub proof fn lemma_radd_zero(a: RatV)
    ensures
        rat_radd(a, rat_zero()) == a,
        rat_radd(rat_zero(), a) == a,
{
}

/// The mathematical sum of two valid rationals is valid.
pub proof fn lemma_radd_valid(a: RatV, b: RatV)
    requires
        rat_valid(a),
        rat_valid(b),
    ensures
        rat_valid(rat_radd(a, b)),
{
    assert(a.d * b.d >= 1) by (nonlinear_arith)
        requires a.d >= 1, b.d >= 1,
    ;
}

/// Two valid rationals whose difference has value zero are value-equal.
pub proof fn lemma_diff_zero_eqv(a: RatV, b: RatV)
    requires
        rat_eqv(rat_radd(a, rat_rneg(b)), rat_zero()),
    ensures
        rat_eqv(a, b),
{
    assert((a.n * b.d + (-b.n) * a.d) * 1 == 0 * (a.d * b.d) ==> a.n * b.d == b.n * a.d)
        by (nonlinear_arith);
}

/// Negating the numerator negates the canonical form.
pub proof fn lemma_norm_v_neg(n: int, d: int)
    requires
        d != 0,
    ensures
        rat_norm_v(-n, d) == (RatV { n: -rat_norm_v(n, d).n, d: rat_norm_v(n, d).d }),
{
    let a = iabs(n);
    let b = iabs(d);
    lemma_gcd_pos(a as nat, b as nat);
    lemma_gcd_divides(a as nat, b as nat);
    let g = gcd_nat(a as nat, b as nat) as int;
    lemma_exact_div(a, g);
    assert(iabs(-n) == a);
    let sn = if d < 0 { -n } else { n };
    let sn2 = if d < 0 { n } else { -n };
    assert(sn2 == -sn);
    if sn >= 0 {
        assert(sn == a || sn == -a);
        if sn == a {
            assert(sn / g == a / g);
            assert((-sn) / g == -(a / g));
        } else {
            assert(a == 0 && sn == 0);
        }
    } else {
        assert(sn == -a);
        assert(sn / g == -(a / g));
        assert((-sn) == a);
    }
    assert(sn2 / g == -(sn / g));
}

/// Exchanging the operands of a difference negates the result.
pub proof fn lemma_sub_v_antisym(a: RatV, b: RatV)
    ensures
        rat_sub_v(b, a) == (if rat_sub_v(a, b) == rat_poison() {
            rat_poison()
        } else {
            RatV { n: -rat_sub_v(a, b).n, d: rat_sub_v(a, b).d }
        }),
{
    if rat_fits(a) && rat_fits(b) {
        let nr = a.n * b.d - b.n * a.d;
        let dr = a.d * b.d;
        assert(dr >= 1) by (nonlinear_arith)
            requires a.d >= 1, b.d >= 1, dr == a.d * b.d,
        ;
        assert(b.n * a.d - a.n * b.d == -nr);
        assert(b.d * a.d == dr) by (nonlinear_arith)
            requires dr == a.d * b.d,
        ;
        lemma_norm_v_neg(nr, dr);
        lemma_norm_props(nr, dr);
    }
}

/// Addition of values is commutative, operation for operation.
pub proof fn lemma_add_v_comm(a: RatV, b: RatV)
    ensures
        rat_add_v(a, b) == rat_add_v(b, a),
{
    if rat_fits(a) && rat_fits(b) {
        assert(a.n * b.d + b.n * a.d == b.n * a.d + a.n * b.d);
        assert(a.d * b.d == b.d * a.d);
    }
}

/// The square of a value does not depend on its sign.
pub proof fn lemma_mul_self_neg(x: RatV)
    ensures
        rat_mul_v(RatV { n: -x.n, d: x.d }, RatV { n: -x.n, d: x.d }) == rat_mul_v(x, x),
{
    let y = RatV { n: -x.n, d: x.d };
    assert(rat_fits(y) == rat_fits(x));
    if rat_fits(x) {
        assert(y.n * y.n == x.n * x.n) by (nonlinear_arith)
            requires y.n == -x.n,
        ;
        assert(y.d * y.d == x.d * x.d);
    }
}

/// Value equality carries positivity between valid rationals.
pub proof fn lemma_eqv_pos(a: RatV, b: RatV)
    requires
        rat_valid(a),
        rat_valid(b),
        rat_eqv(a, b),
        a.n > 0,
    ensures
        b.n > 0,
{
    assert(b.n > 0) by (nonlinear_arith)
        requires
            a.n * b.d == b.n * a.d,
            a.n > 0,
            a.d >= 1,
            b.d >= 1,
    ;
}

/// A value that equals an exactly-zero valid rational has value zero.
pub proof fn lemma_eqv_zero_flip(z: RatV, x: RatV)
    requires
        rat_valid(z),
        z.n == 0,
        rat_eqv(z, x),
    ensures
        rat_eqv(x, rat_zero()),
{
    assert(x.n * z.d == 0 && z.d >= 1 ==> x.n == 0) by (nonlinear_arith);
}

/// A value plus its negation has value zero.
pub proof fn lemma_radd_neg(a: RatV)
    requires
        rat_valid(a),
    ensures
        rat_eqv(rat_radd(a, rat_rneg(a)), rat_zero()),
{
    assert((a.n * a.d + (-a.n) * a.d) * 1 == 0 * (a.d * a.d)) by (nonlinear_arith);
}

#[derive(Clone, Copy, PartialEq, Eq, Structural, Debug)]
pub struct Rat {
    num: i64,
    den: i64,
}

impl View for Rat {
    type V = RatV;

    closed spec fn view(&self) -> RatV {
        RatV { n: self.num as int, d: self.den as int }
    }
}

fn gcd_u128(a0: u128, b0: u128) -> (g: u128)
    ensures
        g as nat == gcd_nat(a0 as nat, b0 as nat),
{
    let mut a = a0;
    let mut b = b0;
    while b != 0
        invariant
            gcd_nat(a as nat, b as nat) == gcd_nat(a0 as nat, b0 as nat),
        decreases b,
    {
        let r = a % b;
        a = b;
        b = r;
    }
    a
}

/// Widening product of two `i64` values; never overflows `i128`.
pub(crate) fn mul_wide(a: i64, b: i64) -> (r: i128)
    ensures
        r == a as int * b as int,
{
    proof {
        assert(a as int * b as int <= i128::MAX && i128::MIN <= a as int * b as int)
            by (nonlinear_arith)
            requires
                i64::MIN <= a as int <= i64::MAX,
                i64::MIN <= b as int <= i64::MAX,
        ;
    }
    (a as i128) * (b as i128)
}

impl Rat {
    /// True when the pair denotes a real rational in the representable range.
    pub fn fits_ok(&self) -> (b: bool)
        ensures
            b == rat_fits(self@),
    {
        self.den >= 1 && self.num >= -i64::MAX
    }

    /// True when the value is a real rational (not the overflow poison).
    pub fn is_valid(&self) -> (b: bool)
        ensures
            b == rat_valid(self@),
    {
        self.den >= 1
    }

    /// True when the value is exactly zero.
    pub fn is_zero(&self) -> (b: bool)
        ensures
            b == (rat_valid(self@) && self@.n == 0),
    {
        self.den >= 1 && self.num == 0
    }

    pub fn num(&self) -> (n: i64)
        ensures
            n as int == self@.n,
    {
        self.num
    }

    pub fn den(&self) -> (d: i64)
        ensures
            d as int == self@.d,
    {
        self.den
    }

    /// The canonical rational `n / d`; poison when `d == 0` or out of range.
    pub fn new(n: i64, d: i64) -> (r: Rat)
        ensures
            r@ == rat_new_v(n as int, d as int),
    {
        if d == 0 {
            Rat { num: 0, den: 0 }
        } else {
            Self::from_raw(n as i128, d as i128)
        }
    }

    /// The integer `n` as a rational.
    pub fn from_int(n: i64) -> (r: Rat)
        ensures
            r@ == rat_new_v(n as int, 1),
            n > i64::MIN ==> r@ == (RatV { n: n as int, d: 1 }),
    {
        let r = Self::new(n, 1);
        proof {
            if n > i64::MIN {
                lemma_norm_props(n as int, 1);
                let c = rat_norm_v(n as int, 1);
                assert(c.d <= 1);
                assert(c.n * 1 == n as int * c.d);
                assert(c.n == n as int) by (nonlinear_arith)
                    requires
                        c.n * 1 == n as int * c.d,
                        c.d == 1,
                ;
                assert(c == RatV { n: n as int, d: 1 });
            }
        }
        r
    }

    /// Normalize a raw wide pair into the canonical representation.
    pub(crate) fn from_raw(n: i128, d: i128) -> (r: Rat)
        requires
            d != 0,
            n > i128::MIN,
            d > i128::MIN,
        ensures
            r@ == rat_norm_fit(n as int, d as int),
    {
        let neg: bool = (n < 0) != (d < 0);
        let na: u128 = if n < 0 { (-n) as u128 } else { n as u128 };
        let da: u128 = if d < 0 { (-d) as u128 } else { d as u128 };
        proof {
            assert(na as int == iabs(n as int));
            assert(da as int == iabs(d as int));
            lemma_gcd_pos(na as nat, da as nat);
            lemma_gcd_divides(na as nat, da as nat);
        }
        let g = gcd_u128(na, da);
        proof {
            lemma_exact_div(na as int, g as int);
            lemma_exact_div(da as int, g as int);
        }
        let nn = na / g;
        let dd = da / g;
        let ghost c = rat_norm_v(n as int, d as int);
        proof {
            lemma_norm_props(n as int, d as int);
            let sn = if (d as int) < 0 { -(n as int) } else { n as int };
            if neg {
                assert(sn == -(na as int));
                assert(c.n == -(nn as int));
            } else {
                assert(sn == na as int);
                assert(c.n == nn as int);
            }
            assert(c.d == dd as int);
        }
        if nn > (i64::MAX as u128) || dd > (i64::MAX as u128) {
            proof {
                assert(!rat_fits(c));
            }
            Rat { num: 0, den: 0 }
        } else {
            proof {
                assert(rat_fits(c));
            }
            if neg {
                Rat { num: -(nn as i64), den: dd as i64 }
            } else {
                Rat { num: nn as i64, den: dd as i64 }
            }
        }
    }

    /// Exact sum; poison on range overflow of the reduced result.
    pub fn add(&self, rhs: &Rat) -> (r: Rat)
        ensures
            r@ == rat_add_v(self@, rhs@),
    {
        if !self.fits_ok() || !rhs.fits_ok() {
            Rat { num: 0, den: 0 }
        } else {
            let p1 = mul_wide(self.num, rhs.den);
            let p2 = mul_wide(rhs.num, self.den);
            let dd = mul_wide(self.den, rhs.den);
            proof {
                assert(p1 + p2 < i128::MAX && i128::MIN < p1 + p2 && dd >= 1)
                    by (nonlinear_arith)
                    requires
                        p1 == self@.n * rhs@.d,
                        p2 == rhs@.n * self@.d,
                        dd == self@.d * rhs@.d,
                        rat_fits(self@),
                        rat_fits(rhs@),
                ;
            }
            Self::from_raw(p1 + p2, dd)
        }
    }

    /// Exact difference; poison on range overflow of the reduced result.
    pub fn sub(&self, rhs: &Rat) -> (r: Rat)
        ensures
            r@ == rat_sub_v(self@, rhs@),
    {
        if !self.fits_ok() || !rhs.fits_ok() {
            Rat { num: 0, den: 0 }
        } else {
            let p1 = mul_wide(self.num, rhs.den);
            let p2 = mul_wide(rhs.num, self.den);
            let dd = mul_wide(self.den, rhs.den);
            proof {
                assert(p1 - p2 < i128::MAX && i128::MIN < p1 - p2 && dd >= 1)
                    by (nonlinear_arith)
                    requires
                        p1 == self@.n * rhs@.d,
                        p2 == rhs@.n * self@.d,
                        dd == self@.d * rhs@.d,
                        rat_fits(self@),
                        rat_fits(rhs@),
                ;
            }
            Self::from_raw(p1 - p2, dd)
        }
    }

    /// Exact product; poison on range overflow of the reduced result.
    pub fn mul(&self, rhs: &Rat) -> (r: Rat)
        ensures
            r@ == rat_mul_v(self@, rhs@),
    {
        if !self.fits_ok() || !rhs.fits_ok() {
            Rat { num: 0, den: 0 }
        } else {
            let nn = mul_wide(self.num, rhs.num);
            let dd = mul_wide(self.den, rhs.den);
            proof {
                assert(nn > i128::MIN && dd >= 1) by (nonlinear_arith)
                    requires
                        nn == self@.n * rhs@.n,
                        dd == self@.d * rhs@.d,
                        rat_fits(self@),
                        rat_fits(rhs@),
                ;
            }
            Self::from_raw(nn, dd)
        }
    }

    /// Exact quotient; poison when the divisor is zero or on range overflow.
    pub fn div(&self, rhs: &Rat) -> (r: Rat)
        ensures
            r@ == rat_div_v(self@, rhs@),
    {
        if !self.fits_ok() || !rhs.fits_ok() || rhs.num == 0 {
            Rat { num: 0, den: 0 }
        } else {
            let nn = mul_wide(self.num, rhs.den);
            let dd = mul_wide(self.den, rhs.num);
            proof {
                assert(nn > i128::MIN && dd != 0 && dd > i128::MIN) by (nonlinear_arith)
                    requires
                        nn == self@.n * rhs@.d,
                        dd == self@.d * rhs@.n,
                        rat_fits(self@),
                        rat_fits(rhs@),
                        rhs@.n != 0,
                ;
            }
            Self::from_raw(nn, dd)
        }
    }

    /// Exact negation; total because `i64::MIN` never occurs in a fitting value.
    pub fn neg(&self) -> (r: Rat)
        ensures
            r@ == rat_neg_v(self@),
    {
        if !self.fits_ok() {
            Rat { num: 0, den: 0 }
        } else {
            Rat { num: -self.num, den: self.den }
        }
    }

    /// Value order (at most); meaningful when both sides are valid.
    pub fn le(&self, rhs: &Rat) -> (b: bool)
        ensures
            b == rat_le_v(self@, rhs@),
    {
        let p1 = mul_wide(self.num, rhs.den);
        let p2 = mul_wide(rhs.num, self.den);
        p1 <= p2
    }

    /// Strict value order; meaningful when both sides are valid.
    pub fn lt(&self, rhs: &Rat) -> (b: bool)
        ensures
            b == rat_lt_v(self@, rhs@),
    {
        let p1 = mul_wide(self.num, rhs.den);
        let p2 = mul_wide(rhs.num, self.den);
        p1 < p2
    }

    /// Value equality; meaningful when both sides are valid.
    pub fn eq_val(&self, rhs: &Rat) -> (b: bool)
        ensures
            b == rat_eqv(self@, rhs@),
    {
        let p1 = mul_wide(self.num, rhs.den);
        let p2 = mul_wide(rhs.num, self.den);
        p1 == p2
    }
}

} // verus!

//! Three-component vectors of exact rationals.

use vstd::prelude::*;
use crate::rational::{
    Rat, RatV, rat_add_v, rat_div_v, rat_eqv, rat_fits, rat_mul_v, rat_neg_v, rat_new_v, rat_poison,
    rat_radd, rat_rneg, rat_sub_v, rat_valid, rat_zero, lemma_add_value,
    lemma_sub_value, lemma_radd_congruence, lemma_radd_comm, lemma_radd_assoc, lemma_radd_zero,
    lemma_radd_neg, lemma_radd_valid, lemma_diff_zero_eqv, lemma_eqv_trans, lemma_eqv_zero_flip,
};

verus! {

/// Mathematical value of a vector: three rational pairs.
pub struct VecV {
    pub x: RatV,
    pub y: RatV,
    pub z: RatV,
}

pub open spec fn vec_zero() -> VecV {
    VecV { x: rat_zero(), y: rat_zero(), z: rat_zero() }
}

/// All three components denote real rationals (no overflow poison).
pub open spec fn vec_valid(v: VecV) -> bool {
    rat_valid(v.x) && rat_valid(v.y) && rat_valid(v.z)
}

pub open spec fn vec_fits(v: VecV) -> bool {
    rat_fits(v.x) && rat_fits(v.y) && rat_fits(v.z)
}

/// The vector is valid and its value is exactly the zero vector.
pub open spec fn vec_is_zero(v: VecV) -> bool {
    vec_valid(v) && v.x.n == 0 && v.y.n == 0 && v.z.n == 0
}

/// Componentwise value equality.
pub open spec fn vec_eqv(a: VecV, b: VecV) -> bool {
    rat_eqv(a.x, b.x) && rat_eqv(a.y, b.y) && rat_eqv(a.z, b.z)
}

/// What [`Vec3::add`] returns.
pub open spec fn vec_add_v(a: VecV, b: VecV) -> VecV {
    VecV { x: rat_add_v(a.x, b.x), y: rat_add_v(a.y, b.y), z: rat_add_v(a.z, b.z) }
}

/// What [`Vec3::sub`] returns.
pub open spec fn vec_sub_v(a: VecV, b: VecV) -> VecV {
    VecV { x: rat_sub_v(a.x, b.x), y: rat_sub_v(a.y, b.y), z: rat_sub_v(a.z, b.z) }
}

/// What [`Vec3::neg`] returns.
pub open spec fn vec_neg_v(a: VecV) -> VecV {
    VecV { x: rat_neg_v(a.x), y: rat_neg_v(a.y), z: rat_neg_v(a.z) }
}

/// What [`Vec3::scale`] returns.
pub open spec fn vec_scale_v(a: VecV, s: RatV) -> VecV {
    VecV { x: rat_mul_v(a.x, s), y: rat_mul_v(a.y, s), z: rat_mul_v(a.z, s) }
}

/// What [`Vec3::div_scalar`] returns.
pub open spec fn vec_div_s_v(a: VecV, s: RatV) -> VecV {
    VecV { x: rat_div_v(a.x, s), y: rat_div_v(a.y, s), z: rat_div_v(a.z, s) }
}

/// What [`Vec3::dot`] returns.
pub open spec fn vec_dot_v(a: VecV, b: VecV) -> RatV {
    rat_add_v(rat_add_v(rat_mul_v(a.x, b.x), rat_mul_v(a.y, b.y)), rat_mul_v(a.z, b.z))
}

/// What [`Vec3::norm2`] returns: the squared Euclidean length.
pub open spec fn vec_norm2_v(a: VecV) -> RatV {
    vec_dot_v(a, a)
}

/// Unbounded componentwise addition, used to state laws about sums.
pub open spec fn vec_radd(a: VecV, b: VecV) -> VecV {
    VecV { x: rat_radd(a.x, b.x), y: rat_radd(a.y, b.y), z: rat_radd(a.z, b.z) }
}

/// Unbounded componentwise negation.
pub open spec fn vec_rneg(a: VecV) -> VecV {
    VecV { x: rat_rneg(a.x), y: rat_rneg(a.y), z: rat_rneg(a.z) }
}

/// A computed vector sum is either partly poisoned or has exactly the
/// mathematical value of the sum.
pub proof fn lemma_vec_add_value(a: VecV, b: VecV)
    ensures
        !vec_valid(vec_add_v(a, b)) || vec_eqv(vec_add_v(a, b), vec_radd(a, b)),
{
    lemma_add_value(a.x, b.x);
    lemma_add_value(a.y, b.y);
    lemma_add_value(a.z, b.z);
}

/// A computed vector difference is partly poisoned or has exactly the
/// value of `a + (-b)`.
pub proof fn lemma_vec_sub_value(a: VecV, b: VecV)
    ensures
        !vec_valid(vec_sub_v(a, b)) || vec_eqv(vec_sub_v(a, b), vec_radd(a, vec_rneg(b))),
{
    lemma_sub_value(a.x, b.x);
    lemma_sub_value(a.y, b.y);
    lemma_sub_value(a.z, b.z);
}

pub proof fn lemma_vec_eqv_trans(a: VecV, b: VecV, c: VecV)
    requires
        vec_valid(b),
        vec_eqv(a, b),
        vec_eqv(b, c),
    ensures
        vec_eqv(a, c),
{
    lemma_eqv_trans(a.x, b.x, c.x);
    lemma_eqv_trans(a.y, b.y, c.y);
    lemma_eqv_trans(a.z, b.z, c.z);
}

pub proof fn lemma_vec_radd_congruence(a1: VecV, a2: VecV, b1: VecV, b2: VecV)
    requires
        vec_eqv(a1, a2),
        vec_eqv(b1, b2),
    ensures
        vec_eqv(vec_radd(a1, b1), vec_radd(a2, b2)),
{
    lemma_radd_congruence(a1.x, a2.x, b1.x, b2.x);
    lemma_radd_congruence(a1.y, a2.y, b1.y, b2.y);
    lemma_radd_congruence(a1.z, a2.z, b1.z, b2.z);
}

pub proof fn lemma_vec_radd_comm(a: VecV, b: VecV)
    ensures
        vec_radd(a, b) == vec_radd(b, a),
{
    lemma_radd_comm(a.x, b.x);
    lemma_radd_comm(a.y, b.y);
    lemma_radd_comm(a.z, b.z);
}

pub proof fn lemma_vec_radd_assoc(a: VecV, b: VecV, c: VecV)
    ensures
        vec_radd(vec_radd(a, b), c) == vec_radd(a, vec_radd(b, c)),
{
    lemma_radd_assoc(a.x, b.x, c.x);
    lemma_radd_assoc(a.y, b.y, c.y);
    lemma_radd_assoc(a.z, b.z, c.z);
}

/// Moving the last summand inward: `a + (b + f) == (a + f) + b`.
pub proof fn lemma_vec_radd_shuffle(a: VecV, b: VecV, f: VecV)
    ensures
        vec_radd(a, vec_radd(b, f)) == vec_radd(vec_radd(a, f), b),
{
    lemma_vec_radd_assoc(a, f, b);
    lemma_vec_radd_comm(f, b);
    lemma_vec_radd_assoc(a, b, f);
}

pub proof fn lemma_vec_radd_zero(a: VecV)
    ensures
        vec_radd(a, vec_zero()) == a,
        vec_radd(vec_zero(), a) == a,
{
    lemma_radd_zero(a.x);
    lemma_radd_zero(a.y);
    lemma_radd_zero(a.z);
}

/// The mathematical sum of two valid vectors is valid.
pub proof fn lemma_vec_radd_valid(a: VecV, b: VecV)
    requires
        vec_valid(a),
        vec_valid(b),
    ensures
        vec_valid(vec_radd(a, b)),
{
    lemma_radd_valid(a.x, b.x);
    lemma_radd_valid(a.y, b.y);
    lemma_radd_valid(a.z, b.z);
}

/// Two vectors whose componentwise difference has value zero are value-equal.
pub proof fn lemma_vec_diff_zero_eqv(a: VecV, b: VecV)
    requires
        vec_eqv(vec_radd(a, vec_rneg(b)), vec_zero()),
    ensures
        vec_eqv(a, b),
{
    lemma_diff_zero_eqv(a.x, b.x);
    lemma_diff_zero_eqv(a.y, b.y);
    lemma_diff_zero_eqv(a.z, b.z);
}

/// A vector that equals an exactly-zero valid vector has value zero.
pub proof fn lemma_vec_eqv_zero_flip(z: VecV, x: VecV)
    requires
        vec_valid(z),
        z.x.n == 0 && z.y.n == 0 && z.z.n == 0,
        vec_eqv(z, x),
    ensures
        vec_eqv(x, vec_zero()),
{
    lemma_eqv_zero_flip(z.x, x.x);
    lemma_eqv_zero_flip(z.y, x.y);
    lemma_eqv_zero_flip(z.z, x.z);
}

/// A vector plus its negation has value zero.
pub proof fn lemma_vec_radd_neg(a: VecV)
    requires
        vec_valid(a),
    ensures
        vec_eqv(vec_radd(a, vec_rneg(a)), vec_zero()),
{
    lemma_radd_neg(a.x);
    lemma_radd_neg(a.y);
    lemma_radd_neg(a.z);
}

#[derive(Clone, Copy, PartialEq, Eq, Structural, Debug)]
pub struct Vec3 {
    x: Rat,
    y: Rat,
    z: Rat,
}

impl View for Vec3 {
    type V = VecV;

    closed spec fn view(&self) -> VecV {
        VecV { x: self.x@, y: self.y@, z: self.z@ }
    }
}

impl Vec3 {
    pub fn new(x: Rat, y: Rat, z: Rat) -> (v: Vec3)
        ensures
            v@ == (VecV { x: x@, y: y@, z: z@ }),
    {
        Vec3 { x, y, z }
    }

    /// The vector with the three given integer components.
    pub fn from_ints(x: i64, y: i64, z: i64) -> (v: Vec3)
        ensures
            v@ == (VecV { x: rat_new_v(x as int, 1), y: rat_new_v(y as int, 1), z: rat_new_v(
                z as int,
                1,
            ) }),
    {
        Vec3 { x: Rat::from_int(x), y: Rat::from_int(y), z: Rat::from_int(z) }
    }

    /// The zero vector.
    pub fn zero() -> (v: Vec3)
        ensures
            v@ == vec_zero(),
    {
        let r = Vec3 {
            x: Rat::from_int(0),
            y: Rat::from_int(0),
            z: Rat::from_int(0),
        };
        r
    }

    pub fn x(&self) -> (r: Rat)
        ensures
            r@ == self@.x,
    {
        self.x
    }

    pub fn y(&self) -> (r: Rat)
        ensures
            r@ == self@.y,
    {
        self.y
    }

    pub fn z(&self) -> (r: Rat)
        ensures
            r@ == self@.z,
    {
        self.z
    }

    pub fn is_valid(&self) -> (b: bool)
        ensures
            b == vec_valid(self@),
    {
        self.x.is_valid() && self.y.is_valid() && self.z.is_valid()
    }

    /// True when the vector is valid and exactly zero.
    pub fn is_zero(&self) -> (b: bool)
        ensures
            b == vec_is_zero(self@),
    {
        self.x.is_zero() && self.y.is_zero() && self.z.is_zero()
    }

    pub fn add(&self, rhs: &Vec3) -> (r: Vec3)
        ensures
            r@ == vec_add_v(self@, rhs@),
    {
        Vec3 { x: self.x.add(&rhs.x), y: self.y.add(&rhs.y), z: self.z.add(&rhs.z) }
    }

    pub fn sub(&self, rhs: &Vec3) -> (r: Vec3)
        ensures
            r@ == vec_sub_v(self@, rhs@),
    {
        Vec3 { x: self.x.sub(&rhs.x), y: self.y.sub(&rhs.y), z: self.z.sub(&rhs.z) }
    }

    pub fn neg(&self) -> (r: Vec3)
        ensures
            r@ == vec_neg_v(self@),
    {
        Vec3 { x: self.x.neg(), y: self.y.neg(), z: self.z.neg() }
    }

    /// Multiply each component by the scalar `s`.
    pub fn scale(&self, s: &Rat) -> (r: Vec3)
        ensures
            r@ == vec_scale_v(self@, s@),
    {
        Vec3 { x: self.x.mul(s), y: self.y.mul(s), z: self.z.mul(s) }
    }

    /// Divide each component by the scalar `s`.
    pub fn div_scalar(&self, s: &Rat) -> (r: Vec3)
        ensures
            r@ == vec_div_s_v(self@, s@),
    {
        Vec3 { x: self.x.div(s), y: self.y.div(s), z: self.z.div(s) }
    }

    pub fn dot(&self, rhs: &Vec3) -> (r: Rat)
        ensures
            r@ == vec_dot_v(self@, rhs@),
    {
        let px = self.x.mul(&rhs.x);
        let py = self.y.mul(&rhs.y);
        let pz = self.z.mul(&rhs.z);
        px.add(&py).add(&pz)
    }

    /// The squared Euclidean length.
    pub fn norm2(&self) -> (r: Rat)
        ensures
            r@ == vec_norm2_v(self@),
    {
        self.dot(self)
    }
}

} // verus!

//! Rounding to a fixed number of decimal digits, used when values are
//! reported outside the simulation.

use vstd::prelude::*;
use crate::rational::{Rat, RatV, rat_fits, rat_norm_fit, rat_poison};

verus! {

/// Ten to the power `d` (one for non-positive `d`).
pub open spec fn pow10(d: int) -> int
    decreases d,
{
    if d <= 0 {
        1
    } else {
        10 * pow10(d - 1)
    }
}

pub proof fn lemma_pow10_mono(a: int, b: int)
    requires
        0 <= a <= b,
    ensures
        1 <= pow10(a) <= pow10(b),
    decreases b,
{
    if a < b {
        lemma_pow10_mono(a, b - 1);
    } else {
        lemma_pow10_pos(a);
    }
}

pub proof fn lemma_pow10_pos(a: int)
    ensures
        pow10(a) >= 1,
    decreases a,
{
    if a > 0 {
        lemma_pow10_pos(a - 1);
    }
}

proof fn lemma_pow10_18()
    ensures
        pow10(18) == 1000000000000000000,
{
    reveal_with_fuel(pow10, 20);
}

/// The value of `x` rounded to `digits` decimal digits, halves away from
/// zero; poison when `x` is invalid or `digits` exceeds eighteen.
pub open spec fn rat_round_v(x: RatV, digits: int) -> RatV {
    if !rat_fits(x) || digits > 18 {
        rat_poison()
    } else {
        let p = pow10(digits);
        let m = x.n * p;
        let k = if m >= 0 {
            (2 * m + x.d) / (2 * x.d)
        } else {
            -((2 * (-m) + x.d) / (2 * x.d))
        };
        rat_norm_fit(k, p)
    }
}

/// Rounding to a number of decimal digits.
pub trait Round {
    fn round_digits(self, digits: u32) -> Self;
}

impl Rat {
    /// Round to `digits` decimal digits, halves away from zero; see
    /// [`rat_round_v`].
    pub fn round_to_digits(&self, digits: u32) -> (r: Rat)
        ensures
            r@ == rat_round_v(self@, digits as int),
    {
        if !self.fits_ok() || digits > 18 {
            Rat::new(0, 0)
        } else {
            let mut p: u64 = 1;
            let mut i: u32 = 0;
            while i < digits
                invariant
                    0 <= i <= digits <= 18,
                    p == pow10(i as int),
                decreases digits - i,
            {
                proof {
                    lemma_pow10_mono(i as int, 17);
                    lemma_pow10_18();
                }
                p = p * 10;
                i = i + 1;
            }
            proof {
                lemma_pow10_mono(digits as int, 18);
                lemma_pow10_18();
            }
            let m = crate::rational::mul_wide(self.num(), p as i64);
            let ghost d = self@.d;
            proof {
                assert(-(9223372036854775807 * 1000000000000000000) <= m
                    && m <= 9223372036854775807 * 1000000000000000000) by (nonlinear_arith)
                    requires
                        m == self@.n * pow10(digits as int),
                        -(i64::MAX as int) <= self@.n <= i64::MAX as int,
                        1 <= pow10(digits as int) <= 1000000000000000000,
                ;
            }
            let ma: i128 = if m < 0 {
                -m
            } else {
                m
            };
            proof {
                assert(2 * ma + d <= i128::MAX && 2 * (d as int) <= i128::MAX)
                    by (nonlinear_arith)
                    requires
                        0 <= ma as int,
                        ma as int <= 9223372036854775807 * 1000000000000000000,
                        1 <= d <= i64::MAX as int,
                ;
            }
            let num2: i128 = 2 * ma + (self.den() as i128);
            let den2: i128 = 2 * (self.den() as i128);
            let q: i128 = num2 / den2;
            let k: i128 = if m < 0 {
                -q
            } else {
                q
            };
            proof {
                assert(0 <= q <= num2);
                assert(k == (if m >= 0 {
                    (2 * (m as int) + d) / (2 * d)
                } else {
                    -((2 * (-(m as int)) + d) / (2 * d))
                }));
            }
            Rat::from_raw(k, p as i128)
        }
    }
}

impl Round for Rat {
    /// Round to `digits` decimal digits, halves away from zero.
    fn round_digits(self, digits: u32) -> Rat {
        self.round_to_digits(digits)
    }
}

} // verus!

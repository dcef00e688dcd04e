//! Square roots of rationals, approximated from below on a fixed
//! micro-unit grid.  Only the energy diagnostics need a length; the whole
//! propagation engine works on squared distances and needs none.

use vstd::prelude::*;
use crate::rational::{Rat, RatV, rat_fits, rat_new_v, rat_norm_fit, rat_poison};

verus! {

/// `r` is the integer square root of `x`, rounded down.
pub open spec fn is_floor_sqrt(x: int, r: int) -> bool {
    0 <= r && r * r <= x && x < (r + 1) * (r + 1)
}

pub proof fn lemma_floor_sqrt_exists(x: int)
    requires
        x >= 0,
    ensures
        exists|r: int| #[trigger] is_floor_sqrt(x, r),
    decreases x,
{
    if x == 0 {
        assert(is_floor_sqrt(0, 0));
    } else {
        lemma_floor_sqrt_exists(x - 1);
        let r = choose|r: int| #[trigger] is_floor_sqrt(x - 1, r);
        if (r + 1) * (r + 1) <= x {
            assert(is_floor_sqrt(x, r + 1)) by (nonlinear_arith)
                requires
                    is_floor_sqrt(x - 1, r),
                    (r + 1) * (r + 1) <= x,
            ;
        } else {
            assert(is_floor_sqrt(x, r));
        }
    }
}

pub proof fn lemma_floor_sqrt_unique(x: int, r1: int, r2: int)
    requires
        is_floor_sqrt(x, r1),
        is_floor_sqrt(x, r2),
    ensures
        r1 == r2,
{
    assert(r1 == r2) by (nonlinear_arith)
        requires
            0 <= r1 && r1 * r1 <= x && x < (r1 + 1) * (r1 + 1),
            0 <= r2 && r2 * r2 <= x && x < (r2 + 1) * (r2 + 1),
    ;
}

/// The integer square root of `x`, rounded down.
pub open spec fn floor_sqrt(x: int) -> int {
    choose|r: int| #[trigger] is_floor_sqrt(x, r)
}

/// The integer square root by bisection.
pub fn isqrt_u128(x: u128) -> (r: u64)
    ensures
        is_floor_sqrt(x as int, r as int),
{
    let mut lo: u128 = 0;
    let mut hi: u128 = 0x1_0000_0000_0000_0000;
    proof {
        assert((x as int) < 0x1_0000_0000_0000_0000 * 0x1_0000_0000_0000_0000)
            by (nonlinear_arith)
            requires x <= u128::MAX,
        ;
    }
    while hi - lo > 1
        invariant
            0 <= lo < hi <= 0x1_0000_0000_0000_0000,
            lo as int * lo as int <= x as int,
            (x as int) < hi as int * hi as int,
        decreases hi - lo,
    {
        let mid = lo + (hi - lo) / 2;
        proof {
            assert(lo < mid < hi);
            assert(mid as int * mid as int <= u128::MAX as int) by (nonlinear_arith)
                requires mid as int <= 0xffff_ffff_ffff_ffff,
            ;
        }
        let m2 = mid * mid;
        if m2 <= x {
            lo = mid;
        } else {
            hi = mid;
        }
    }
    proof {
        assert(hi == lo + 1);
        assert(is_floor_sqrt(x as int, lo as int));
        assert(lo as int <= 0xffff_ffff_ffff_ffff);
    }
    lo as u64
}

/// The approximate square root of `q`: the floor square root of
/// `q * 10^12`, in units of `10^-6`.  Poison when `q` is negative or out
/// of range.
pub open spec fn rat_sqrt_v(q: RatV) -> RatV {
    if !rat_fits(q) || q.n < 0 {
        rat_poison()
    } else {
        rat_norm_fit(floor_sqrt(q.n * 1000000000000 / q.d), 1000000)
    }
}

/// The approximate square root; see [`rat_sqrt_v`].
pub fn rat_sqrt(q: &Rat) -> (r: Rat)
    ensures
        r@ == rat_sqrt_v(q@),
{
    if !q.fits_ok() || q.num() < 0 {
        Rat::new(0, 0)
    } else {
        let scaled: u128 = (q.num() as u128) * 1000000000000;
        proof {
            assert(q@.n * 1000000000000 <= u128::MAX as int) by (nonlinear_arith)
                requires 0 <= q@.n <= i64::MAX as int,
            ;
            assert(scaled as int == q@.n * 1000000000000);
        }
        let divided: u128 = scaled / (q.den() as u128);
        proof {
            assert(divided as int == q@.n * 1000000000000 / q@.d);
        }
        let s = isqrt_u128(divided);
        proof {
            lemma_floor_sqrt_exists(divided as int);
            let c = floor_sqrt(divided as int);
            assert(is_floor_sqrt(divided as int, c));
            lemma_floor_sqrt_unique(divided as int, c, s as int);
            vstd::arithmetic::div_mod::lemma_div_nonincreasing(scaled as int, q@.d);
            assert(divided as int <= 9223372036854775807 * 1000000000000) by (nonlinear_arith)
                requires
                    divided as int <= scaled as int,
                    scaled as int == q@.n * 1000000000000,
                    0 <= q@.n <= 9223372036854775807,
            ;
            assert(s as int <= 4000000000000000) by (nonlinear_arith)
                requires
                    0 <= s as int,
                    (s as int) * (s as int) <= divided as int,
                    divided as int <= 9223372036854775807 * 1000000000000,
            ;
        }
        let r = Rat::new(s as i64, 1000000);
        proof {
            assert(r@ == rat_norm_fit(floor_sqrt(q@.n * 1000000000000 / q@.d), 1000000));
        }
        r
    }
}

} // verus!

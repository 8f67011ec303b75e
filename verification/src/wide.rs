//! Exact 256-bit helpers for fixed-point normalisation over `u128` stakes.
//!
//! Stake values occupy the full `u128` range, so `value * SCALE` does not fit
//! in any machine integer.  `mul_wide` computes the exact double-width
//! product, and `frac_scaled` computes `a * SCALE / d` exactly for `a <= d`
//! by binary search over the quotient when the direct product would overflow.

use vstd::prelude::*;
use vstd::arithmetic::div_mod::{
    lemma_div_is_ordered, lemma_div_multiples_vanish, lemma_fundamental_div_mod,
    lemma_fundamental_div_mod_converse,
};
use crate::stats::SCALE;

verus! {

/// 2^64, the base used to split a `u128` into halves.
pub const HALF_BASE: u128 = 0x1_0000_0000_0000_0000;

/// Value of a double-width pair `(high, low)`.
pub open spec fn wide_val(hi: int, lo: int) -> int {
    hi * 0x1_0000_0000_0000_0000_0000_0000_0000_0000 + lo
}

/// Exact 256-bit product of two `u128` values, as a `(high, low)` pair.
pub fn mul_wide(x: u128, y: u128) -> (r: (u128, u128))
    ensures
        wide_val(r.0 as int, r.1 as int) == x * y,
{
    let xh = x / HALF_BASE;
    let xl = x % HALF_BASE;
    let yh = y / HALF_BASE;
    let yl = y % HALF_BASE;
    proof {
        lemma_fundamental_div_mod(x as int, HALF_BASE as int);
        lemma_fundamental_div_mod(y as int, HALF_BASE as int);
        assert(xh < HALF_BASE && yh < HALF_BASE) by (nonlinear_arith)
            requires
                xh == x / HALF_BASE,
                yh == y / HALF_BASE,
                x < HALF_BASE * HALF_BASE,
                y < HALF_BASE * HALF_BASE,
                HALF_BASE > 0,
        ;
        assert(xl * yl <= (HALF_BASE - 1) * (HALF_BASE - 1)
            && xl * yh <= (HALF_BASE - 1) * (HALF_BASE - 1)
            && xh * yl <= (HALF_BASE - 1) * (HALF_BASE - 1)
            && xh * yh <= (HALF_BASE - 1) * (HALF_BASE - 1)) by (nonlinear_arith)
            requires
                0 <= xl < HALF_BASE,
                0 <= yl < HALF_BASE,
                0 <= xh < HALF_BASE,
                0 <= yh < HALF_BASE,
        ;
    }
    let ll = xl * yl;
    let lh = xl * yh;
    let hl = xh * yl;
    let hh = xh * yh;
    proof {
        lemma_fundamental_div_mod(ll as int, HALF_BASE as int);
        assert(ll / HALF_BASE < HALF_BASE) by (nonlinear_arith)
            requires
                ll < HALF_BASE * HALF_BASE,
                HALF_BASE > 0,
        ;
    }
    let m1 = lh + ll / HALF_BASE;
    proof {
        lemma_fundamental_div_mod(m1 as int, HALF_BASE as int);
        assert(m1 / HALF_BASE < HALF_BASE) by (nonlinear_arith)
            requires
                m1 < HALF_BASE * HALF_BASE,
                HALF_BASE > 0,
        ;
    }
    let m2 = hl + m1 % HALF_BASE;
    proof {
        lemma_fundamental_div_mod(m2 as int, HALF_BASE as int);
        assert(m2 / HALF_BASE < HALF_BASE) by (nonlinear_arith)
            requires
                m2 < HALF_BASE * HALF_BASE,
                HALF_BASE > 0,
        ;
        assert((m2 % HALF_BASE) * HALF_BASE <= (HALF_BASE - 1) * HALF_BASE) by (nonlinear_arith)
            requires
                0 <= m2 % HALF_BASE < HALF_BASE,
        ;
    }
    let lo = (m2 % HALF_BASE) * HALF_BASE + ll % HALF_BASE;
    let hi = hh + m1 / HALF_BASE + m2 / HALF_BASE;
    proof {
        // x * y expands over the four half products
        assert(x * y == hh * (HALF_BASE as int) * (HALF_BASE as int)
            + (lh + hl) * (HALF_BASE as int) + ll) by (nonlinear_arith)
            requires
                x == (HALF_BASE as int) * xh + xl,
                y == (HALF_BASE as int) * yh + yl,
                ll == xl * yl,
                lh == xl * yh,
                hl == xh * yl,
                hh == xh * yh,
        ;
        // the carry chain reassembles the same value
        assert(wide_val(hi as int, lo as int) == hh * (HALF_BASE as int) * (HALF_BASE as int)
            + (lh + hl) * (HALF_BASE as int) + ll) by (nonlinear_arith)
            requires
                hi == hh + (m1 as int) / (HALF_BASE as int) + (m2 as int) / (HALF_BASE as int),
                lo == ((m2 as int) % (HALF_BASE as int)) * (HALF_BASE as int) + (ll as int) % (HALF_BASE as int),
                m1 == lh + (ll as int) / (HALF_BASE as int),
                m2 == hl + (m1 as int) % (HALF_BASE as int),
                ll == (HALF_BASE as int) * ((ll as int) / (HALF_BASE as int)) + (ll as int) % (HALF_BASE as int),
                m1 == (HALF_BASE as int) * ((m1 as int) / (HALF_BASE as int)) + (m1 as int) % (HALF_BASE as int),
                m2 == (HALF_BASE as int) * ((m2 as int) / (HALF_BASE as int)) + (m2 as int) % (HALF_BASE as int),
        ;
    }
    (hi, lo)
}

/// `(h1, l1) <= (h2, l2)` as 256-bit values.
fn le_wide(a: (u128, u128), b: (u128, u128)) -> (r: bool)
    ensures
        r == (wide_val(a.0 as int, a.1 as int) <= wide_val(b.0 as int, b.1 as int)),
{
    proof {
        assert(a.0 < b.0 ==> wide_val(a.0 as int, a.1 as int) < wide_val(b.0 as int, b.1 as int))
            by (nonlinear_arith)
            requires
                a.1 < 0x1_0000_0000_0000_0000_0000_0000_0000_0000,
                b.1 >= 0,
        ;
        assert(a.0 > b.0 ==> wide_val(a.0 as int, a.1 as int) > wide_val(b.0 as int, b.1 as int))
            by (nonlinear_arith)
            requires
                b.1 < 0x1_0000_0000_0000_0000_0000_0000_0000_0000,
                a.1 >= 0,
        ;
    }
    a.0 < b.0 || (a.0 == b.0 && a.1 <= b.1)
}

/// Exact `a * SCALE / d`, rounded down, for a fraction `a / d` in [0, 1].
pub fn frac_scaled(a: u128, d: u128) -> (r: u64)
    requires
        a <= d,
        d > 0,
    ensures
        r == a * SCALE / d as int,
        r <= SCALE,
{
    let s = SCALE as u128;
    if a == d {
        proof {
            lemma_div_multiples_vanish(SCALE as int, d as int);
            assert(a * SCALE == (d as int) * SCALE) by (nonlinear_arith)
                requires
                    a == d,
            ;
        }
        return SCALE;
    }
    proof {
        assert(a * SCALE <= d * SCALE) by (nonlinear_arith)
            requires
                a <= d,
                SCALE >= 0,
        ;
        lemma_div_is_ordered(a * SCALE, d * SCALE, d as int);
        lemma_div_multiples_vanish(SCALE as int, d as int);
    }
    if a <= u128::MAX / s {
        proof {
            lemma_fundamental_div_mod(u128::MAX as int, s as int);
            assert(a * s <= ((u128::MAX as int) / (s as int)) * s) by (nonlinear_arith)
                requires
                    a <= (u128::MAX as int) / (s as int),
                    s > 0,
            ;
        }
        let p = a * s;
        let q = p / d;
        return q as u64;
    }
    // a * SCALE overflows u128: binary search for the quotient
    let p = mul_wide(a, s);
    let mut lo: u128 = 0;
    let mut hi: u128 = s + 1;
    proof {
        assert(a * s >= 0) by (nonlinear_arith)
            requires
                a >= 0,
                s >= 0,
        ;
        assert(a * s < (s + 1) * d) by (nonlinear_arith)
            requires
                a <= d,
                d > 0,
                s > 0,
        ;
    }
    while lo + 1 < hi
        invariant
            0 <= lo < hi <= (SCALE as int) + 1,
            lo * d <= a * (SCALE as int),
            a * (SCALE as int) < hi * d,
            wide_val(p.0 as int, p.1 as int) == a * (SCALE as int),
        decreases hi - lo,
    {
        let mid = lo + (hi - lo) / 2;
        let q = mul_wide(mid, d);
        if le_wide(q, p) {
            lo = mid;
        } else {
            hi = mid;
        }
    }
    proof {
        assert(hi == lo + 1);
        assert(a * (SCALE as int) < lo * d + d) by (nonlinear_arith)
            requires
                a * (SCALE as int) < (lo + 1) * d,
        ;
        lemma_fundamental_div_mod_converse(
            a * (SCALE as int),
            d as int,
            lo as int,
            a * (SCALE as int) - lo * d,
        );
    }
    lo as u64
}

} // verus!

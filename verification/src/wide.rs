//! Wide integer arithmetic for the scoring computation.
//!
//! The exact score compares fifth powers of values up to a few billion
//! against radicands near 2^215, so the products are carried as 256-bit
//! values: a pair of 128-bit halves, built up from 128-by-64-bit partial
//! products.

use vstd::prelude::*;

verus! {

/// Two to the sixty-fourth: the limb base the halves are split at.
pub const LIMB: u128 = 0x1_0000_0000_0000_0000;

/// Two to the 128th: the weight of the high half.
pub open spec fn two128() -> int {
    0x1_0000_0000_0000_0000int * 0x1_0000_0000_0000_0000
}

/// Two to the 256th: the bound a 256-bit value stays under.
pub open spec fn two256() -> int {
    two128() * two128()
}

/// An unsigned 256-bit value as two 128-bit halves.
pub struct W256 {
    pub hi: u128,
    pub lo: u128,
}

impl W256 {
    /// The number the halves denote.
    pub open spec fn val(self) -> int {
        self.hi * two128() + self.lo
    }
}

/// The 192-bit product of a 128-bit and a 64-bit value, as a 128-bit low
/// part and a 64-bit overflow part.
fn mul_u128_u64(x: u128, y: u64) -> (r: (u128, u64))
    ensures
        r.0 + (r.1 as int) * two128() == x * y,
{
    let xh = x / LIMB;
    let xl = x % LIMB;
    proof {
        assert(xl * (y as int) < LIMB * LIMB) by (nonlinear_arith)
            requires
                0 <= xl < LIMB && 0 <= (y as int) < LIMB,
        ;
        assert(xh * (y as int) < LIMB * LIMB) by (nonlinear_arith)
            requires
                0 <= xh < LIMB && 0 <= (y as int) < LIMB,
        ;
        assert(LIMB * LIMB == two128());
    }
    let t0: u128 = xl * (y as u128);
    let t1: u128 = xh * (y as u128);
    proof {
        assert(x * y == t1 * LIMB + t0) by (nonlinear_arith)
            requires
                x == xh * LIMB + xl && t0 == xl * (y as int) && t1 == xh * (y as int),
        ;
        assert(t1 <= (LIMB - 1) * (LIMB - 1)) by (nonlinear_arith)
            requires
                t1 == xh * (y as int) && 0 <= xh <= LIMB - 1 && 0 <= (y as int) <= LIMB - 1,
        ;
    }
    let t1h = t1 / LIMB;
    let t1l = t1 % LIMB;
    proof {
        assert(t1h * LIMB <= t1);
        assert(t1h < LIMB - 1) by (nonlinear_arith)
            requires
                t1h * LIMB <= t1 && t1 <= (LIMB - 1) * (LIMB - 1),
        ;
    }
    let s_base: u128 = t1l * LIMB;
    let (lo, c): (u128, u64) = if t0 <= u128::MAX - s_base {
        (s_base + t0, 0)
    } else {
        (s_base - (u128::MAX - t0) - 1, 1)
    };
    proof {
        assert(lo + (c as int) * two128() == s_base + t0);
        assert(t1 * LIMB == t1h * (LIMB * LIMB) + t1l * LIMB) by (nonlinear_arith)
            requires
                t1 == t1h * LIMB + t1l,
        ;
    }
    let hi64: u64 = (t1h as u64) + c;
    proof {
        assert(lo + ((t1h + c) as int) * two128() == x * y);
    }
    (lo, hi64)
}

/// The product of a 256-bit value and a 64-bit value, where it fits.
pub(crate) fn w256_mul_u64(w: W256, y: u64) -> (r: W256)
    requires
        w.val() * y < two256(),
    ensures
        r.val() == w.val() * y,
{
    let ghost two128: int = two128();
    let ghost two256: int = two256();
    let (lo0, hi0) = mul_u128_u64(w.lo, y);
    proof {
        assert(w.hi * (y as int) * two128 <= w.val() * y) by (nonlinear_arith)
            requires
                w.val() == w.hi * two128 + w.lo && w.lo >= 0 && (y as int) >= 0 && two128 > 0,
        ;
        assert(w.hi * (y as int) < two128) by (nonlinear_arith)
            requires
                w.hi * (y as int) * two128 < two256 && two256 == two128 * two128 && two128 > 0
                    && w.hi * (y as int) >= 0,
        ;
    }
    let h: u128 = w.hi * (y as u128);
    proof {
        assert(w.val() * y == h * two128 + (lo0 + (hi0 as int) * two128)) by (nonlinear_arith)
            requires
                w.val() == w.hi * two128 + w.lo && h == w.hi * (y as int) && lo0 + (hi0 as int)
                    * two128 == w.lo * (y as int),
        ;
        assert((h + hi0) * two128 + lo0 == w.val() * y) by (nonlinear_arith)
            requires
                w.val() * y == h * two128 + lo0 + (hi0 as int) * two128,
        ;
        assert(h + hi0 < two128) by (nonlinear_arith)
            requires
                (h + hi0) * two128 + lo0 == w.val() * y && w.val() * y < two256 && two256 == two128
                    * two128 && lo0 >= 0 && h + hi0 >= 0 && two128 > 0,
        ;
    }
    let hi: u128 = h + (hi0 as u128);
    W256 { hi, lo: lo0 }
}

/// The fifth power of a value below 2^35, exactly.
pub(crate) fn pow5_w256(m: u64) -> (r: W256)
    requires
        m < 0x8_0000_0000,
    ensures
        r.val() == crate::score::pow5(m as int),
{
    let ghost two128: int = two128();
    let m128 = m as u128;
    proof {
        assert(m128 * m128 < 0x40_0000_0000_0000_0000int) by (nonlinear_arith)
            requires
                0 <= m128 < 0x8_0000_0000,
        ;
    }
    let m2: u128 = m128 * m128;
    let (m3, m3hi) = mul_u128_u64(m2, m);
    proof {
        assert(m2 * m < two128) by (nonlinear_arith)
            requires
                m2 < 0x40_0000_0000_0000_0000int && 0 <= (m as int) < 0x8_0000_0000 && m2 >= 0
                    && two128 == 0x1_0000_0000_0000_0000int * 0x1_0000_0000_0000_0000,
        ;
        assert(m3hi == 0);
    }
    let (m4, m4hi) = mul_u128_u64(m3, m);
    let (m5lo, m5hi0) = mul_u128_u64(m4, m);
    proof {
        assert((m4hi as int) * (m as int) + m5hi0 < two128) by (nonlinear_arith)
            requires
                (m4hi as int) < 0x1_0000_0000_0000_0000int && (m as int) < 0x8_0000_0000 && m5hi0
                    < 0x1_0000_0000_0000_0000int && m4hi >= 0 && m5hi0 >= 0 && (m as int) >= 0
                    && two128 == 0x1_0000_0000_0000_0000int * 0x1_0000_0000_0000_0000,
        ;
    }
    let hi: u128 = (m4hi as u128) * m128 + (m5hi0 as u128);
    let r = W256 { hi, lo: m5lo };
    proof {
        assert(r.val() == m2 * m * m * m) by (nonlinear_arith)
            requires
                r.val() == ((m4hi as int) * (m as int) + m5hi0) * two128 + m5lo && m4 + (
                m4hi as int) * two128 == m3 * m && m5lo + (m5hi0 as int) * two128 == m4 * (m as int)
                    && m3 == m2 * m,
        ;
        assert(m2 * m * m * m == crate::score::pow5(m as int)) by (nonlinear_arith)
            requires
                m2 == (m as int) * (m as int),
        ;
    }
    r
}

/// Whether `a` denotes at most what `b` denotes.
pub(crate) fn w256_le(a: W256, b: W256) -> (r: bool)
    ensures
        r == (a.val() <= b.val()),
{
    let ghost two128: int = two128();
    proof {
        if a.hi < b.hi {
            assert(a.val() < b.val()) by (nonlinear_arith)
                requires
                    a.val() == a.hi * two128 + a.lo && b.val() == b.hi * two128 + b.lo && a.hi
                        < b.hi && a.lo < two128 && b.lo >= 0,
            ;
        }
        if a.hi > b.hi {
            assert(a.val() > b.val()) by (nonlinear_arith)
                requires
                    a.val() == a.hi * two128 + a.lo && b.val() == b.hi * two128 + b.lo && a.hi
                        > b.hi && b.lo < two128 && a.lo >= 0,
            ;
        }
    }
    if a.hi < b.hi {
        true
    } else if a.hi > b.hi {
        false
    } else {
        a.lo <= b.lo
    }
}

} // verus!

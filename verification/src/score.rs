//! The frecency scoring function.
//!
//! An entry's score is the integer part of `mult * length^(3/5) * frequency`,
//! computed exactly: `r = floor(x)` precisely when `r^5 <= x^5 < (r+1)^5`,
//! so the score is the integer fifth root of `(mult*frequency)^5 * length^3`,
//! with the 1/2 and 1/4 multipliers carried as the divisors 32 and 1024
//! under the root.  The multiplier is 4 within an hour of the last access,
//! 2 within a day, 1/2 within a week, and 1/4 beyond; the result saturates
//! at `i32::MAX`.  All arithmetic is exact — this is the true real-valued
//! floor.  A binary floating-point evaluation of the same formula rounds
//! `length^0.6` and each product to the nearest representable value, and on
//! borderline inputs can land one off the true floor; nothing of that
//! rounding enters here.

use vstd::prelude::*;
use crate::wide::{pow5_w256, w256_le, w256_mul_u64};

verus! {

/// Fifth power, the inverse lens through which the 3/5 exponent is defined.
pub open spec fn pow5(r: int) -> int {
    r * r * r * r * r
}

/// The integer fifth root of `c`, defined by stepping up from zero.
pub open spec fn iroot5(c: nat) -> nat
    decreases c,
{
    if c == 0 {
        0
    } else {
        let p = iroot5((c - 1) as nat);
        if pow5(p as int + 1) <= c {
            p + 1
        } else {
            p
        }
    }
}

proof fn lemma_pow5_strict(a: int, b: int)
    requires
        0 <= a < b,
    ensures
        pow5(a) < pow5(b),
{
    assert(a * a * a * a * a < b * b * b * b * b) by (nonlinear_arith)
        requires
            0 <= a < b,
    ;
}

proof fn lemma_pow5_le(a: int, b: int)
    requires
        0 <= a <= b,
    ensures
        pow5(a) <= pow5(b),
{
    if a < b {
        lemma_pow5_strict(a, b);
    }
}

/// `iroot5` is exactly the integer fifth root.
pub proof fn lemma_iroot5(c: nat)
    ensures
        pow5(iroot5(c) as int) <= c < pow5(iroot5(c) as int + 1),
    decreases c,
{
    if c == 0 {
        assert(iroot5(0nat) == 0);
        assert(pow5(1) == 1) by (nonlinear_arith);
    } else {
        lemma_iroot5((c - 1) as nat);
        let p = iroot5((c - 1) as nat);
        assert(pow5(p as int) <= c - 1);
        assert(c - 1 < pow5(p as int + 1));
        if pow5(p as int + 1) <= c {
            assert(iroot5(c) == p + 1);
            assert(c == pow5(p as int + 1));
            lemma_pow5_strict(p as int + 1, p as int + 2);
            assert((p + 1) as nat as int == p as int + 1);
            assert(pow5(iroot5(c) as int) <= c);
            assert(c < pow5(iroot5(c) as int + 1));
        } else {
            assert(iroot5(c) == p);
            assert(pow5(iroot5(c) as int) <= c);
            assert(c < pow5(iroot5(c) as int + 1));
        }
    }
}

/// The characterization pins the root down.
pub proof fn lemma_iroot5_unique(c: nat, r: int)
    requires
        0 <= r,
        pow5(r) <= c,
        c < pow5(r + 1),
    ensures
        r == iroot5(c),
{
    lemma_iroot5(c);
    let q = iroot5(c) as int;
    if r < q {
        lemma_pow5_le(r + 1, q);
        assert(pow5(q) <= c);
    } else if q < r {
        lemma_pow5_le(q + 1, r);
        assert(pow5(r) <= c);
    }
}

/// The root never falls as the radicand grows.
pub proof fn lemma_iroot5_mono(a: nat, b: nat)
    requires
        a <= b,
    ensures
        iroot5(a) <= iroot5(b),
{
    lemma_iroot5(a);
    lemma_iroot5(b);
    if iroot5(a) > iroot5(b) {
        lemma_pow5_le(iroot5(b) as int + 1, iroot5(a) as int);
        assert(pow5(iroot5(a) as int) <= a);
        assert(b < pow5(iroot5(b) as int + 1));
    }
}

/// The score before saturation: the integer part of
/// `mult * length^(3/5) * frequency`, with `dt` the seconds since last
/// access.  The whole-number multipliers fold into the radicand as
/// `(4*frequency)^5` and `(2*frequency)^5`; the fractional ones divide it
/// by `2^5` and `4^5`, since `floor(x/k) = iroot5(floor(x^5/k^5))`.
pub open spec fn raw_score(length: int, frequency: int, dt: int) -> int {
    let cube = length * length * length;
    if dt <= 3600 {
        iroot5((pow5(4 * frequency) * cube) as nat) as int
    } else if dt <= 86400 {
        iroot5((pow5(2 * frequency) * cube) as nat) as int
    } else if dt <= 604800 {
        iroot5(((pow5(frequency) * cube) / 32) as nat) as int
    } else {
        iroot5(((pow5(frequency) * cube) / 1024) as nat) as int
    }
}

/// The stored score: `raw_score` saturated at `i32::MAX`.
pub open spec fn score_at(length: int, frequency: int, dt: int) -> int {
    if raw_score(length, frequency, dt) > i32::MAX {
        i32::MAX as int
    } else {
        raw_score(length, frequency, dt)
    }
}

/// A score is never negative when length and frequency are not.
pub proof fn lemma_score_nonneg(length: int, frequency: int, dt: int)
    requires
        0 <= length,
        0 <= frequency,
    ensures
        0 <= score_at(length, frequency, dt),
{
}

/// A more recent access never scores lower: the multiplier table is
/// non-increasing in the time since last access.
pub proof fn lemma_score_monotone_in_recency(length: int, frequency: int, dt1: int, dt2: int)
    requires
        0 <= length,
        0 <= frequency,
        dt1 <= dt2,
    ensures
        score_at(length, frequency, dt1) >= score_at(length, frequency, dt2),
{
    let cube = length * length * length;
    let base = pow5(frequency) * cube;
    assert(cube >= 0) by (nonlinear_arith)
        requires
            length >= 0 && cube == length * length * length,
    ;
    assert(base >= 0 && pow5(4 * frequency) == 1024 * pow5(frequency) && pow5(2 * frequency) == 32
        * pow5(frequency)) by (nonlinear_arith)
        requires
            frequency >= 0 && cube >= 0 && base == pow5(frequency) * cube,
    ;
    assert(pow5(4 * frequency) * cube == 1024 * base && pow5(2 * frequency) * cube == 32 * base)
        by (nonlinear_arith)
        requires
            pow5(4 * frequency) == 1024 * pow5(frequency) && pow5(2 * frequency) == 32 * pow5(
                frequency,
            ) && base == pow5(frequency) * cube,
    ;
    assert(base / 32 >= 0 && base / 1024 >= 0 && base / 32 <= 32 * base && base / 1024 <= base
        / 32 && 32 * base <= 1024 * base) by (nonlinear_arith)
        requires
            base >= 0,
    ;
    lemma_iroot5_mono((base / 1024) as nat, (base / 32) as nat);
    lemma_iroot5_mono((base / 32) as nat, (32 * base) as nat);
    lemma_iroot5_mono((32 * base) as nat, (1024 * base) as nat);
}

/// Whether `a * r^5 <= m^5 * cube`, the primitive comparison the root
/// search runs on, carried out in 256-bit arithmetic.
fn le_scaled(a: u64, r: u64, m: u64, cube: u64) -> (b: bool)
    requires
        1 <= a <= 1024,
        r <= 0x8000_0000,
        m < 0x8_0000_0000,
        cube < 0x2000_0000_0000,
    ensures
        b == (a * pow5(r as int) <= pow5(m as int) * cube),
{
    let ghost two256: int = crate::wide::two256();
    let r5 = pow5_w256(r);
    proof {
        lemma_pow5_le(0, r as int);
        lemma_pow5_le(r as int, 0x8000_0000);
        assert(pow5(0x8000_0000) == 0x8000_0000int * 0x8000_0000 * 0x8000_0000 * 0x8000_0000
            * 0x8000_0000);
        assert(0x8000_0000int * 0x8000_0000 * 0x8000_0000 * 0x8000_0000 * 0x8000_0000 * 1024
            < two256) by (nonlinear_arith)
            requires
                two256 == (0x1_0000_0000_0000_0000int * 0x1_0000_0000_0000_0000) * (
                0x1_0000_0000_0000_0000int * 0x1_0000_0000_0000_0000),
        ;
        assert(r5.val() * a < two256) by (nonlinear_arith)
            requires
                0 <= r5.val() <= pow5(0x8000_0000) && 0 <= (a as int) <= 1024 && pow5(0x8000_0000)
                    * 1024 < two256,
        ;
    }
    let lhs = w256_mul_u64(r5, a);
    let m5 = pow5_w256(m);
    proof {
        lemma_pow5_le(0, m as int);
        lemma_pow5_le(m as int, 0x8_0000_0000);
        assert(pow5(0x8_0000_0000) == 0x8_0000_0000int * 0x8_0000_0000 * 0x8_0000_0000
            * 0x8_0000_0000 * 0x8_0000_0000);
        assert(0x8_0000_0000int * 0x8_0000_0000 * 0x8_0000_0000 * 0x8_0000_0000 * 0x8_0000_0000
            * 0x2000_0000_0000 < two256) by (nonlinear_arith)
            requires
                two256 == (0x1_0000_0000_0000_0000int * 0x1_0000_0000_0000_0000) * (
                0x1_0000_0000_0000_0000int * 0x1_0000_0000_0000_0000),
        ;
        assert(m5.val() * cube < two256) by (nonlinear_arith)
            requires
                0 <= m5.val() <= pow5(0x8_0000_0000) && 0 <= (cube as int) < 0x2000_0000_0000 && pow5(
                    0x8_0000_0000,
                ) * 0x2000_0000_0000 < two256,
        ;
    }
    let rhs = w256_mul_u64(m5, cube);
    w256_le(lhs, rhs)
}

/// The largest `r <= 2^31` with `a * r^5 <= m^5 * cube`: the saturated,
/// scaled fifth root, found by binary search.
fn scaled_root(a: u64, m: u64, cube: u64) -> (r: u64)
    requires
        1 <= a <= 1024,
        m < 0x8_0000_0000,
        cube < 0x2000_0000_0000,
    ensures
        r <= 0x8000_0000,
        a * pow5(r as int) <= pow5(m as int) * cube,
        r < 0x8000_0000 ==> pow5(m as int) * cube < a * pow5(r as int + 1),
{
    let ghost target: int = pow5(m as int) * cube;
    if le_scaled(a, 0x8000_0000, m, cube) {
        return 0x8000_0000;
    }
    let mut lo: u64 = 0;
    let mut hi: u64 = 0x8000_0000;
    proof {
        assert(pow5(0) == 0) by (nonlinear_arith);
        assert(a * pow5(0) == 0);
        assert(target >= 0) by (nonlinear_arith)
            requires
                target == pow5(m as int) * cube && m >= 0 && cube >= 0,
        ;
    }
    while hi - lo > 1
        invariant
            lo < hi <= 0x8000_0000,
            1 <= a <= 1024,
            m < 0x8_0000_0000,
            cube < 0x2000_0000_0000,
            target == pow5(m as int) * cube,
            a * pow5(lo as int) <= target,
            target < a * pow5(hi as int),
        decreases hi - lo,
    {
        let mid = lo + (hi - lo) / 2;
        if le_scaled(a, mid, m, cube) {
            lo = mid;
        } else {
            hi = mid;
        }
    }
    lo
}

/// Computes the saturated frecency score of an entry observed at `now`.
pub fn compute_score(length: i16, frequency: i32, last_access_time: i64, now: i64) -> (s: i32)
    requires
        0 <= length,
        0 <= frequency,
        0 <= last_access_time,
        0 <= now,
    ensures
        s == score_at(length as int, frequency as int, now - last_access_time),
{
    let dt: i64 = now - last_access_time;
    let l: u64 = length as u64;
    proof {
        assert(l * l < 0x4000_0000 && l * l * l < 0x2000_0000_0000) by (nonlinear_arith)
            requires
                0 <= l < 0x8000,
        ;
    }
    let cube: u64 = l * l * l;
    let f: u64 = frequency as u64;
    let (a, m): (u64, u64) = if dt <= 3600 {
        (1, 4 * f)
    } else if dt <= 86400 {
        (1, 2 * f)
    } else if dt <= 604800 {
        (32, f)
    } else {
        (1024, f)
    };
    let r = scaled_root(a, m, cube);
    proof {
        let target = pow5(m as int) * (cube as int);
        lemma_scaled_iroot_bounds(target, a as int, r as int);
        let ci = (length as int) * (length as int) * (length as int);
        assert(cube == ci);
        let raw = raw_score(length as int, frequency as int, now - last_access_time);
        if dt <= 3600 {
            assert(m == 4 * frequency && a == 1);
            assert(target / 1int == target);
            assert(raw == iroot5(target as nat) as int);
        } else if dt <= 86400 {
            assert(m == 2 * frequency && a == 1);
            assert(target / 1int == target);
            assert(raw == iroot5(target as nat) as int);
        } else if dt <= 604800 {
            assert(m == frequency && a == 32);
            assert(raw == iroot5((target / 32) as nat) as int);
        } else {
            assert(m == frequency && a == 1024);
            assert(raw == iroot5((target / 1024) as nat) as int);
        }
        assert(raw == iroot5((target / (a as int)) as nat) as int);
        if r < 0x8000_0000 {
            assert(raw == r);
        } else {
            assert(raw > i32::MAX);
        }
    }
    if r > 0x7fff_ffff {
        i32::MAX
    } else {
        r as i32
    }
}

/// Links the scaled search to the divided radicand: the search's bracket
/// pins the root of `target / a` down, or shows it saturates.
proof fn lemma_scaled_iroot_bounds(target: int, a: int, r: int)
    requires
        target >= 0,
        1 <= a,
        0 <= r <= 0x8000_0000,
        a * pow5(r) <= target,
        r < 0x8000_0000 ==> target < a * pow5(r + 1),
    ensures
        r < 0x8000_0000 ==> r == iroot5((target / a) as nat) as int,
        r == 0x8000_0000 ==> iroot5((target / a) as nat) > i32::MAX,
{
    assert(pow5(r) >= 0) by (nonlinear_arith)
        requires
            r >= 0,
    ;
    assert(pow5(r) <= target / a) by (nonlinear_arith)
        requires
            a >= 1 && a * pow5(r) <= target && pow5(r) >= 0 && target >= 0,
    ;
    if r < 0x8000_0000 {
        assert(target / a < pow5(r + 1)) by (nonlinear_arith)
            requires
                a >= 1 && target < a * pow5(r + 1) && target >= 0,
        ;
        lemma_iroot5_unique((target / a) as nat, r);
    } else {
        lemma_iroot5((target / a) as nat);
        let q = iroot5((target / a) as nat) as int;
        if q <= i32::MAX {
            lemma_pow5_le(q + 1, r);
            assert(target / a < pow5(q + 1));
        }
    }
}

} // verus!

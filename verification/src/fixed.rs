//! Fixed-point numbers: integers that count millionths.

use vstd::math::abs;
use vstd::prelude::*;

verus! {

/// The fixed-point number one: the side of a grid cell, and one unit of time.
pub const UNIT: i64 = 1_000_000;

/// The fixed-point number one half: from the edge of a cell to its center.
pub const HALF_UNIT: i64 = 500_000;

/// The largest magnitude a coordinate of a waypoint may have (2^60).
pub const LIMIT: i64 = 0x1000_0000_0000_0000;

/// `a / b` rounded toward zero, for a positive `b`.
pub open spec fn quotient_toward_zero(a: int, b: int) -> int
    recommends
        b > 0,
{
    if a >= 0 {
        a / b
    } else {
        -((-a) / b)
    }
}

/// The product of two fixed-point numbers, rounded toward zero.
pub open spec fn scaled(a: int, factor: int) -> int {
    quotient_toward_zero(a * factor, UNIT as int)
}

/// 1, 0 or -1, as `v` is above, at or below zero.
pub open spec fn signum(v: int) -> int {
    if v > 0 {
        1
    } else if v < 0 {
        -1
    } else {
        0
    }
}

/// `r` is the square root of `n`, rounded down.
pub open spec fn is_floor_sqrt(n: int, r: int) -> bool {
    0 <= r && r * r <= n < (r + 1) * (r + 1)
}

/// The square root of `n`, rounded down.
pub open spec fn floor_sqrt(n: int) -> int {
    choose|r: int| is_floor_sqrt(n, r)
}

/// The index of the grid line nearest to `v`; halfway between two lines, the
/// one farther from zero.
pub open spec fn nearest_cell(v: int) -> int {
    if v >= 0 {
        (v + HALF_UNIT) / (UNIT as int)
    } else {
        -((HALF_UNIT - v) / (UNIT as int))
    }
}

/// The index of the grid line nearest to a point that moves through `v`,
/// `rising` or falling; halfway between two lines, the one that the point
/// has behind it. A point that stands halfway and moves on is thus taken to
/// leave the line behind it for the line ahead, whichever way it moves.
pub open spec fn trailing_cell(v: int, rising: bool) -> int {
    if rising {
        (v + HALF_UNIT - 1) / (UNIT as int)
    } else {
        (v + HALF_UNIT) / (UNIT as int)
    }
}

/// The distance covered in `timespan` at `speed`, rounded down.
pub open spec fn travelled(speed: int, timespan: int) -> int {
    (speed * timespan) / (UNIT as int)
}

/// Of two numbers that are not negative, the larger has the larger square.
pub proof fn lemma_square_monotone(a: int, b: int)
    by (nonlinear_arith)
    requires
        0 <= a <= b,
    ensures
        a * a <= b * b,
{
}

proof fn lemma_floor_sqrt_witness(n: int) -> (r: int)
    requires
        n >= 0,
    ensures
        is_floor_sqrt(n, r),
    decreases n,
{
    if n == 0 {
        assert(is_floor_sqrt(0, 0)) by (nonlinear_arith);
        0
    } else {
        let p = lemma_floor_sqrt_witness(n - 1);
        let q = p + 1;
        if q * q <= n {
            assert((q + 1) * (q + 1) > q * q) by (nonlinear_arith)
                requires
                    q >= 0,
            ;
            q
        } else {
            p
        }
    }
}

/// Every natural number has a rounded-down square root, and `floor_sqrt` is it.
pub proof fn lemma_floor_sqrt(n: int)
    requires
        n >= 0,
    ensures
        is_floor_sqrt(n, floor_sqrt(n)),
{
    let r = lemma_floor_sqrt_witness(n);
    assert(is_floor_sqrt(n, r));
}

/// The rounded-down square root is unique.
pub proof fn lemma_floor_sqrt_unique(n: int, r: int)
    requires
        is_floor_sqrt(n, r),
    ensures
        floor_sqrt(n) == r,
{
    let s = floor_sqrt(n);
    assert(is_floor_sqrt(n, s));
    if s < r {
        lemma_square_monotone(s + 1, r);
    } else if r < s {
        lemma_square_monotone(r + 1, s);
    }
}

/// Scaling by one changes nothing, and scaling one gives the factor.
pub proof fn lemma_scaled_by_unit(d: int)
    ensures
        scaled(d, UNIT as int) == d,
        scaled(UNIT as int, d) == d,
        scaled(-UNIT, d) == -d,
        scaled(0, d) == 0,
{
    assert(d * UNIT == UNIT * d) by (nonlinear_arith);
    assert((-UNIT) * d == -(UNIT * d)) by (nonlinear_arith);
    assert(0 * d == 0) by (nonlinear_arith);
}

/// The nearest grid line is no farther than half a cell.
pub proof fn lemma_nearest_cell_close(v: int)
    ensures
        -HALF_UNIT <= v - nearest_cell(v) * UNIT <= HALF_UNIT,
{
}

/// The grid line that a moving point is taken to be nearest to is no farther
/// from it than half a cell, and nearer than that on the side ahead.
pub proof fn lemma_trailing_cell_close(v: int, rising: bool)
    ensures
        rising ==> -HALF_UNIT < v - trailing_cell(v, rising) * UNIT <= HALF_UNIT,
        !rising ==> -HALF_UNIT <= v - trailing_cell(v, rising) * UNIT < HALF_UNIT,
{
}

/// A coordinate that is not smaller has a grid line that is not smaller.
pub proof fn lemma_trailing_cell_monotone(v: int, w: int, rising: bool)
    requires
        v <= w,
    ensures
        trailing_cell(v, rising) <= trailing_cell(w, rising),
{
}

/// A multiple of a positive number, divided by it.
pub proof fn lemma_quotient_of_multiple(k: int, b: int)
    requires
        b > 0,
    ensures
        quotient_toward_zero(k * b, b) == k,
{
    if k >= 0 {
        assert(k * b >= 0) by (nonlinear_arith)
            requires
                k >= 0,
                b > 0,
        ;
        assert((k * b) / b == k) by (nonlinear_arith)
            requires
                b > 0,
        ;
    } else {
        assert(k * b < 0) by (nonlinear_arith)
            requires
                k < 0,
                b > 0,
        ;
        assert(-(k * b) == (-k) * b) by (nonlinear_arith);
        assert(((-k) * b) / b == -k) by (nonlinear_arith)
            requires
                b > 0,
        ;
    }
}

/// The square root of `n`, rounded down.
pub fn integer_sqrt(n: u128) -> (r: u64)
    ensures
        r == floor_sqrt(n as int),
        is_floor_sqrt(n as int, r as int),
{
    let mut lo: u128 = 0;
    let mut hi: u128 = 0x1_0000_0000_0000_0000;
    assert(0x1_0000_0000_0000_0000int * 0x1_0000_0000_0000_0000int
        == 0x1_0000_0000_0000_0000_0000_0000_0000_0000int) by (nonlinear_arith);
    while hi - lo > 1
        invariant
            lo < hi <= 0x1_0000_0000_0000_0000,
            lo * lo <= n,
            n < hi * hi,
        decreases hi - lo,
    {
        let mid: u128 = lo + (hi - lo) / 2;
        proof {
            lemma_square_monotone(mid as int, 0xffff_ffff_ffff_ffff);
        }
        if mid * mid <= n {
            lo = mid;
        } else {
            hi = mid;
        }
    }
    proof {
        lemma_floor_sqrt_unique(n as int, lo as int);
    }
    lo as u64
}

/// The distance of `v` from zero.
pub fn magnitude(v: i64) -> (r: u64)
    ensures
        r == abs(v as int),
{
    if v >= 0 {
        v as u64
    } else {
        (-(v as i128)) as u64
    }
}

/// The index of the grid line nearest to `v`: `v` counted in cells and
/// rounded to the nearest whole number, halves away from zero.
pub fn round_to_cell(v: i64) -> (r: i64)
    ensures
        r == nearest_cell(v as int),
{
    if v >= 0 {
        ((v as i128 + HALF_UNIT as i128) / (UNIT as i128)) as i64
    } else {
        (-((HALF_UNIT as i128 - v as i128) / (UNIT as i128))) as i64
    }
}

/// The index of the grid line nearest to a point that moves through `v`,
/// `rising` or falling: `v` counted in cells and rounded to the nearest whole
/// number, halves toward where the point comes from.
pub fn round_behind(v: i64, rising: bool) -> (r: i64)
    ensures
        r == trailing_cell(v as int, rising),
{
    let shifted: i128 = if rising {
        v as i128 + HALF_UNIT as i128 - 1
    } else {
        v as i128 + HALF_UNIT as i128
    };
    let unit: i128 = UNIT as i128;
    if shifted >= 0 {
        (shifted / unit) as i64
    } else {
        (-((unit - 1 - shifted) / unit)) as i64
    }
}

/// The distance covered in `timespan` at `speed`, rounded down.
pub fn distance_travelled(speed: u64, timespan: u64) -> (d: u128)
    ensures
        d == travelled(speed as int, timespan as int),
{
    proof {
        assert(speed * timespan <= 0xffff_ffff_ffff_ffff * 0xffff_ffff_ffff_ffff)
            by (nonlinear_arith)
            requires
                speed <= 0xffff_ffff_ffff_ffff,
                timespan <= 0xffff_ffff_ffff_ffff,
        ;
        assert(0 <= speed * timespan) by (nonlinear_arith);
    }
    (speed as u128) * (timespan as u128) / (UNIT as u128)
}

} // verus!

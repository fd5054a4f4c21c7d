//! Straight pieces between two points, and the test for a point on one.

use crate::vector::Vector;
use std::ops::Sub;
use vstd::math::abs;
use vstd::prelude::*;
use vstd::std_specs::ops::SubSpec;

verus! {

/// `p` lies on the straight piece from `a` to `b`, ends included: the step
/// from `a` to `p` and the step from `p` to `b` are parallel and not opposed.
/// This is when the way from `a` to `b` through `p` is no longer than the
/// straight way.
pub open spec fn between(a: Vector, b: Vector, p: Vector) -> bool {
    let ux = p.x - a.x;
    let uy = p.y - a.y;
    let vx = b.x - p.x;
    let vy = b.y - p.y;
    &&& ux * vy == uy * vx
    &&& ux * vx + uy * vy >= 0
}

/// The straight piece from `start` to `end`.
#[derive(Clone, Copy, Debug, PartialEq, Eq, Structural)]
pub struct Segment {
    pub start: Vector,
    pub end: Vector,
}

impl Segment {
    /// The step from `start` to `end`.
    pub open spec fn spec_vector(self) -> Vector {
        self.end.sub_spec(self.start)
    }

    /// The Euclidean length, rounded down.
    pub open spec fn spec_length(self) -> int {
        self.spec_vector().spec_length()
    }

    /// `point` lies on the segment, ends included.
    pub open spec fn contains(self, point: Vector) -> bool {
        between(self.start, self.end, point)
    }

    /// The segment from `start` to `end`.
    pub fn new(start: Vector, end: Vector) -> (s: Segment)
        ensures
            s.start == start,
            s.end == end,
    {
        Segment { start, end }
    }

    /// Whether `point` lies on the segment, ends included. On a segment
    /// without length that is the one point where it starts and ends.
    pub fn is_point_inside(&self, point: Vector) -> (r: bool)
        ensures
            r == self.contains(point),
            self.start == self.end ==> r == (point == self.start),
    {
        proof {
            lemma_between_point(self.start, point);
        }
        let ux: i128 = point.x as i128 - self.start.x as i128;
        let uy: i128 = point.y as i128 - self.start.y as i128;
        let vx: i128 = self.end.x as i128 - point.x as i128;
        let vy: i128 = self.end.y as i128 - point.y as i128;
        let (across_below, across) = product(ux, vy);
        let (back_below, back) = product(uy, vx);
        let parallel = across == back && (across == 0 || across_below == back_below);
        let (along_below, along) = product(ux, vx);
        let (up_below, up) = product(uy, vy);
        let not_opposed = if along_below {
            !up_below && up >= along
        } else if up_below {
            along >= up
        } else {
            true
        };
        parallel && not_opposed
    }

    /// The step from `start` to `end`.
    pub fn vector(&self) -> (v: Vector)
        requires
            self.end.sub_req(self.start),
        ensures
            v == self.spec_vector(),
            v.x == self.end.x - self.start.x,
            v.y == self.end.y - self.start.y,
    {
        self.end.sub(self.start)
    }

    /// The Euclidean length, rounded down.
    pub fn length(&self) -> (r: u64)
        requires
            self.end.sub_req(self.start),
        ensures
            r == self.spec_length(),
    {
        self.vector().length()
    }
}

/// The product of two differences of coordinates, which may be too large for
/// any integer type with a sign: whether it is below zero, and its magnitude.
fn product(a: i128, b: i128) -> (r: (bool, u128))
    requires
        -0x1_0000_0000_0000_0000 < a < 0x1_0000_0000_0000_0000,
        -0x1_0000_0000_0000_0000 < b < 0x1_0000_0000_0000_0000,
    ensures
        r.0 == (a * b < 0),
        r.1 == abs(a * b),
{
    let size_a: u128 = if a < 0 {
        (-a) as u128
    } else {
        a as u128
    };
    let size_b: u128 = if b < 0 {
        (-b) as u128
    } else {
        b as u128
    };
    proof {
        lemma_product_sign(a as int, b as int, size_a as int, size_b as int);
    }
    ((a < 0) != (b < 0) && a != 0 && b != 0, size_a * size_b)
}

proof fn lemma_product_sign(a: int, b: int, size_a: int, size_b: int)
    by (nonlinear_arith)
    requires
        0 <= size_a <= 0xffff_ffff_ffff_ffff,
        0 <= size_b <= 0xffff_ffff_ffff_ffff,
        size_a == if a < 0 {
            -a
        } else {
            a
        },
        size_b == if b < 0 {
            -b
        } else {
            b
        },
    ensures
        0 <= size_a * size_b <= 0xffff_ffff_ffff_ffff * 0xffff_ffff_ffff_ffff,
        a * b < 0 <==> ((a < 0) != (b < 0) && a != 0 && b != 0),
        a * b < 0 ==> size_a * size_b == -(a * b),
        a * b >= 0 ==> size_a * size_b == a * b,
{
}

/// `between` is the triangle equality. With `u` the step from `a` to `p`
/// and `v` the step from `p` to `b`, the lengths of `u` and `v` add up to the
/// length of `u + v` exactly when the inner product of `u` and `v` is the
/// product of their lengths: when it is not negative and its square is the
/// product of their squared lengths.
pub proof fn lemma_between_is_triangle_equality(a: Vector, b: Vector, p: Vector)
    ensures
        between(a, b, p) <==> ({
            let ux = p.x - a.x;
            let uy = p.y - a.y;
            let vx = b.x - p.x;
            let vy = b.y - p.y;
            let inner = ux * vx + uy * vy;
            inner >= 0 && inner * inner == (ux * ux + uy * uy) * (vx * vx + vy * vy)
        }),
{
    let ux = p.x - a.x;
    let uy = p.y - a.y;
    let vx = b.x - p.x;
    let vy = b.y - p.y;
    let inner = ux * vx + uy * vy;
    let outer = ux * vy - uy * vx;
    lemma_lagrange(ux, uy, vx, vy);
    assert(outer * outer == 0 <==> outer == 0) by (nonlinear_arith);
}

proof fn lemma_product_swap(a: int, b: int, c: int, d: int)
    by (nonlinear_arith)
    ensures
        (a * b) * (c * d) == (a * c) * (b * d),
{
}

/// The square of the inner product and the square of the outer product of
/// two vectors add up to the product of their squared lengths.
proof fn lemma_lagrange(ux: int, uy: int, vx: int, vy: int)
    ensures
        (ux * vx + uy * vy) * (ux * vx + uy * vy) + (ux * vy - uy * vx) * (ux * vy - uy * vx) == (
        ux * ux + uy * uy) * (vx * vx + vy * vy),
{
    let a = ux * vx;
    let b = uy * vy;
    let c = ux * vy;
    let d = uy * vx;
    assert((a + b) * (a + b) == a * a + 2 * (a * b) + b * b) by (nonlinear_arith);
    assert((c - d) * (c - d) == c * c - 2 * (c * d) + d * d) by (nonlinear_arith);
    lemma_product_swap(ux, vx, uy, vy);
    lemma_product_swap(ux, vy, uy, vx);
    assert(vy * vx == vx * vy) by (nonlinear_arith);
    assert(a * b == c * d);
    lemma_product_swap(ux, vx, ux, vx);
    lemma_product_swap(uy, vy, uy, vy);
    lemma_product_swap(ux, vy, ux, vy);
    lemma_product_swap(uy, vx, uy, vx);
    let p = ux * ux;
    let q = uy * uy;
    let r = vx * vx;
    let t = vy * vy;
    assert((p + q) * (r + t) == p * r + p * t + q * r + q * t) by (nonlinear_arith);
}

/// On a segment without length lies the one point where it starts and ends.
pub proof fn lemma_between_point(a: Vector, p: Vector)
    ensures
        between(a, a, p) <==> p == a,
{
    let ux = p.x - a.x;
    let uy = p.y - a.y;
    assert(ux * (-uy) == uy * (-ux)) by (nonlinear_arith);
    assert(ux * (-ux) + uy * (-uy) >= 0 <==> ux == 0 && uy == 0) by (nonlinear_arith);
}

/// On a segment along an axis lie the points of the rectangle that its ends
/// span, which has no width.
pub proof fn lemma_between_aligned(a: Vector, b: Vector, p: Vector)
    requires
        a.x == b.x || a.y == b.y,
    ensures
        between(a, b, p) <==> ({
            &&& a.x <= p.x <= b.x || b.x <= p.x <= a.x
            &&& a.y <= p.y <= b.y || b.y <= p.y <= a.y
        }),
{
    let ux = p.x - a.x;
    let uy = p.y - a.y;
    let vx = b.x - p.x;
    let vy = b.y - p.y;
    if a.y == b.y {
        lemma_between_flat(ux, vx, uy);
    } else {
        lemma_between_flat(uy, vy, ux);
        assert(ux * vy == uy * (-ux) <==> uy * (-ux) == ux * vy);
        assert(ux * (-ux) + uy * vy == uy * vy + ux * (-ux));
    }
}

/// `lemma_between_aligned` for a segment along the first axis: `s` and `t`
/// are the steps to and from the point along the segment, `h` its step off
/// the segment.
proof fn lemma_between_flat(s: int, t: int, h: int)
    by (nonlinear_arith)
    ensures
        (s * (-h) == h * t && s * t + h * (-h) >= 0) <==> (h == 0 && ((0 <= s && 0 <= t) || (s
            <= 0 && t <= 0))),
{
    if h != 0 {
        if s * (-h) == h * t {
            assert(h * (s + t) == 0);
            assert(s + t == 0);
            assert(s * t == -(s * s));
            assert(h * (-h) < 0);
        }
    } else {
        assert(h * (-h) == 0);
        assert(s * (-h) == 0 && h * t == 0);
        assert(s * t >= 0 <==> ((0 <= s && 0 <= t) || (s <= 0 && t <= 0)));
    }
}

} // verus!

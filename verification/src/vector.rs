//! Two-dimensional vectors with fixed-point coordinates.

use crate::fixed::floor_sqrt;
use crate::fixed::integer_sqrt;
use crate::fixed::is_floor_sqrt;
use crate::fixed::lemma_floor_sqrt;
use crate::fixed::lemma_floor_sqrt_unique;
use crate::fixed::lemma_quotient_of_multiple;
use crate::fixed::lemma_scaled_by_unit;
use crate::fixed::lemma_square_monotone;
use crate::fixed::magnitude;
use crate::fixed::quotient_toward_zero;
use crate::fixed::scaled;
use crate::fixed::signum;
use crate::fixed::LIMIT;
use crate::fixed::UNIT;
use std::ops::Add;
use std::ops::Mul;
use std::ops::Neg;
use std::ops::Sub;
use vstd::math::abs;
use vstd::prelude::*;
use vstd::std_specs::ops::AddSpec;
use vstd::std_specs::ops::MulSpec;
use vstd::std_specs::ops::NegSpec;
use vstd::std_specs::ops::SubSpec;

verus! {

/// A vector with both coordinates below this in magnitude is made this many
/// times longer before it is normalized (2^31).
pub const STRETCH: i64 = 0x8000_0000;

/// A point of the plane, or the step from one point to another. Both
/// coordinates are fixed-point numbers; two vectors are equal when their
/// coordinates are.
#[derive(Clone, Copy, Debug, PartialEq, Eq, Structural)]
pub struct Vector {
    pub x: i64,
    pub y: i64,
}

impl Vector {
    /// Neither coordinate is farther from zero than `LIMIT`.
    pub open spec fn in_range(self) -> bool {
        &&& -LIMIT <= self.x <= LIMIT
        &&& -LIMIT <= self.y <= LIMIT
    }

    /// Both coordinates are zero.
    pub open spec fn is_zero(self) -> bool {
        self.x == 0 && self.y == 0
    }

    /// The square of the Euclidean length.
    pub open spec fn norm_squared(self) -> int {
        self.x * self.x + self.y * self.y
    }

    /// The Euclidean length, rounded down.
    pub open spec fn spec_length(self) -> int {
        floor_sqrt(self.norm_squared())
    }

    /// The vector made longer without turning it, where it is short: a vector
    /// with both coordinates below `STRETCH` in magnitude has both multiplied
    /// by `STRETCH`. What comes out is at least `STRETCH` long, unless it is
    /// zero.
    pub open spec fn stretched(self) -> Vector {
        if -STRETCH < self.x < STRETCH && -STRETCH < self.y < STRETCH {
            Vector { x: (self.x * STRETCH) as i64, y: (self.y * STRETCH) as i64 }
        } else {
            self
        }
    }

    /// The vector of length one that points the way `self` does: `self` is
    /// stretched, so that rounding its length down loses nothing that counts,
    /// and then divided by its length.
    pub open spec fn spec_normalize(self) -> Vector
        recommends
            !self.is_zero(),
    {
        self.stretched().divided_by_length()
    }

    /// Each coordinate divided by the rounded-down length, rounded toward
    /// zero. The longer the vector, the nearer to one is the length of the
    /// result: see `lemma_divided_length`.
    pub open spec fn divided_by_length(self) -> Vector
        recommends
            !self.is_zero(),
    {
        Vector {
            x: quotient_toward_zero(self.x * UNIT, self.spec_length()) as i64,
            y: quotient_toward_zero(self.y * UNIT, self.spec_length()) as i64,
        }
    }

    /// The vector with the coordinates `x` and `y`.
    pub fn new(x: i64, y: i64) -> (v: Vector)
        ensures
            v.x == x,
            v.y == y,
    {
        Vector { x, y }
    }

    /// Whether the vector is `in_range`.
    pub fn within_limit(&self) -> (r: bool)
        ensures
            r == self.in_range(),
    {
        -LIMIT <= self.x && self.x <= LIMIT && -LIMIT <= self.y && self.y <= LIMIT
    }

    /// The vector stretched by the fixed-point factor `value`: each
    /// coordinate times `value`, less what rounding toward zero takes off,
    /// which is under one millionth.
    pub fn scale(self, value: i64) -> (r: Vector)
        requires
            self.mul_req(value),
        ensures
            r == self.mul_spec(value),
            r.x == scaled(self.x as int, value as int),
            r.y == scaled(self.y as int, value as int),
            -UNIT < self.x * value - r.x * UNIT < UNIT,
            -UNIT < self.y * value - r.y * UNIT < UNIT,
            value == UNIT ==> r == self,
    {
        proof {
            lemma_scaled_close(self.x as int, value as int);
            lemma_scaled_close(self.y as int, value as int);
            lemma_scaled_by_unit(self.x as int);
            lemma_scaled_by_unit(self.y as int);
        }
        self.mul(value)
    }

    /// As `scale`, for any factor: `None` when a coordinate of the stretched
    /// vector is too large for `i64`.
    pub fn try_scale(self, value: i64) -> (r: Option<Vector>)
        ensures
            r is Some <==> self.mul_req(value),
            r matches Some(v) ==> v == self.mul_spec(value),
    {
        proof {
            lemma_product_bound(self.x as int, value as int);
            lemma_product_bound(self.y as int, value as int);
        }
        let x: i128 = (self.x as i128) * (value as i128) / (UNIT as i128);
        let y: i128 = (self.y as i128) * (value as i128) / (UNIT as i128);
        if x < i64::MIN as i128 || x > i64::MAX as i128 || y < i64::MIN as i128 || y
            > i64::MAX as i128 {
            None
        } else {
            Some(Vector { x: x as i64, y: y as i64 })
        }
    }

    /// The Euclidean length, rounded down.
    pub fn length(&self) -> (r: u64)
        ensures
            r == self.spec_length(),
            is_floor_sqrt(self.norm_squared(), r as int),
    {
        let x: u128 = magnitude(self.x) as u128;
        let y: u128 = magnitude(self.y) as u128;
        proof {
            lemma_square_bound(x as int, self.x as int);
            lemma_square_bound(y as int, self.y as int);
        }
        integer_sqrt(x * x + y * y)
    }

    /// The vector of length one that points the way `self` does, or `None`
    /// for the zero vector, which points nowhere. The length of the result is
    /// one or up to three millionths less, however short or long `self` is;
    /// neither coordinate has changed its sign, and the result is off the
    /// line of `self` by the rounding of its coordinates alone.
    pub fn normalize(self) -> (r: Option<Vector>)
        ensures
            r is None <==> self.is_zero(),
            r matches Some(v) ==> v == self.spec_normalize(),
            r matches Some(v) ==> UNIT - 3 <= v.spec_length() <= UNIT,
            r matches Some(v) ==> signum(v.x as int) == signum(self.x as int) || v.x == 0,
            r matches Some(v) ==> signum(v.y as int) == signum(self.y as int) || v.y == 0,
            r matches Some(v) ==> v.x * self.x + v.y * self.y > 0,
            r matches Some(v) ==> -(abs(self.x as int) + abs(self.y as int)) <= v.x * self.y - v.y
                * self.x <= abs(self.x as int) + abs(self.y as int),
    {
        let long = if -STRETCH < self.x && self.x < STRETCH && -STRETCH < self.y && self.y
            < STRETCH {
            Vector { x: self.x * STRETCH, y: self.y * STRETCH }
        } else {
            self
        };
        let length = long.length();
        proof {
            long.lemma_length_dominates();
            if !self.is_zero() {
                self.lemma_normalize();
                self.lemma_normalize_direction();
            }
        }
        if length == 0 {
            None
        } else {
            let len: i128 = length as i128;
            proof {
                lemma_quotient_bound(long.x * UNIT, len as int, UNIT as int);
                lemma_quotient_bound(long.y * UNIT, len as int, UNIT as int);
            }
            let x: i128 = (long.x as i128) * (UNIT as i128) / len;
            let y: i128 = (long.y as i128) * (UNIT as i128) / len;
            Some(Vector { x: x as i64, y: y as i64 })
        }
    }

    /// A vector along an axis is exactly as long as its one coordinate.
    pub proof fn lemma_axis_length(self)
        requires
            self.x == 0 || self.y == 0,
        ensures
            self.spec_length() == abs(self.x as int) + abs(self.y as int),
    {
        let m: int = (abs(self.x as int) + abs(self.y as int)) as int;
        let n = self.norm_squared();
        assert(n == m * m && m * m < (m + 1) * (m + 1)) by (nonlinear_arith)
            requires
                n == self.x * self.x + self.y * self.y,
                self.x == 0 || self.y == 0,
                m >= 0,
                m == self.x + self.y || m == -(self.x + self.y),
        ;
        lemma_floor_sqrt_unique(n, m);
    }

    /// Along an axis, dividing by the length leaves one step of length one.
    pub proof fn lemma_axis_divided(self)
        requires
            self.x == 0 || self.y == 0,
            !self.is_zero(),
        ensures
            self.divided_by_length().x == signum(self.x as int) * UNIT,
            self.divided_by_length().y == signum(self.y as int) * UNIT,
    {
        self.lemma_axis_length();
        let m = self.spec_length();
        let sx = signum(self.x as int);
        let sy = signum(self.y as int);
        assert(self.x == sx * m && self.y == sy * m) by (nonlinear_arith)
            requires
                m == abs(self.x as int) + abs(self.y as int),
                self.x == 0 || self.y == 0,
                sx == signum(self.x as int),
                sy == signum(self.y as int),
        ;
        lemma_quotient_of_multiple(sx * UNIT, m);
        lemma_quotient_of_multiple(sy * UNIT, m);
        assert(sx * UNIT * m == self.x * UNIT) by (nonlinear_arith)
            requires
                self.x == sx * m,
        ;
        assert(sy * UNIT * m == self.y * UNIT) by (nonlinear_arith)
            requires
                self.y == sy * m,
        ;
    }

    /// Neither coordinate is longer than the rounded-down length, which is
    /// zero for the zero vector alone.
    pub proof fn lemma_length_dominates(self)
        ensures
            -self.spec_length() <= self.x <= self.spec_length(),
            -self.spec_length() <= self.y <= self.spec_length(),
            self.spec_length() == 0 <==> self.is_zero(),
    {
        let n = self.norm_squared();
        let r = self.spec_length();
        let x = self.x as int;
        let y = self.y as int;
        assert(n >= 0 && n >= x * x && n >= y * y) by (nonlinear_arith)
            requires
                n == x * x + y * y,
        ;
        lemma_floor_sqrt(n);
        assert(-r <= x <= r) by (nonlinear_arith)
            requires
                x * x < (r + 1) * (r + 1),
                r >= 0,
        ;
        assert(-r <= y <= r) by (nonlinear_arith)
            requires
                y * y < (r + 1) * (r + 1),
                r >= 0,
        ;
        assert(r == 0 ==> n == 0) by (nonlinear_arith)
            requires
                n >= 0,
                n < (r + 1) * (r + 1),
        ;
        assert(n == 0 ==> r == 0) by (nonlinear_arith)
            requires
                r >= 0,
                r * r <= n,
        ;
        assert(n == 0 <==> (x == 0 && y == 0)) by (nonlinear_arith)
            requires
                n == x * x + y * y,
        ;
    }
}

proof fn lemma_square_bound(m: int, a: int)
    by (nonlinear_arith)
    requires
        0 <= m <= 0x8000_0000_0000_0000,
        m == a || m == -a,
    ensures
        m * m == a * a,
        0 <= m * m <= 0x4000_0000_0000_0000_0000_0000_0000_0000,
{
}

/// A quotient is no farther from zero than the bound its numerator keeps
/// against the denominator.
proof fn lemma_quotient_bound(a: int, b: int, k: int)
    by (nonlinear_arith)
    requires
        b > 0,
        k >= 0,
        -(k * b) <= a <= k * b,
    ensures
        -k <= quotient_toward_zero(a, b) <= k,
{
}

impl Add<Vector> for Vector {
    type Output = Vector;

    /// The sum, coordinate by coordinate; `add_req` asks that it fits.
    fn add(self, rhs: Vector) -> (r: Vector)
        ensures
            r.x == self.x + rhs.x,
            r.y == self.y + rhs.y,
    {
        Vector { x: self.x + rhs.x, y: self.y + rhs.y }
    }
}

impl vstd::std_specs::ops::AddSpecImpl<Vector> for Vector {
    open spec fn obeys_add_spec() -> bool {
        true
    }

    /// Both sums are within `i64`.
    open spec fn add_req(self, rhs: Vector) -> bool {
        &&& i64::MIN <= self.x + rhs.x <= i64::MAX
        &&& i64::MIN <= self.y + rhs.y <= i64::MAX
    }

    open spec fn add_spec(self, rhs: Vector) -> Vector {
        Vector { x: (self.x + rhs.x) as i64, y: (self.y + rhs.y) as i64 }
    }
}

impl Sub<Vector> for Vector {
    type Output = Vector;

    /// The difference, coordinate by coordinate; `sub_req` asks that it fits.
    fn sub(self, rhs: Vector) -> (r: Vector)
        ensures
            r.x == self.x - rhs.x,
            r.y == self.y - rhs.y,
    {
        Vector { x: self.x - rhs.x, y: self.y - rhs.y }
    }
}

impl vstd::std_specs::ops::SubSpecImpl<Vector> for Vector {
    open spec fn obeys_sub_spec() -> bool {
        true
    }

    /// Both differences are within `i64`.
    open spec fn sub_req(self, rhs: Vector) -> bool {
        &&& i64::MIN <= self.x - rhs.x <= i64::MAX
        &&& i64::MIN <= self.y - rhs.y <= i64::MAX
    }

    open spec fn sub_spec(self, rhs: Vector) -> Vector {
        Vector { x: (self.x - rhs.x) as i64, y: (self.y - rhs.y) as i64 }
    }
}

impl Mul<i64> for Vector {
    type Output = Vector;

    /// The vector stretched by the fixed-point factor `rhs`; `mul_req` asks
    /// that it fits.
    fn mul(self, rhs: i64) -> (r: Vector)
        ensures
            r.x == scaled(self.x as int, rhs as int),
            r.y == scaled(self.y as int, rhs as int),
    {
        proof {
            lemma_product_bound(self.x as int, rhs as int);
            lemma_product_bound(self.y as int, rhs as int);
        }
        let x: i128 = (self.x as i128) * (rhs as i128) / (UNIT as i128);
        let y: i128 = (self.y as i128) * (rhs as i128) / (UNIT as i128);
        Vector { x: x as i64, y: y as i64 }
    }
}

impl vstd::std_specs::ops::MulSpecImpl<i64> for Vector {
    open spec fn obeys_mul_spec() -> bool {
        true
    }

    /// Both fixed-point products are within `i64`.
    open spec fn mul_req(self, rhs: i64) -> bool {
        &&& i64::MIN <= scaled(self.x as int, rhs as int) <= i64::MAX
        &&& i64::MIN <= scaled(self.y as int, rhs as int) <= i64::MAX
    }

    open spec fn mul_spec(self, rhs: i64) -> Vector {
        Vector {
            x: scaled(self.x as int, rhs as int) as i64,
            y: scaled(self.y as int, rhs as int) as i64,
        }
    }
}

impl Neg for Vector {
    type Output = Vector;

    /// The reverse; `neg_req` asks that it fits.
    fn neg(self) -> (r: Vector)
        ensures
            r.x == -self.x,
            r.y == -self.y,
    {
        Vector { x: -self.x, y: -self.y }
    }
}

impl vstd::std_specs::ops::NegSpecImpl for Vector {
    open spec fn obeys_neg_spec() -> bool {
        true
    }

    /// Neither coordinate is `i64::MIN`.
    open spec fn neg_req(self) -> bool {
        self.x != i64::MIN && self.y != i64::MIN
    }

    open spec fn neg_spec(self) -> Vector {
        Vector { x: (-self.x) as i64, y: (-self.y) as i64 }
    }
}

proof fn lemma_product_bound(a: int, b: int)
    by (nonlinear_arith)
    requires
        -0x8000_0000_0000_0000 <= a <= 0x8000_0000_0000_0000,
        -0x8000_0000_0000_0000 <= b <= 0x8000_0000_0000_0000,
    ensures
        -0x4000_0000_0000_0000_0000_0000_0000_0000 <= a * b
            <= 0x4000_0000_0000_0000_0000_0000_0000_0000,
{
}

/// Adding a vector and taking it away again changes nothing, and so does
/// taking it away and adding it again.
pub proof fn lemma_add_sub_inverse(a: Vector, b: Vector)
    ensures
        a.add_req(b) ==> a.add_spec(b).sub_req(b) && a.add_spec(b).sub_spec(b) == a,
        a.sub_req(b) ==> a.sub_spec(b).add_req(b) && a.sub_spec(b).add_spec(b) == a,
{
}

/// Scaling by one changes nothing.
pub proof fn lemma_scale_by_one(v: Vector)
    ensures
        v.mul_req(UNIT),
        v.mul_spec(UNIT) == v,
{
    lemma_scaled_by_unit(v.x as int);
    lemma_scaled_by_unit(v.y as int);
}

proof fn lemma_floor_division(n: int, d: int)
    by (nonlinear_arith)
    requires
        n >= 0,
        d > 0,
    ensures
        0 <= n / d,
        (n / d) * d <= n < (n / d) * d + d,
{
}

proof fn lemma_square_order(a: int, b: int)
    by (nonlinear_arith)
    requires
        0 <= a,
        0 <= b,
        a * a < b * b,
    ensures
        a < b,
{
}

/// With `s` more than `t - l` and not negative, the square of `s` is at
/// least `t * t - 2 * t * l`.
proof fn lemma_square_above(s: int, t: int, l: int)
    by (nonlinear_arith)
    requires
        0 <= s,
        0 <= t,
        0 < l,
        t < s + l,
    ensures
        s * s >= t * t - 2 * t * l,
{
    if t >= l {
        assert(s >= t - l);
        assert(s * s >= (t - l) * (t - l));
        assert((t - l) * (t - l) == t * t - 2 * t * l + l * l);
    } else {
        assert(t * (t - 2 * l) <= 0);
        assert(t * (t - 2 * l) == t * t - 2 * t * l);
    }
}

/// The upper half of `lemma_divided_length`, on plain numbers.
proof fn lemma_normalized_not_longer(a: int, b: int, l: int, p: int, q: int, m: int, u: int)
    requires
        0 <= a,
        0 <= b,
        0 <= p,
        0 <= q,
        0 <= m,
        1 <= l,
        1 <= u,
        a * a + b * b < (l + 1) * (l + 1),
        p * l <= a * u,
        q * l <= b * u,
        m * m <= p * p + q * q,
    ensures
        m * l < u * (l + 1),
{
    let pl = p * l;
    let ql = q * l;
    let au = a * u;
    let bu = b * u;
    assert(0 <= pl && 0 <= ql) by (nonlinear_arith)
        requires
            0 <= p,
            0 <= q,
            1 <= l,
            pl == p * l,
            ql == q * l,
    ;
    lemma_square_monotone(pl, au);
    lemma_square_monotone(ql, bu);
    let n = a * a + b * b;
    let top = (l + 1) * (l + 1);
    assert(au * au + bu * bu == u * u * n) by (nonlinear_arith)
        requires
            au == a * u,
            bu == b * u,
            n == a * a + b * b,
    ;
    assert(u * u * n < u * u * top) by (nonlinear_arith)
        requires
            n < top,
            1 <= u,
    ;
    let ul = u * (l + 1);
    assert(u * u * top == ul * ul) by (nonlinear_arith)
        requires
            top == (l + 1) * (l + 1),
            ul == u * (l + 1),
    ;
    let ml = m * l;
    let k = p * p + q * q;
    assert(ml * ml == m * m * (l * l)) by (nonlinear_arith)
        requires
            ml == m * l,
    ;
    assert(pl * pl + ql * ql == k * (l * l)) by (nonlinear_arith)
        requires
            pl == p * l,
            ql == q * l,
            k == p * p + q * q,
    ;
    assert(m * m * (l * l) <= k * (l * l)) by (nonlinear_arith)
        requires
            m * m <= k,
    ;
    assert(0 <= ml && 0 <= ul) by (nonlinear_arith)
        requires
            0 <= m,
            1 <= l,
            1 <= u,
            ml == m * l,
            ul == u * (l + 1),
    ;
    lemma_square_order(ml, ul);
}

/// The lower half of `lemma_divided_length`, on plain numbers.
proof fn lemma_normalized_not_shorter(a: int, b: int, l: int, p: int, q: int, u: int)
    requires
        0 <= a <= l,
        0 <= b <= l,
        0 <= p,
        0 <= q,
        1 <= l,
        5 <= u,
        l * l <= a * a + b * b,
        a * u < p * l + l,
        b * u < q * l + l,
    ensures
        (u - 3) * (u - 3) <= p * p + q * q,
{
    let pl = p * l;
    let ql = q * l;
    let au = a * u;
    let bu = b * u;
    assert(0 <= pl && 0 <= ql && 0 <= au && 0 <= bu) by (nonlinear_arith)
        requires
            0 <= p,
            0 <= q,
            0 <= a,
            0 <= b,
            1 <= l,
            5 <= u,
            pl == p * l,
            ql == q * l,
            au == a * u,
            bu == b * u,
    ;
    lemma_square_above(pl, au, l);
    lemma_square_above(ql, bu, l);
    let n = a * a + b * b;
    let k = p * p + q * q;
    let ll = l * l;
    assert(au * au + bu * bu == u * u * n) by (nonlinear_arith)
        requires
            au == a * u,
            bu == b * u,
            n == a * a + b * b,
    ;
    assert(pl * pl + ql * ql == k * ll) by (nonlinear_arith)
        requires
            pl == p * l,
            ql == q * l,
            k == p * p + q * q,
            ll == l * l,
    ;
    assert(u * u * n >= u * u * ll) by (nonlinear_arith)
        requires
            n >= ll,
    ;
    assert(2 * au * l + 2 * bu * l <= 4 * u * ll) by (nonlinear_arith)
        requires
            au == a * u,
            bu == b * u,
            0 <= a <= l,
            0 <= b <= l,
            5 <= u,
            1 <= l,
            ll == l * l,
    ;
    assert(k * ll >= u * u * ll - 4 * u * ll);
    let w = (u - 3) * (u - 3);
    assert(u * u * ll - 4 * u * ll >= w * ll) by (nonlinear_arith)
        requires
            w == (u - 3) * (u - 3),
            5 <= u,
            0 <= ll,
    ;
    assert(ll >= 1) by (nonlinear_arith)
        requires
            ll == l * l,
            1 <= l,
    ;
    assert(k >= w) by (nonlinear_arith)
        requires
            k * ll >= w * ll,
            ll >= 1,
    ;
}

impl Vector {
    proof fn lemma_norm_squared_nonnegative(self)
        ensures
            self.norm_squared() >= 0,
    {
        assert(self.x * self.x + self.y * self.y >= 0) by (nonlinear_arith);
    }

    /// A vector divided by its rounded-down length is up to three millionths
    /// short of length one, and over it by no more than one divided by the
    /// length of the vector: by nothing when the vector is longer than one.
    pub proof fn lemma_divided_length(self)
        requires
            !self.is_zero(),
        ensures
            UNIT - 3 <= self.divided_by_length().spec_length() <= UNIT + (UNIT as int)
                / self.spec_length(),
    {
        let l = self.spec_length();
        self.lemma_length_dominates();
        self.lemma_norm_squared_nonnegative();
        lemma_floor_sqrt(self.norm_squared());
        let a: int = abs(self.x as int) as int;
        let b: int = abs(self.y as int) as int;
        let u: int = UNIT as int;
        assert(self.norm_squared() == a * a + b * b) by (nonlinear_arith)
            requires
                self.norm_squared() == self.x * self.x + self.y * self.y,
                a == self.x || a == -self.x,
                b == self.y || b == -self.y,
        ;
        let p = (a * u) / l;
        let q = (b * u) / l;
        lemma_floor_division(a * u, l);
        lemma_floor_division(b * u, l);
        lemma_quotient_bound(self.x * UNIT, l, u);
        lemma_quotient_bound(self.y * UNIT, l, u);
        let n = self.divided_by_length();
        assert((-self.x) * UNIT == -(self.x * UNIT) && (-self.y) * UNIT == -(self.y * UNIT))
            by (nonlinear_arith);
        assert(n.x == p || n.x == -p);
        assert(n.y == q || n.y == -q);
        assert(n.norm_squared() == p * p + q * q) by (nonlinear_arith)
            requires
                n.norm_squared() == n.x * n.x + n.y * n.y,
                n.x == p || n.x == -p,
                n.y == q || n.y == -q,
        ;
        let m = n.spec_length();
        n.lemma_norm_squared_nonnegative();
        lemma_floor_sqrt(n.norm_squared());
        lemma_normalized_not_longer(a, b, l, p, q, m, u);
        lemma_normalized_not_shorter(a, b, l, p, q, u);
        lemma_square_order(u - 3, m + 1);
        lemma_floor_division(u, l);
        let k = u / l;
        assert(m < u + k + 1) by (nonlinear_arith)
            requires
                m * l < u * (l + 1),
                u < k * l + l,
                1 <= l,
        ;
    }
}

impl Vector {
    /// Along an axis, normalizing leaves one step of length one.
    pub proof fn lemma_axis_normalize(self)
        requires
            self.x == 0 || self.y == 0,
            !self.is_zero(),
        ensures
            self.spec_normalize().x == signum(self.x as int) * UNIT,
            self.spec_normalize().y == signum(self.y as int) * UNIT,
    {
        self.stretched().lemma_axis_divided();
    }

    /// A normalized vector has length one: up to three millionths less, and
    /// never more, whatever the length of the vector that was normalized.
    /// Neither of its coordinates has the sign against the one it comes from.
    pub proof fn lemma_normalize(self)
        requires
            !self.is_zero(),
        ensures
            UNIT - 3 <= self.spec_normalize().spec_length() <= UNIT,
            signum(self.spec_normalize().x as int) == signum(self.x as int)
                || self.spec_normalize().x == 0,
            signum(self.spec_normalize().y as int) == signum(self.y as int)
                || self.spec_normalize().y == 0,
            self.spec_normalize().x * self.x + self.spec_normalize().y * self.y > 0,
    {
        let long = self.stretched();
        let l = long.spec_length();
        long.lemma_length_dominates();
        long.lemma_divided_length();
        assert(l >= STRETCH);
        assert((UNIT as int) / l == 0) by (nonlinear_arith)
            requires
                l > UNIT,
        ;
        lemma_quotient_bound(long.x * UNIT, l, UNIT as int);
        lemma_quotient_bound(long.y * UNIT, l, UNIT as int);
        lemma_quotient_sign(long.x * UNIT, l);
        lemma_quotient_sign(long.y * UNIT, l);
        let n = self.spec_normalize();
        n.lemma_length_dominates();
        lemma_inner_product_positive(n.x as int, n.y as int, self.x as int, self.y as int);
    }
}

/// Two vectors whose coordinates do not differ in sign, the first of them
/// not zero and zero nowhere the second is not, have a positive inner
/// product.
proof fn lemma_inner_product_positive(nx: int, ny: int, x: int, y: int)
    by (nonlinear_arith)
    requires
        nx != 0 || ny != 0,
        signum(nx) == signum(x) || nx == 0,
        signum(ny) == signum(y) || ny == 0,
    ensures
        nx * x + ny * y > 0,
{
    assert(nx * x >= 0);
    assert(ny * y >= 0);
    if nx != 0 {
        assert(nx * x > 0);
    } else {
        assert(ny * y > 0);
    }
}

/// A quotient has the sign of its numerator, or is zero.
proof fn lemma_quotient_sign(a: int, b: int)
    by (nonlinear_arith)
    requires
        b > 0,
    ensures
        a >= 0 ==> quotient_toward_zero(a, b) >= 0,
        a <= 0 ==> quotient_toward_zero(a, b) <= 0,
{
}

/// What rounding a quotient toward zero leaves out is less than the
/// denominator.
proof fn lemma_quotient_remainder(a: int, b: int)
    by (nonlinear_arith)
    requires
        b > 0,
    ensures
        -b < a - quotient_toward_zero(a, b) * b < b,
{
}

/// The product of a number below `bound` in magnitude and another is below
/// the product of `bound` and the other's magnitude, or both are zero.
proof fn lemma_product_below(r: int, bound: int, x: int, size: int)
    by (nonlinear_arith)
    requires
        -bound < r < bound,
        size == x || size == -x,
        size >= 0,
    ensures
        -((bound - 1) * size) <= r * x <= (bound - 1) * size,
{
}

/// The heart of `lemma_normalize_direction`, on plain numbers: `nx` and `ny`
/// are what is left of `k * x * u` and `k * y * u` divided by `l`.
proof fn lemma_outer_product_small(x: int, y: int, k: int, u: int, l: int, nx: int, ny: int)
    requires
        l >= 1,
        -l < k * x * u - nx * l < l,
        -l < k * y * u - ny * l < l,
    ensures
        -(abs(x) + abs(y)) <= nx * y - ny * x <= abs(x) + abs(y),
{
    let rx = k * x * u - nx * l;
    let ry = k * y * u - ny * l;
    let c = nx * y - ny * x;
    let a = k * x * u;
    let b = k * y * u;
    let p = nx * l;
    let q = ny * l;
    assert(c * l == p * y - q * x) by (nonlinear_arith)
        requires
            c == nx * y - ny * x,
            p == nx * l,
            q == ny * l,
    ;
    assert(a * y == b * x) by (nonlinear_arith)
        requires
            a == k * x * u,
            b == k * y * u,
    ;
    assert((a - rx) * y - (b - ry) * x == a * y - b * x - rx * y + ry * x) by (nonlinear_arith);
    assert(c * l == ry * x - rx * y);
    let sx: int = abs(x) as int;
    let sy: int = abs(y) as int;
    lemma_product_below(ry, l, x, sx);
    lemma_product_below(rx, l, y, sy);
    let bx = (l - 1) * sx;
    let by = (l - 1) * sy;
    assert(-(bx + by) <= c * l <= bx + by);
    assert(-(sx + sy) <= c <= sx + sy) by (nonlinear_arith)
        requires
            l >= 1,
            sx >= 0,
            sy >= 0,
            bx == (l - 1) * sx,
            by == (l - 1) * sy,
            -(bx + by) <= c * l <= bx + by,
    ;
}

/// The fixed-point product is the product, less what rounding toward zero
/// takes off: under one millionth.
pub proof fn lemma_scaled_close(a: int, factor: int)
    ensures
        -UNIT < a * factor - scaled(a, factor) * UNIT < UNIT,
        (a * factor) % (UNIT as int) == 0 ==> scaled(a, factor) * UNIT == a * factor,
{
}

impl Vector {
    /// A normalized vector points the way the vector points that it comes
    /// from: the outer product of the two, which is zero for parallel vectors
    /// and otherwise the product of their lengths and the sine of the angle
    /// between them, is no more than the two coordinates of the vector add up
    /// to. The angle is thus no more than a millionth and a half.
    pub proof fn lemma_normalize_direction(self)
        requires
            !self.is_zero(),
        ensures
            -(abs(self.x as int) + abs(self.y as int)) <= self.spec_normalize().x * self.y
                - self.spec_normalize().y * self.x <= abs(self.x as int) + abs(self.y as int),
    {
        let long = self.stretched();
        let l = long.spec_length();
        long.lemma_length_dominates();
        lemma_quotient_bound(long.x * UNIT, l, UNIT as int);
        lemma_quotient_bound(long.y * UNIT, l, UNIT as int);
        lemma_quotient_remainder(long.x * UNIT, l);
        lemma_quotient_remainder(long.y * UNIT, l);
        let k: int = if -STRETCH < self.x < STRETCH && -STRETCH < self.y < STRETCH {
            STRETCH as int
        } else {
            1
        };
        if k == 1 {
            assert(long == self);
            assert(1 * self.x * UNIT == long.x * UNIT && 1 * self.y * UNIT == long.y * UNIT)
                by (nonlinear_arith)
                requires
                    long.x == self.x,
                    long.y == self.y,
            ;
        } else {
            assert(long.x == STRETCH * self.x && long.y == STRETCH * self.y);
            assert(STRETCH * self.x * UNIT == long.x * UNIT && STRETCH * self.y * UNIT == long.y
                * UNIT) by (nonlinear_arith)
                requires
                    long.x == STRETCH * self.x,
                    long.y == STRETCH * self.y,
            ;
        }
        let n = self.spec_normalize();
        lemma_outer_product_small(
            self.x as int,
            self.y as int,
            k,
            UNIT as int,
            l,
            n.x as int,
            n.y as int,
        );
    }
}

} // verus!

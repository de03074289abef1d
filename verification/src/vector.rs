//! Two-dimensional vectors with whole-number coordinates.

use vstd::prelude::*;
use crate::arith::{
    div_away_from_zero, div_toward_zero, divide_toward_zero,
    lemma_div_toward_zero_bounds, lemma_product_bound, mul_wide,
};

verus! {

/// How many units make one pixel.
pub const UNITS_PER_PIXEL: i64 = 1000;

/// Every coordinate that takes part in a collision test lies between
/// `-COORDINATE_LIMIT` and `COORDINATE_LIMIT`, so that cross products of
/// differences fit in an `i64`.
pub const COORDINATE_LIMIT: i64 = 100_000_000;

/// Ten times the coordinate limit: room for the sum of a few vectors that are
/// each in range. Vectors within it can be projected and resized.
pub const WIDE_LIMIT: i64 = 1_000_000_000;

/// The mathematical vector that a [`Vector2`] stands for.
pub struct Vec2 {
    pub x: int,
    pub y: int,
}

impl Vec2 {
    pub open spec fn plus(self, other: Vec2) -> Vec2 {
        Vec2 { x: self.x + other.x, y: self.y + other.y }
    }

    pub open spec fn minus(self, other: Vec2) -> Vec2 {
        Vec2 { x: self.x - other.x, y: self.y - other.y }
    }

    pub open spec fn negated(self) -> Vec2 {
        Vec2 { x: -self.x, y: -self.y }
    }

    /// The vector turned a quarter turn, from the x axis toward the y axis.
    pub open spec fn rot90(self) -> Vec2 {
        Vec2 { x: -self.y, y: self.x }
    }

    pub open spec fn cross(self, other: Vec2) -> int {
        self.x * other.y - self.y * other.x
    }

    pub open spec fn dot(self, other: Vec2) -> int {
        self.x * other.x + self.y * other.y
    }

    pub open spec fn magnitude2(self) -> int {
        self.x * self.x + self.y * self.y
    }

    pub open spec fn is_zero(self) -> bool {
        self.x == 0 && self.y == 0
    }

    /// Both coordinates lie between `-limit` and `limit`.
    pub open spec fn within(self, limit: int) -> bool {
        &&& -limit <= self.x <= limit
        &&& -limit <= self.y <= limit
    }

    /// The vector times `num / den`, each coordinate rounded toward zero.
    pub open spec fn scaled_toward_zero(self, num: int, den: int) -> Vec2 {
        Vec2 {
            x: div_toward_zero(self.x * num, den),
            y: div_toward_zero(self.y * num, den),
        }
    }

    /// The vector times `num / den`, each coordinate rounded away from zero.
    pub open spec fn scaled_away_from_zero(self, num: int, den: int) -> Vec2 {
        Vec2 {
            x: div_away_from_zero(self.x * num, den),
            y: div_away_from_zero(self.y * num, den),
        }
    }

    /// The orthogonal projection of the vector on the line along `onto`, each
    /// coordinate rounded toward zero; the zero vector where `onto` is zero.
    pub open spec fn projected_on(self, onto: Vec2) -> Vec2 {
        if onto.is_zero() {
            Vec2 { x: 0, y: 0 }
        } else {
            onto.scaled_toward_zero(self.dot(onto), onto.magnitude2())
        }
    }
}

/// A vector, or a point, in units.
#[derive(Clone, Copy, Debug, PartialEq, Eq, Structural)]
pub struct Vector2 {
    pub x: i64,
    pub y: i64,
}

impl View for Vector2 {
    type V = Vec2;

    open spec fn view(&self) -> Vec2 {
        Vec2 { x: self.x as int, y: self.y as int }
    }
}

impl Vector2 {
    /// The vector with the given coordinates.
    pub open spec fn spec_new(x: i64, y: i64) -> Vector2 {
        Vector2 { x, y }
    }

    /// The vector with the given coordinates.
    #[verifier::when_used_as_spec(spec_new)]
    pub fn new(x: i64, y: i64) -> (v: Vector2)
        ensures
            v == Vector2::spec_new(x, y),
    {
        Vector2 { x, y }
    }

    pub fn zero() -> (v: Vector2)
        ensures
            v@.is_zero(),
    {
        Vector2 { x: 0, y: 0 }
    }

    /// Both coordinates lie within the coordinate limit.
    pub open spec fn in_range(self) -> bool {
        self@.within(COORDINATE_LIMIT as int)
    }

    pub fn is_in_range(&self) -> (b: bool)
        ensures
            b == self.in_range(),
    {
        -COORDINATE_LIMIT <= self.x && self.x <= COORDINATE_LIMIT && -COORDINATE_LIMIT <= self.y
            && self.y <= COORDINATE_LIMIT
    }

    pub fn plus(self, other: Vector2) -> (v: Vector2)
        requires
            self@.plus(other@).within(i64::MAX as int),
        ensures
            v@ == self@.plus(other@),
    {
        Vector2 { x: self.x + other.x, y: self.y + other.y }
    }

    pub fn minus(self, other: Vector2) -> (v: Vector2)
        requires
            self@.minus(other@).within(i64::MAX as int),
        ensures
            v@ == self@.minus(other@),
    {
        Vector2 { x: self.x - other.x, y: self.y - other.y }
    }

    pub fn negated(self) -> (v: Vector2)
        requires
            self@.within(i64::MAX as int),
        ensures
            v@ == self@.negated(),
    {
        Vector2 { x: -self.x, y: -self.y }
    }

    pub fn rot90(self) -> (v: Vector2)
        requires
            self@.within(i64::MAX as int),
        ensures
            v@ == self@.rot90(),
    {
        Vector2 { x: -self.y, y: self.x }
    }

    pub fn cross(self, other: Vector2) -> (c: i128)
        ensures
            c == self@.cross(other@),
    {
        let a: i128 = mul_wide(self.x, other.y);
        let b: i128 = mul_wide(self.y, other.x);
        proof {
            // The two products cannot reach the bound with opposite signs.
            lemma_product_bound(
                self.x as int,
                other.y as int,
                0x8000_0000_0000_0000,
                0x8000_0000_0000_0000,
            );
            if a == 0x4000_0000_0000_0000_0000_0000_0000_0000 && b
                == -0x4000_0000_0000_0000_0000_0000_0000_0000 {
                assert(false) by (nonlinear_arith)
                    requires
                        -0x8000_0000_0000_0000 <= self.y < 0x8000_0000_0000_0000,
                        -0x8000_0000_0000_0000 <= other.x < 0x8000_0000_0000_0000,
                        self.y * other.x == -0x4000_0000_0000_0000_0000_0000_0000_0000,
                ;
            }
        }
        a - b
    }

    pub fn dot(self, other: Vector2) -> (d: i128)
        requires
            self@.within(i64::MAX as int),
            other@.within(i64::MAX as int),
        ensures
            d == self@.dot(other@),
    {
        proof {
            lemma_product_bound(self.x as int, other.x as int, i64::MAX as int, i64::MAX as int);
            lemma_product_bound(self.y as int, other.y as int, i64::MAX as int, i64::MAX as int);
            assert((i64::MAX as int) * (i64::MAX as int) < 0x4000_0000_0000_0000_0000_0000_0000_0000);
        }
        mul_wide(self.x, other.x) + mul_wide(self.y, other.y)
    }

    pub fn magnitude2(self) -> (m: i128)
        requires
            self@.within(i64::MAX as int),
        ensures
            m == self@.magnitude2(),
            m >= 0,
    {
        proof {
            assert(self.x * self.x >= 0 && self.y * self.y >= 0) by (nonlinear_arith);
        }
        self.dot(self)
    }

    /// The vector times `num / den`, rounded toward zero, for a ratio between
    /// minus one and one.
    pub fn scale_toward_zero(self, num: i64, den: i64) -> (v: Vector2)
        requires
            self@.within(i64::MAX as int),
            den > 0,
            -den <= num <= den,
        ensures
            v@ == self@.scaled_toward_zero(num as int, den as int),
    {
        proof {
            lemma_scaled_component_fits(self.x as int, num as int, den as int);
            lemma_scaled_component_fits(self.y as int, num as int, den as int);
        }
        let x: i128 = divide_toward_zero(mul_wide(self.x, num), den as i128);
        let y: i128 = divide_toward_zero(mul_wide(self.y, num), den as i128);
        Vector2 { x: x as i64, y: y as i64 }
    }

    /// The vector times `num / den`, rounded toward zero, where the result
    /// is known to fit.
    pub fn scale_by_quotient(self, num: i128, den: i128) -> (v: Vector2)
        requires
            self@.within(WIDE_LIMIT as int),
            den > 0,
            -1_000_000_000_000_000_000 <= num <= 1_000_000_000_000_000_000,
            self@.scaled_toward_zero(num as int, den as int).within(i64::MAX as int),
        ensures
            v@ == self@.scaled_toward_zero(num as int, den as int),
    {
        proof {
            lemma_product_bound(
                self.x as int,
                num as int,
                WIDE_LIMIT as int,
                1_000_000_000_000_000_000,
            );
            lemma_product_bound(
                self.y as int,
                num as int,
                WIDE_LIMIT as int,
                1_000_000_000_000_000_000,
            );
            assert(WIDE_LIMIT * 1_000_000_000_000_000_000 == 1_000_000_000_000_000_000_000_000_000);
        }
        let x: i128 = divide_toward_zero((self.x as i128) * num, den);
        let y: i128 = divide_toward_zero((self.y as i128) * num, den);
        Vector2 { x: x as i64, y: y as i64 }
    }

    /// The orthogonal projection on the line along `onto`, rounded toward
    /// zero. It is no longer than the vector itself.
    pub fn project_on(self, onto: Vector2) -> (v: Vector2)
        requires
            self@.within(WIDE_LIMIT as int),
            onto@.within(WIDE_LIMIT as int),
        ensures
            v@ == self@.projected_on(onto@),
            v@.magnitude2() <= self@.magnitude2(),
            v@.within(2 * WIDE_LIMIT),
    {
        if onto.x == 0 && onto.y == 0 {
            proof {
                assert(self@.magnitude2() >= 0) by (nonlinear_arith);
            }
            return Vector2 { x: 0, y: 0 };
        }
        let d: i128 = self.dot(onto);
        let n: i128 = onto.magnitude2();
        proof {
            let l = WIDE_LIMIT as int;
            assert(l * l == 1_000_000_000_000_000_000);
            assert(l * (2 * (l * l)) == 2_000_000_000_000_000_000_000_000_000);
            lemma_product_bound(self.x as int, onto.x as int, l, l);
            lemma_product_bound(self.y as int, onto.y as int, l, l);
            lemma_product_bound(onto.x as int, onto.x as int, l, l);
            lemma_product_bound(onto.y as int, onto.y as int, l, l);
            lemma_product_bound(onto.x as int, d as int, l, 2 * (l * l));
            lemma_product_bound(onto.y as int, d as int, l, 2 * (l * l));
            assert(n > 0) by (nonlinear_arith)
                requires
                    n == onto.x * onto.x + onto.y * onto.y,
                    onto.x != 0 || onto.y != 0,
            ;
            lemma_projection_shrinks(self@, onto@);
            lemma_component_bound(self@.projected_on(onto@), self@, l);
        }
        let x: i128 = divide_toward_zero((onto.x as i128) * d, n);
        let y: i128 = divide_toward_zero((onto.y as i128) * d, n);
        Vector2 { x: x as i64, y: y as i64 }
    }
}

/// Scaling by a ratio between minus one and one does not lengthen a
/// coordinate, whichever way the quotient is rounded.
pub proof fn lemma_scaled_component_fits(c: int, num: int, den: int)
    requires
        den > 0,
        -den <= num <= den,
    ensures
        c >= 0 ==> -c <= div_toward_zero(c * num, den) <= c,
        c <= 0 ==> c <= div_toward_zero(c * num, den) <= -c,
        c >= 0 ==> -c <= div_away_from_zero(c * num, den) <= c,
        c <= 0 ==> c <= div_away_from_zero(c * num, den) <= -c,
{
    let p = c * num;
    let m = if c >= 0 { c } else { -c };
    assert(-(m * den) <= p <= m * den) by (nonlinear_arith)
        requires
            p == c * num,
            -den <= num <= den,
            -m <= c <= m,
            den > 0,
    ;
    if p >= 0 {
        assert(p / den <= m && (p + den - 1) / den <= m && p / den >= 0 && (p + den - 1) / den
            >= 0) by (nonlinear_arith)
            requires
                0 <= p <= m * den,
                den > 0,
        ;
    } else {
        let n = -p;
        assert(n / den <= m && (n + den - 1) / den <= m && n / den >= 0 && (n + den - 1) / den
            >= 0) by (nonlinear_arith)
            requires
                0 <= n <= m * den,
                den > 0,
        ;
    }
}

} // verus!

verus! {

proof fn lemma_square_of_product(a: int, b: int)
    ensures
        (a * a) * (b * b) == (a * b) * (a * b),
{
    assert((a * a) * (b * b) == (a * b) * (a * b)) by (nonlinear_arith);
}

/// A projection, however its coordinates are rounded toward zero, is no
/// longer than what was projected.
pub proof fn lemma_projection_shrinks(f: Vec2, e: Vec2)
    ensures
        f.projected_on(e).magnitude2() <= f.magnitude2(),
{
    let ff = f.magnitude2();
    assert(ff >= 0) by (nonlinear_arith)
        requires
            ff == f.x * f.x + f.y * f.y,
    ;
    if !e.is_zero() {
        let d = f.dot(e);
        let n = e.magnitude2();
        let s = f.projected_on(e);
        assert(n > 0) by (nonlinear_arith)
            requires
                n == e.x * e.x + e.y * e.y,
                e.x != 0 || e.y != 0,
        ;
        lemma_div_toward_zero_bounds(e.x * d, n);
        lemma_div_toward_zero_bounds(e.y * d, n);
        let px = e.x * d;
        let py = e.y * d;
        let qx = n * s.x;
        let qy = n * s.y;
        assert(qx * qx <= px * px) by (nonlinear_arith)
            requires
                (0 <= qx <= px) || (px <= qx <= 0),
        ;
        assert(qy * qy <= py * py) by (nonlinear_arith)
            requires
                (0 <= qy <= py) || (py <= qy <= 0),
        ;
        assert(px * px + py * py == d * d * n) by (nonlinear_arith)
            requires
                px == e.x * d,
                py == e.y * d,
                n == e.x * e.x + e.y * e.y,
        ;
        // Lagrange's identity
        let c = f.cross(e);
        let xx = f.x * e.x;
        let yy = f.y * e.y;
        let xy = f.x * e.y;
        let yx = f.y * e.x;
        let fx2 = f.x * f.x;
        let fy2 = f.y * f.y;
        let ex2 = e.x * e.x;
        let ey2 = e.y * e.y;
        assert(ff * n == fx2 * ex2 + fx2 * ey2 + fy2 * ex2 + fy2 * ey2) by (nonlinear_arith)
            requires
                ff == fx2 + fy2,
                n == ex2 + ey2,
        ;
        lemma_square_of_product(f.x, e.x);
        lemma_square_of_product(f.x, e.y);
        lemma_square_of_product(f.y, e.x);
        lemma_square_of_product(f.y, e.y);
        assert(xx * yy == xy * yx) by (nonlinear_arith)
            requires
                xx == f.x * e.x,
                yy == f.y * e.y,
                xy == f.x * e.y,
                yx == f.y * e.x,
        ;
        assert(d * d == xx * xx + 2 * (xx * yy) + yy * yy) by (nonlinear_arith)
            requires
                d == xx + yy,
        ;
        assert(c * c == xy * xy - 2 * (xy * yx) + yx * yx) by (nonlinear_arith)
            requires
                c == xy - yx,
        ;
        assert(ff * n - d * d == c * c);
        assert(c * c >= 0) by (nonlinear_arith);
        assert(d * d * n <= ff * n * n) by (nonlinear_arith)
            requires
                d * d <= ff * n,
                n > 0,
        ;
        let ss = s.magnitude2();
        assert(qx * qx + qy * qy == ss * n * n) by (nonlinear_arith)
            requires
                qx == n * s.x,
                qy == n * s.y,
                ss == s.x * s.x + s.y * s.y,
        ;
        assert(ss <= ff) by (nonlinear_arith)
            requires
                ss * n * n <= ff * n * n,
                n > 0,
        ;
    }
}

/// A vector no longer than one within `limit` has coordinates within twice
/// `limit`.
pub proof fn lemma_component_bound(v: Vec2, longer: Vec2, limit: int)
    requires
        limit >= 0,
        longer.within(limit),
        v.magnitude2() <= longer.magnitude2(),
    ensures
        v.within(2 * limit),
{
    let b = 2 * limit;
    lemma_product_bound(longer.x, longer.x, limit, limit);
    lemma_product_bound(longer.y, longer.y, limit, limit);
    assert(b * b >= 2 * (limit * limit)) by (nonlinear_arith)
        requires
            b == 2 * limit,
    ;
    assert(-b <= v.x <= b && -b <= v.y <= b) by (nonlinear_arith)
        requires
            v.x * v.x + v.y * v.y <= 2 * (limit * limit),
            b * b >= 2 * (limit * limit),
            b >= 0,
    ;
}

} // verus!

verus! {

/// The absolute value.
pub open spec fn abs(x: int) -> int {
    if x < 0 {
        -x
    } else {
        x
    }
}

/// Scaling a coordinate by a fraction that overshoots the unit interval by
/// at most `slack` parts of the denominator moves it at most `slack` further
/// than its own length, as long as the denominator is no less than the
/// coordinate.
pub proof fn lemma_scaled_with_slack(c: int, num: int, den: int, slack: int)
    requires
        den > 0,
        slack >= 0,
        -slack <= num <= den + slack,
        abs(c) <= den,
    ensures
        abs(div_toward_zero(c * num, den)) <= abs(c) + slack,
{
    let m = abs(c);
    let p = c * num;
    assert(abs(p) <= (m + slack) * den) by (nonlinear_arith)
        requires
            p == c * num,
            m == abs(c),
            m <= den,
            den > 0,
            slack >= 0,
            -slack <= num <= den + slack,
    ;
    let a = abs(p);
    assert(a / den <= m + slack) by (nonlinear_arith)
        requires
            0 <= a <= (m + slack) * den,
            den > 0,
    ;
    assert(a / den >= 0) by (nonlinear_arith)
        requires
            a >= 0,
            den > 0,
    ;
}

/// Scaling a coordinate by a fraction between zero and two at most doubles
/// it.
pub proof fn lemma_scaled_at_most_double(c: int, num: int, den: int)
    requires
        den > 0,
        0 <= num <= 2 * den,
    ensures
        abs(div_toward_zero(c * num, den)) <= 2 * abs(c),
{
    let m = abs(c);
    let p = c * num;
    assert(abs(p) <= (2 * m) * den) by (nonlinear_arith)
        requires
            p == c * num,
            m == abs(c),
            den > 0,
            0 <= num <= 2 * den,
    ;
    let a = abs(p);
    assert(a / den <= 2 * m) by (nonlinear_arith)
        requires
            0 <= a <= (2 * m) * den,
            den > 0,
    ;
    assert(a / den >= 0) by (nonlinear_arith)
        requires
            a >= 0,
            den > 0,
    ;
}

/// A projection on the line along `e` has no part square to `e` beyond what
/// the rounding leaves: its dot product with the normal of `e` is less than
/// the sum of the coordinates of `e`, and is zero where `e` runs along an
/// axis.
pub proof fn lemma_projection_is_along(f: Vec2, e: Vec2)
    ensures
        ({
            let s = f.projected_on(e);
            &&& abs(s.dot(e.rot90())) <= abs(e.x) + abs(e.y)
            &&& (!e.is_zero() ==> abs(s.dot(e.rot90())) < abs(e.x) + abs(e.y))
            &&& (e.x == 0 ==> s.x == 0)
            &&& (e.y == 0 ==> s.y == 0)
        }),
{
    if !e.is_zero() {
        let d = f.dot(e);
        let n = e.magnitude2();
        let s = f.projected_on(e);
        assert(n > 0) by (nonlinear_arith)
            requires
                n == e.x * e.x + e.y * e.y,
                e.x != 0 || e.y != 0,
        ;
        let px = e.x * d;
        let py = e.y * d;
        lemma_div_toward_zero_bounds(px, n);
        lemma_div_toward_zero_bounds(py, n);
        let rx = px - n * s.x;
        let ry = py - n * s.y;
        let across = s.dot(e.rot90());
        let nsx = n * s.x;
        let nsy = n * s.y;
        assert(n * across == nsy * e.x - nsx * e.y) by (nonlinear_arith)
            requires
                across == s.x * (-e.y) + s.y * e.x,
                nsx == n * s.x,
                nsy == n * s.y,
        ;
        assert(px * e.y == py * e.x) by (nonlinear_arith)
            requires
                px == e.x * d,
                py == e.y * d,
        ;
        assert(nsx * e.y == px * e.y - rx * e.y) by (nonlinear_arith)
            requires
                nsx == px - rx,
        ;
        assert(nsy * e.x == py * e.x - ry * e.x) by (nonlinear_arith)
            requires
                nsy == py - ry,
        ;
        assert(e.y * rx == rx * e.y && e.x * ry == ry * e.x) by (nonlinear_arith);
        assert(n * across == e.y * rx - e.x * ry);
        let bound = abs(e.x) + abs(e.y);
        assert(abs(e.y * rx) <= abs(e.y) * (n - 1)) by (nonlinear_arith)
            requires
                -n < rx < n,
        ;
        assert(abs(e.x * ry) <= abs(e.x) * (n - 1)) by (nonlinear_arith)
            requires
                -n < ry < n,
        ;
        assert(abs(e.y) * (n - 1) + abs(e.x) * (n - 1) == bound * (n - 1)) by (nonlinear_arith)
            requires
                bound == abs(e.x) + abs(e.y),
        ;
        assert(abs(across) < bound) by (nonlinear_arith)
            requires
                abs(n * across) <= bound * (n - 1),
                n > 0,
                bound > 0,
        ;
        if e.x == 0 {
            assert(px == 0) by (nonlinear_arith)
                requires
                    px == e.x * d,
                    e.x == 0,
            ;
        }
        if e.y == 0 {
            assert(py == 0) by (nonlinear_arith)
                requires
                    py == e.y * d,
                    e.y == 0,
            ;
        }
    }
}

} // verus!

//! Fixed-point 2D points and vectors.

use vstd::prelude::*;

verus! {

/// Fixed-point units in one map cell: every coordinate and vector component
/// counts `1 / ONE` of a cell.
pub const ONE: i64 = 65536;

/// Largest magnitude that a coordinate or a component may have.
pub const LIMIT: i64 = 0x1000_0000_0000;

pub open spec fn abs_int(v: int) -> int {
    if v < 0 {
        -v
    } else {
        v
    }
}

/// A component no longer than `n`, scaled by `len / n`, is no longer than
/// `len`.
proof fn lemma_scaled_le(a: int, len: int, n: int)
    requires
        -n <= a <= n,
        n >= 1,
    ensures
        -abs_int(len) <= a * len / n <= abs_int(len),
{
    if len >= 0 {
        assert(-len <= a * len / n <= len) by (nonlinear_arith)
            requires
                -n <= a <= n,
                n >= 1,
                len >= 0,
        ;
    } else {
        assert(len <= a * len / n <= -len) by (nonlinear_arith)
            requires
                -n <= a <= n,
                n >= 1,
                len < 0,
        ;
    }
}

/// `v` is within the coordinate range that the geometry accepts.
pub open spec fn bounded(v: int) -> bool {
    -LIMIT <= v <= LIMIT
}

/// `r` is the integer square root of `n`.
pub open spec fn is_sqrt(n: int, r: int) -> bool {
    0 <= r && r * r <= n < (r + 1) * (r + 1)
}

/// The integer square root of `n`.
pub open spec fn sqrt_spec(n: int) -> int {
    choose|r: int| is_sqrt(n, r)
}

/// The integer square root is unique.
pub proof fn lemma_sqrt_unique(n: int, r: int, s: int)
    requires
        is_sqrt(n, r),
        is_sqrt(n, s),
    ensures
        r == s,
{
    if r < s {
        assert((r + 1) * (r + 1) <= s * s) by (nonlinear_arith)
            requires
                0 <= r < s,
        ;
    } else if s < r {
        assert((s + 1) * (s + 1) <= r * r) by (nonlinear_arith)
            requires
                0 <= s < r,
        ;
    }
}

/// The square root of a perfect square is its base.
pub proof fn lemma_sqrt_of_square(a: int)
    requires
        0 <= a,
    ensures
        is_sqrt(a * a, a),
{
    assert(a * a < (a + 1) * (a + 1)) by (nonlinear_arith)
        requires
            0 <= a,
    ;
}

/// No component of a vector is longer than its rounded-down length.
proof fn lemma_component_le_sqrt(a: int, b: int, r: int)
    requires
        is_sqrt(a * a + b * b, r),
    ensures
        -r <= a <= r,
{
    assert(a * a < (r + 1) * (r + 1)) by (nonlinear_arith)
        requires
            a * a + b * b < (r + 1) * (r + 1),
    ;
    assert(-r <= a <= r) by (nonlinear_arith)
        requires
            a * a < (r + 1) * (r + 1),
            0 <= r,
    ;
}

/// Integer square root, rounded down.
pub fn isqrt(n: u128) -> (r: u64)
    requires
        n < 0x10_0000_0000_0000_0000_0000_0000,
    ensures
        is_sqrt(n as int, r as int),
        r == sqrt_spec(n as int),
{
    let mut lo: u128 = 0;
    let mut hi: u128 = 0x4_0000_0000_0000;
    assert(hi * hi == 0x10_0000_0000_0000_0000_0000_0000);
    while hi - lo > 1
        invariant
            lo < hi <= 0x4_0000_0000_0000,
            lo * lo <= n < hi * hi,
        decreases hi - lo,
    {
        let mid: u128 = lo + (hi - lo) / 2;
        assert(mid * mid <= 0x10_0000_0000_0000_0000_0000_0000) by (nonlinear_arith)
            requires
                mid <= 0x4_0000_0000_0000,
        ;
        if mid * mid <= n {
            lo = mid;
        } else {
            hi = mid;
        }
    }
    assert(hi == lo + 1);
    proof {
        lemma_sqrt_unique(n as int, lo as int, sqrt_spec(n as int));
    }
    lo as u64
}

/// A displacement in the plane.
#[derive(Debug, Clone, Copy, PartialEq, Eq, Structural)]
pub struct Vector2 {
    pub x: i64,
    pub y: i64,
}

/// A position in the plane.
#[derive(Debug, Clone, Copy, PartialEq, Eq, Structural)]
pub struct Point2 {
    pub x: i64,
    pub y: i64,
}

impl Vector2 {
    /// Both components are within `LIMIT`.
    pub open spec fn is_bounded(self) -> bool {
        bounded(self.x as int) && bounded(self.y as int)
    }

    pub open spec fn dot_spec(self, rhs: Vector2) -> int {
        self.x * rhs.x + self.y * rhs.y
    }

    pub open spec fn is_zero(self) -> bool {
        self.x == 0 && self.y == 0
    }

    pub fn new(x: i64, y: i64) -> (r: Vector2)
        ensures
            r.x == x && r.y == y,
    {
        Vector2 { x, y }
    }

    /// Dot product.
    pub fn dot(self, rhs: Vector2) -> (r: i128)
        requires
            self.is_bounded(),
            rhs.is_bounded(),
        ensures
            r == self.dot_spec(rhs),
    {
        assert(-0x100_0000_0000_0000_0000_0000 <= self.x * rhs.x <= 0x100_0000_0000_0000_0000_0000)
            by (nonlinear_arith)
            requires
                bounded(self.x as int),
                bounded(rhs.x as int),
        ;
        assert(-0x100_0000_0000_0000_0000_0000 <= self.y * rhs.y <= 0x100_0000_0000_0000_0000_0000)
            by (nonlinear_arith)
            requires
                bounded(self.y as int),
                bounded(rhs.y as int),
        ;
        self.x as i128 * rhs.x as i128 + self.y as i128 * rhs.y as i128
    }

    /// Euclidean length, rounded down.
    pub open spec fn norm_spec(self) -> int {
        choose|r: int| is_sqrt(self.dot_spec(self), r)
    }

    /// Euclidean length, rounded down, of a vector with components up to
    /// `8 * LIMIT`; no component is longer.
    pub fn norm(self) -> (r: i64)
        requires
            -8 * LIMIT <= self.x <= 8 * LIMIT,
            -8 * LIMIT <= self.y <= 8 * LIMIT,
        ensures
            r == self.norm_spec(),
            is_sqrt(self.dot_spec(self), r as int),
            0 <= r <= 16 * LIMIT,
            -r <= self.x <= r,
            -r <= self.y <= r,
    {
        assert(0 <= self.x * self.x <= 0x4000_0000_0000_0000_0000_0000) by (nonlinear_arith)
            requires
                -8 * LIMIT <= self.x <= 8 * LIMIT,
        ;
        assert(0 <= self.y * self.y <= 0x4000_0000_0000_0000_0000_0000) by (nonlinear_arith)
            requires
                -8 * LIMIT <= self.y <= 8 * LIMIT,
        ;
        let d: i128 = self.x as i128 * self.x as i128 + self.y as i128 * self.y as i128;
        let r = isqrt(d as u128);
        assert(r <= 16 * LIMIT) by (nonlinear_arith)
            requires
                r * r <= d,
                d <= 0x8000_0000_0000_0000_0000_0000,
                0 <= r,
        ;
        proof {
            lemma_component_le_sqrt(self.x as int, self.y as int, r as int);
            lemma_component_le_sqrt(self.y as int, self.x as int, r as int);
        }
        proof {
            let c = self.norm_spec();
            assert(is_sqrt(self.dot_spec(self), r as int));
            lemma_sqrt_unique(self.dot_spec(self), c, r as int);
        }
        r as i64
    }

    /// `(x, y) -> (-y, x)`: the vector turned a quarter turn.
    pub fn hat(self) -> (r: Vector2)
        requires
            self.is_bounded(),
        ensures
            r.x == -self.y && r.y == self.x,
    {
        Vector2 { x: -self.y, y: self.x }
    }

    pub fn neg(self) -> (r: Vector2)
        requires
            self.is_bounded(),
        ensures
            r.x == -self.x && r.y == -self.y,
    {
        Vector2 { x: -self.x, y: -self.y }
    }

    pub fn plus(self, rhs: Vector2) -> (r: Vector2)
        requires
            self.is_bounded(),
            rhs.is_bounded(),
        ensures
            r.x == self.x + rhs.x && r.y == self.y + rhs.y,
    {
        Vector2 { x: self.x + rhs.x, y: self.y + rhs.y }
    }

    pub fn minus(self, rhs: Vector2) -> (r: Vector2)
        requires
            self.is_bounded(),
            rhs.is_bounded(),
        ensures
            r.x == self.x - rhs.x && r.y == self.y - rhs.y,
    {
        Vector2 { x: self.x - rhs.x, y: self.y - rhs.y }
    }
}

impl Point2 {
    pub open spec fn is_bounded(self) -> bool {
        bounded(self.x as int) && bounded(self.y as int)
    }

    pub fn new(x: i64, y: i64) -> (r: Point2)
        ensures
            r.x == x && r.y == y,
    {
        Point2 { x, y }
    }

    /// The vector from `self` to `other`.
    pub fn vector_to(self, other: Point2) -> (r: Vector2)
        requires
            self.is_bounded(),
            other.is_bounded(),
        ensures
            r.x == other.x - self.x && r.y == other.y - self.y,
    {
        Vector2 { x: other.x - self.x, y: other.y - self.y }
    }

    /// The vector from `self` to `other`, for points within `3 * LIMIT`.
    pub fn vector_to_far(self, other: Point2) -> (r: Vector2)
        requires
            -3 * LIMIT <= self.x <= 3 * LIMIT,
            -3 * LIMIT <= self.y <= 3 * LIMIT,
            -3 * LIMIT <= other.x <= 3 * LIMIT,
            -3 * LIMIT <= other.y <= 3 * LIMIT,
        ensures
            r.x == other.x - self.x && r.y == other.y - self.y,
    {
        Vector2 { x: other.x - self.x, y: other.y - self.y }
    }

    /// `self` moved by `v`.
    pub fn offset(self, v: Vector2) -> (r: Point2)
        requires
            self.is_bounded(),
            v.is_bounded(),
        ensures
            r.x == self.x + v.x && r.y == self.y + v.y,
    {
        Point2 { x: self.x + v.x, y: self.y + v.y }
    }

    /// `self` moved by `-v`.
    pub fn back(self, v: Vector2) -> (r: Point2)
        requires
            self.is_bounded(),
            v.is_bounded(),
        ensures
            r.x == self.x - v.x && r.y == self.y - v.y,
    {
        Point2 { x: self.x - v.x, y: self.y - v.y }
    }
}

impl Vector2 {
    /// The projection of `self` onto `other`, each component rounded down;
    /// zero onto a zero vector.
    pub open spec fn proj_spec(self, other: Vector2) -> Vector2 {
        let n = other.dot_spec(other);
        if n == 0 {
            Vector2 { x: 0, y: 0 }
        } else {
            Vector2 {
                x: (self.dot_spec(other) * other.x / n) as i64,
                y: (self.dot_spec(other) * other.y / n) as i64,
            }
        }
    }

    /// Projection onto a direction: a vector no longer than one cell along
    /// each axis, such as a face normal or a view direction. Projecting onto
    /// a longer vector is projecting onto its direction scaled down to that
    /// size; the bound keeps `(self . other) * other` within 128 bits for
    /// every `self` the geometry produces.
    pub fn proj(self, other: Vector2) -> (r: Vector2)
        requires
            -0x4_0000_0000_0000 <= self.x <= 0x4_0000_0000_0000,
            -0x4_0000_0000_0000 <= self.y <= 0x4_0000_0000_0000,
            -ONE <= other.x <= ONE,
            -ONE <= other.y <= ONE,
        ensures
            r == self.proj_spec(other),
    {
        assert(0 <= other.x * other.x <= ONE * ONE && 0 <= other.y * other.y <= ONE * ONE)
            by (nonlinear_arith)
            requires
                -ONE <= other.x <= ONE,
                -ONE <= other.y <= ONE,
        ;
        let n: i128 = other.x as i128 * other.x as i128 + other.y as i128 * other.y as i128;
        if n == 0 {
            return Vector2 { x: 0, y: 0 };
        }
        assert(-0x4_0000_0000_0000_0000 <= self.x * other.x <= 0x4_0000_0000_0000_0000) by (nonlinear_arith)
            requires
                -0x4_0000_0000_0000 <= self.x <= 0x4_0000_0000_0000,
                -ONE <= other.x <= ONE,
        ;
        assert(-0x4_0000_0000_0000_0000 <= self.y * other.y <= 0x4_0000_0000_0000_0000) by (nonlinear_arith)
            requires
                -0x4_0000_0000_0000 <= self.y <= 0x4_0000_0000_0000,
                -ONE <= other.y <= ONE,
        ;
        let d: i128 = self.x as i128 * other.x as i128 + self.y as i128 * other.y as i128;
        assert(-0x8_0000_0000_0000_0000_0000 <= d * other.x <= 0x8_0000_0000_0000_0000_0000) by (nonlinear_arith)
            requires
                -0x8_0000_0000_0000_0000 <= d <= 0x8_0000_0000_0000_0000,
                -ONE <= other.x <= ONE,
        ;
        assert(-0x8_0000_0000_0000_0000_0000 <= d * other.y <= 0x8_0000_0000_0000_0000_0000) by (nonlinear_arith)
            requires
                -0x8_0000_0000_0000_0000 <= d <= 0x8_0000_0000_0000_0000,
                -ONE <= other.y <= ONE,
        ;
        assert(n > 0) by (nonlinear_arith)
            requires
                n == other.x * other.x + other.y * other.y,
                n != 0,
        ;
        let ex = d * other.x as i128;
        let ey = d * other.y as i128;
        assert(-0x8_0000_0000_0000_0000_0000 <= ex / n <= 0x8_0000_0000_0000_0000_0000) by (nonlinear_arith)
            requires
                -0x8_0000_0000_0000_0000_0000 <= ex <= 0x8_0000_0000_0000_0000_0000,
                n >= 1,
        ;
        assert(-0x8_0000_0000_0000_0000_0000 <= ey / n <= 0x8_0000_0000_0000_0000_0000) by (nonlinear_arith)
            requires
                -0x8_0000_0000_0000_0000_0000 <= ey <= 0x8_0000_0000_0000_0000_0000,
                n >= 1,
        ;
        let qx = ex.checked_div_euclid(n).unwrap();
        let qy = ey.checked_div_euclid(n).unwrap();
        Vector2 { x: #[verifier::truncate] (qx as i64), y: #[verifier::truncate] (qy as i64) }
    }
}

impl Vector2 {
    /// The vector scaled to length `len`, each component rounded down; zero
    /// for a zero vector.
    pub open spec fn set_len_spec(self, len: int) -> Vector2 {
        let n = self.norm_spec();
        if n == 0 {
            Vector2 { x: 0, y: 0 }
        } else {
            Vector2 { x: (self.x * len / n) as i64, y: (self.y * len / n) as i64 }
        }
    }

    pub fn set_len(self, len: i64) -> (r: Vector2)
        requires
            -4 * LIMIT <= self.x <= 4 * LIMIT,
            -4 * LIMIT <= self.y <= 4 * LIMIT,
            -4 * LIMIT <= len <= 4 * LIMIT,
        ensures
            r == self.set_len_spec(len as int),
            -abs_int(len as int) <= r.x <= abs_int(len as int),
            -abs_int(len as int) <= r.y <= abs_int(len as int),
    {
        let n = self.norm();
        if n == 0 {
            return Vector2 { x: 0, y: 0 };
        }
        assert(-0x1000_0000_0000_0000_0000_0000 <= self.x * len <= 0x1000_0000_0000_0000_0000_0000) by (nonlinear_arith)
            requires
                -4 * LIMIT <= self.x <= 4 * LIMIT,
                -4 * LIMIT <= len <= 4 * LIMIT,
        ;
        assert(-0x1000_0000_0000_0000_0000_0000 <= self.y * len <= 0x1000_0000_0000_0000_0000_0000) by (nonlinear_arith)
            requires
                -4 * LIMIT <= self.y <= 4 * LIMIT,
                -4 * LIMIT <= len <= 4 * LIMIT,
        ;
        let ex = self.x as i128 * len as i128;
        let ey = self.y as i128 * len as i128;
        assert(-0x1000_0000_0000_0000_0000_0000 <= (ex as int) / (n as int) <= 0x1000_0000_0000_0000_0000_0000) by (nonlinear_arith)
            requires
                -0x1000_0000_0000_0000_0000_0000 <= ex <= 0x1000_0000_0000_0000_0000_0000,
                n >= 1,
        ;
        assert(-0x1000_0000_0000_0000_0000_0000 <= (ey as int) / (n as int) <= 0x1000_0000_0000_0000_0000_0000) by (nonlinear_arith)
            requires
                -0x1000_0000_0000_0000_0000_0000 <= ey <= 0x1000_0000_0000_0000_0000_0000,
                n >= 1,
        ;
        let qx = ex.checked_div_euclid(n as i128).unwrap();
        let qy = ey.checked_div_euclid(n as i128).unwrap();
        proof {
            lemma_scaled_le(self.x as int, len as int, n as int);
            lemma_scaled_le(self.y as int, len as int, n as int);
        }
        Vector2 { x: #[verifier::truncate] (qx as i64), y: #[verifier::truncate] (qy as i64) }
    }
}

} // verus!

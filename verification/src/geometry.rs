//! Vectors, the cross and dot products, the integer square root, and
//! per-triangle area.

use vstd::prelude::*;

verus! {

/// Largest coordinate magnitude a mesh vertex may have.
pub const COORD_LIMIT: i64 = 0x3FFF_FFFF;

/// Largest component magnitude `cross` accepts without overflowing.
pub const CROSS_ARG_LIMIT: i64 = 0x7FFF_FFFF;

/// Largest component magnitude `dot` accepts without overflowing.
pub const DOT_ARG_LIMIT: i64 = 0x2000_0000_0000_0000;

/// A point or direction in space, one fixed-point integer per axis.
#[derive(Clone, Copy, Debug, PartialEq, Eq, Structural)]
pub struct Vec3 {
    pub x: i64,
    pub y: i64,
    pub z: i64,
}

/// A triangle given by its three vertices.
#[derive(Clone, Copy, Debug, PartialEq, Eq, Structural)]
pub struct Tri {
    pub v0: Vec3,
    pub v1: Vec3,
    pub v2: Vec3,
}

/// The mathematical value of a vector, as a triple of integers.
pub open spec fn v3(v: Vec3) -> (int, int, int) {
    (v.x as int, v.y as int, v.z as int)
}

pub open spec fn neg3(a: (int, int, int)) -> (int, int, int) {
    (-a.0, -a.1, -a.2)
}

pub open spec fn sub3(a: (int, int, int), b: (int, int, int)) -> (int, int, int) {
    (a.0 - b.0, a.1 - b.1, a.2 - b.2)
}

/// The cross product, by the standard determinant expansion.
pub open spec fn cross3(a: (int, int, int), b: (int, int, int)) -> (int, int, int) {
    (a.1 * b.2 - a.2 * b.1, a.2 * b.0 - a.0 * b.2, a.0 * b.1 - a.1 * b.0)
}

pub open spec fn dot3(a: (int, int, int), b: (int, int, int)) -> int {
    a.0 * b.0 + a.1 * b.1 + a.2 * b.2
}

pub open spec fn norm_sq3(a: (int, int, int)) -> int {
    dot3(a, a)
}

impl Vec3 {
    /// Every component lies within `lim` of zero.
    pub open spec fn bounded(self, lim: int) -> bool {
        &&& -lim <= self.x <= lim
        &&& -lim <= self.y <= lim
        &&& -lim <= self.z <= lim
    }
}

impl Tri {
    /// Every vertex component lies within `lim` of zero.
    pub open spec fn bounded(self, lim: int) -> bool {
        self.v0.bounded(lim) && self.v1.bounded(lim) && self.v2.bounded(lim)
    }
}

/// A product of bounded factors is bounded by the product of the bounds.
pub proof fn lemma_mul_le(a: int, b: int, m: int, n: int)
    by (nonlinear_arith)
    requires
        -m <= a <= m,
        -n <= b <= n,
        0 <= m,
        0 <= n,
    ensures
        -(m * n) <= a * b <= m * n,
{
}

/// Cross product of two vectors.
pub fn cross(a: Vec3, b: Vec3) -> (r: Vec3)
    requires
        a.bounded(CROSS_ARG_LIMIT as int),
        b.bounded(CROSS_ARG_LIMIT as int),
    ensures
        v3(r) == cross3(v3(a), v3(b)),
{
    proof {
        lemma_mul_le(a.y as int, b.z as int, 0x7FFF_FFFF, 0x7FFF_FFFF);
        lemma_mul_le(a.z as int, b.y as int, 0x7FFF_FFFF, 0x7FFF_FFFF);
        lemma_mul_le(a.z as int, b.x as int, 0x7FFF_FFFF, 0x7FFF_FFFF);
        lemma_mul_le(a.x as int, b.z as int, 0x7FFF_FFFF, 0x7FFF_FFFF);
        lemma_mul_le(a.x as int, b.y as int, 0x7FFF_FFFF, 0x7FFF_FFFF);
        lemma_mul_le(a.y as int, b.x as int, 0x7FFF_FFFF, 0x7FFF_FFFF);
    }
    let x = a.y * b.z - a.z * b.y;
    let y = a.z * b.x - a.x * b.z;
    let z = a.x * b.y - a.y * b.x;
    Vec3 { x, y, z }
}

/// Dot product of two vectors.
pub fn dot(a: Vec3, b: Vec3) -> (r: i128)
    requires
        a.bounded(DOT_ARG_LIMIT as int),
        b.bounded(DOT_ARG_LIMIT as int),
    ensures
        r == dot3(v3(a), v3(b)),
{
    proof {
        lemma_mul_le(a.x as int, b.x as int, 0x2000_0000_0000_0000, 0x2000_0000_0000_0000);
        lemma_mul_le(a.y as int, b.y as int, 0x2000_0000_0000_0000, 0x2000_0000_0000_0000);
        lemma_mul_le(a.z as int, b.z as int, 0x2000_0000_0000_0000, 0x2000_0000_0000_0000);
    }
    (a.x as i128) * (b.x as i128) + (a.y as i128) * (b.y as i128) + (a.z as i128) * (b.z as i128)
}

/// The floor of the square root of `n`.
pub open spec fn sqrt_floor(n: nat) -> nat
    decreases n,
{
    if n == 0 {
        0
    } else {
        let r = sqrt_floor((n - 1) as nat);
        if (r + 1) * (r + 1) <= n {
            r + 1
        } else {
            r
        }
    }
}

/// `sqrt_floor(n)` is the largest integer whose square is at most `n`.
pub proof fn lemma_sqrt_floor_bounds(n: nat)
    ensures
        sqrt_floor(n) * sqrt_floor(n) <= n,
        n < (sqrt_floor(n) + 1) * (sqrt_floor(n) + 1),
    decreases n,
{
    if n == 0 {
        assert(sqrt_floor(0) == 0);
        assert((sqrt_floor(n) + 1) * (sqrt_floor(n) + 1) == 1) by (nonlinear_arith)
            requires
                sqrt_floor(n) == 0,
        ;
    } else {
        lemma_sqrt_floor_bounds((n - 1) as nat);
        let r = sqrt_floor((n - 1) as nat);
        assert(r * r <= n - 1);
        assert(n - 1 < (r + 1) * (r + 1));
        if (r + 1) * (r + 1) <= n {
            assert(sqrt_floor(n) == r + 1);
            assert((r + 2) * (r + 2) == (r + 1) * (r + 1) + 2 * r + 3) by (nonlinear_arith);
            assert(n < (r + 2) * (r + 2));
        } else {
            assert(sqrt_floor(n) == r);
        }
    }
}

/// Any integer bracketed by the defining squares is the floor square root.
pub proof fn lemma_sqrt_floor_unique(n: nat, r: nat)
    requires
        r * r <= n,
        n < (r + 1) * (r + 1),
    ensures
        r == sqrt_floor(n),
{
    let s = sqrt_floor(n);
    lemma_sqrt_floor_bounds(n);
    if r < s {
        assert((r + 1) * (r + 1) <= s * s) by (nonlinear_arith)
            requires
                r + 1 <= s,
                0 <= r,
        ;
    }
    if s < r {
        assert((s + 1) * (s + 1) <= r * r) by (nonlinear_arith)
            requires
                s + 1 <= r,
                0 <= s,
        ;
    }
}

/// Floor integer square root, by binary search.
pub fn isqrt(n: u128) -> (r: u64)
    ensures
        r == sqrt_floor(n as nat),
{
    let mut lo: u128 = 0;
    let mut hi: u128 = 0x1_0000_0000_0000_0000;
    while lo + 1 < hi
        invariant
            lo < hi <= 0x1_0000_0000_0000_0000,
            (lo as int) * (lo as int) <= n as int,
            (n as int) < (hi as int) * (hi as int),
        decreases hi - lo,
    {
        let mid = lo + (hi - lo) / 2;
        assert((mid as int) * (mid as int) <= 0xFFFF_FFFF_FFFF_FFFF * 0xFFFF_FFFF_FFFF_FFFF)
            by (nonlinear_arith)
            requires
                0 <= mid <= 0xFFFF_FFFF_FFFF_FFFF,
        ;
        if mid * mid <= n {
            lo = mid;
        } else {
            hi = mid;
        }
    }
    proof {
        lemma_sqrt_floor_unique(n as nat, lo as nat);
    }
    lo as u64
}

/// Euclidean length of a vector, rounded down to an integer.
pub fn norm(v: Vec3) -> (r: u64)
    ensures
        r == sqrt_floor(norm_sq3(v3(v)) as nat),
        r * r <= norm_sq3(v3(v)) < (r + 1) * (r + 1),
{
    proof {
        lemma_mul_le(v.x as int, v.x as int, 0x8000_0000_0000_0000, 0x8000_0000_0000_0000);
        lemma_mul_le(v.y as int, v.y as int, 0x8000_0000_0000_0000, 0x8000_0000_0000_0000);
        lemma_mul_le(v.z as int, v.z as int, 0x8000_0000_0000_0000, 0x8000_0000_0000_0000);
        assert((v.x as int) * (v.x as int) >= 0) by (nonlinear_arith);
        assert((v.y as int) * (v.y as int) >= 0) by (nonlinear_arith);
        assert((v.z as int) * (v.z as int) >= 0) by (nonlinear_arith);
    }
    let xx: i128 = (v.x as i128) * (v.x as i128);
    let yy: i128 = (v.y as i128) * (v.y as i128);
    let zz: i128 = (v.z as i128) * (v.z as i128);
    let s: u128 = (xx as u128) + (yy as u128) + (zz as u128);
    let r = isqrt(s);
    proof {
        lemma_sqrt_floor_bounds(s as nat);
    }
    r
}

/// Twice the area of a triangle: the floor length of the cross product of
/// two of its edge vectors.
pub open spec fn tri_area2(t: Tri) -> int {
    sqrt_floor(
        norm_sq3(cross3(sub3(v3(t.v1), v3(t.v0)), sub3(v3(t.v2), v3(t.v0)))) as nat,
    ) as int
}

/// Area of a triangle, as the exact rational `num / 2` where `num` is the
/// floor length of the edge cross product.
pub fn calculate_triangle_area(triangle: Tri) -> (r: crate::Ratio)
    requires
        triangle.bounded(COORD_LIMIT as int),
    ensures
        r.num == tri_area2(triangle),
        r.den == 2,
        0 <= r.num < 0x1_0000_0000_0000_0000,
{
    let a = triangle.v0;
    let b = triangle.v1;
    let c = triangle.v2;
    let ab = Vec3 { x: b.x - a.x, y: b.y - a.y, z: b.z - a.z };
    let ac = Vec3 { x: c.x - a.x, y: c.y - a.y, z: c.z - a.z };
    let cr = cross(ab, ac);
    let n = norm(cr);
    crate::Ratio { num: n as i128, den: 2 }
}

/// Law: a degenerate triangle, one with two equal vertices, has zero area.
pub proof fn lemma_degenerate_triangle_area(t: Tri)
    requires
        t.v0 == t.v1 || t.v1 == t.v2 || t.v0 == t.v2,
    ensures
        tri_area2(t) == 0,
{
    let e1 = sub3(v3(t.v1), v3(t.v0));
    let e2 = sub3(v3(t.v2), v3(t.v0));
    if t.v0 == t.v1 {
        assert(e1.1 * e2.2 - e1.2 * e2.1 == 0 && e1.2 * e2.0 - e1.0 * e2.2 == 0 && e1.0 * e2.1
            - e1.1 * e2.0 == 0) by (nonlinear_arith)
            requires
                e1.0 == 0,
                e1.1 == 0,
                e1.2 == 0,
        ;
    } else if t.v0 == t.v2 {
        assert(e1.1 * e2.2 - e1.2 * e2.1 == 0 && e1.2 * e2.0 - e1.0 * e2.2 == 0 && e1.0 * e2.1
            - e1.1 * e2.0 == 0) by (nonlinear_arith)
            requires
                e2.0 == 0,
                e2.1 == 0,
                e2.2 == 0,
        ;
    } else {
        assert(e1.1 * e2.2 - e1.2 * e2.1 == 0 && e1.2 * e2.0 - e1.0 * e2.2 == 0 && e1.0 * e2.1
            - e1.1 * e2.0 == 0) by (nonlinear_arith)
            requires
                e1.0 == e2.0,
                e1.1 == e2.1,
                e1.2 == e2.2,
        ;
    }
    assert(cross3(e1, e2) == (0int, 0int, 0int));
    assert(norm_sq3((0int, 0int, 0int)) == 0);
    assert(sqrt_floor(0) == 0);
}

/// Law: the cross product is anti-commutative, for all vectors.
pub proof fn lemma_cross_anticommutative(a: Vec3, b: Vec3)
    ensures
        cross3(v3(a), v3(b)) == neg3(cross3(v3(b), v3(a))),
{
    let p = v3(a);
    let q = v3(b);
    assert(p.1 * q.2 - p.2 * q.1 == -(q.1 * p.2 - q.2 * p.1)) by (nonlinear_arith);
    assert(p.2 * q.0 - p.0 * q.2 == -(q.2 * p.0 - q.0 * p.2)) by (nonlinear_arith);
    assert(p.0 * q.1 - p.1 * q.0 == -(q.0 * p.1 - q.1 * p.0)) by (nonlinear_arith);
}

/// The smallest element of a sequence, counting from an initial 0.
pub open spec fn low_fold(s: Seq<i64>) -> int
    decreases s.len(),
{
    if s.len() == 0 {
        0
    } else {
        let m = low_fold(s.drop_last());
        if s.last() < m {
            s.last() as int
        } else {
            m
        }
    }
}

/// The largest element of a sequence, counting from an initial 0.
pub open spec fn high_fold(s: Seq<i64>) -> int
    decreases s.len(),
{
    if s.len() == 0 {
        0
    } else {
        let m = high_fold(s.drop_last());
        if s.last() > m {
            s.last() as int
        } else {
            m
        }
    }
}

/// The least and greatest elements of `array`, both clamped toward zero:
/// an all-positive array reports a least element of 0, an all-negative one
/// a greatest element of 0.
pub fn minmax(array: Vec<i64>) -> (r: (i64, i64))
    ensures
        r.0 == low_fold(array@),
        r.1 == high_fold(array@),
{
    let mut min: i64 = 0;
    let mut max: i64 = 0;
    let n = array.len();
    for i in 0..n
        invariant
            n == array@.len(),
            min == low_fold(array@.take(i as int)),
            max == high_fold(array@.take(i as int)),
            min <= 0 <= max,
    {
        let item = array[i];
        proof {
            assert(array@.take(i + 1).drop_last() =~= array@.take(i as int));
            assert(array@.take(i + 1).last() == array@[i as int]);
        }
        if item < min {
            min = item;
        } else if item > max {
            max = item;
        }
    }
    proof {
        assert(array@.take(n as int) =~= array@);
    }
    (min, max)
}

} // verus!

//! Integer 2D geometry for the simulation.
//!
//! All coordinates are in subunits (`SUBUNITS_PER_UNIT` per world unit), so
//! every geometric computation is exact integer arithmetic: distances round
//! up to the next whole subunit and scaled divisions truncate toward zero.

use vstd::prelude::*;

verus! {

/// Greatest magnitude a world coordinate may take, in subunits.
pub const MAX_COORD: i64 = 1_000_000_000;

/// Greatest movement speed any unit may have, in subunits per second.
pub const MAX_SPEED: i64 = 1_000_000;

/// Greatest hitbox or attack-range radius, in subunits.
pub const MAX_RADIUS: i64 = 1_000_000;

/// A 2D point in world space, in subunits.
#[derive(Clone, Copy, Debug, PartialEq, Eq)]
pub struct Point {
    pub x: i64,
    pub y: i64,
}

/// A 2D displacement in world space, in subunits.
#[derive(Clone, Copy, Debug, PartialEq, Eq)]
pub struct Vector {
    pub x: i64,
    pub y: i64,
}

pub open spec fn in_coord_range(v: int) -> bool {
    -MAX_COORD <= v <= MAX_COORD
}

pub open spec fn wf_point(p: Point) -> bool {
    in_coord_range(p.x as int) && in_coord_range(p.y as int)
}

pub open spec fn sq(x: int) -> int {
    x * x
}

pub open spec fn iabs(x: int) -> int {
    if x >= 0 {
        x
    } else {
        -x
    }
}

/// Division that truncates toward zero, for a positive divisor.
pub open spec fn trunc_div(a: int, b: int) -> int
    recommends
        b > 0,
{
    if a >= 0 {
        a / b
    } else {
        -((-a) / b)
    }
}

/// Clamp a coordinate into the world's coordinate range.
pub open spec fn clamp_coord_spec(v: int) -> int {
    if v < -MAX_COORD {
        -MAX_COORD as int
    } else if v > MAX_COORD {
        MAX_COORD as int
    } else {
        v
    }
}

/// `r` is the least nonnegative integer whose square is at least `n`.
pub open spec fn is_sqrt_ceil(n: int, r: int) -> bool {
    0 <= r && n <= r * r && (r == 0 || (r - 1) * (r - 1) < n)
}

pub open spec fn sqrt_from(n: int, r: int) -> int
    decreases n - r,
    when 0 <= r
    via sqrt_from_decreases
{
    if r * r >= n {
        r
    } else {
        sqrt_from(n, r + 1)
    }
}

#[via_fn]
proof fn sqrt_from_decreases(n: int, r: int) {
    if r * r < n {
        assert(r < n) by (nonlinear_arith)
            requires
                0 <= r,
                r * r < n,
        ;
    }
}

/// The distance model used throughout: square roots round up.
pub open spec fn sqrt_ceil_spec(n: int) -> int {
    sqrt_from(n, 0)
}

proof fn lemma_sqrt_from(n: int, r: int)
    requires
        0 <= r,
        r == 0 || (r - 1) * (r - 1) < n,
    ensures
        is_sqrt_ceil(n, sqrt_from(n, r)),
        sqrt_from(n, r) >= r,
    decreases n - r,
{
    if r * r >= n {
    } else {
        assert(r < n) by (nonlinear_arith)
            requires
                0 <= r,
                r * r < n,
        ;
        lemma_sqrt_from(n, r + 1);
    }
}

pub proof fn lemma_sqrt_ceil_spec(n: int)
    ensures
        is_sqrt_ceil(n, sqrt_ceil_spec(n)),
{
    lemma_sqrt_from(n, 0);
}

pub proof fn lemma_sqrt_ceil_unique(n: int, a: int, b: int)
    requires
        is_sqrt_ceil(n, a),
        is_sqrt_ceil(n, b),
    ensures
        a == b,
{
    if a < b {
        assert(b >= 1);
        assert(a * a <= (b - 1) * (b - 1)) by (nonlinear_arith)
            requires
                0 <= a,
                a <= b - 1,
        ;
    }
    if b < a {
        assert(a >= 1);
        assert(b * b <= (a - 1) * (a - 1)) by (nonlinear_arith)
            requires
                0 <= b,
                b <= a - 1,
        ;
    }
}

/// A square root is bounded by any bound whose square covers the radicand.
pub proof fn lemma_sqrt_ceil_le(n: int, bound: int)
    requires
        0 <= bound,
        n <= bound * bound,
    ensures
        sqrt_ceil_spec(n) <= bound,
{
    lemma_sqrt_ceil_spec(n);
    let r = sqrt_ceil_spec(n);
    if r > bound {
        assert(bound * bound <= (r - 1) * (r - 1)) by (nonlinear_arith)
            requires
                0 <= bound,
                bound <= r - 1,
        ;
        assert((r - 1) * (r - 1) < n);
    }
}

/// The square root of an exact square is exact.
pub proof fn lemma_sqrt_ceil_exact(k: int)
    requires
        0 <= k,
    ensures
        sqrt_ceil_spec(k * k) == k,
{
    lemma_sqrt_ceil_spec(k * k);
    if k > 0 {
        assert((k - 1) * (k - 1) < k * k) by (nonlinear_arith)
            requires
                1 <= k,
        ;
    }
    assert(is_sqrt_ceil(k * k, k));
    lemma_sqrt_ceil_unique(k * k, sqrt_ceil_spec(k * k), k);
}

/// Least `r` with `r * r >= n`, by binary search.
pub fn sqrt_ceil(n: u64) -> (r: u64)
    requires
        n <= 8_000_000_000_000_000_000u64,
    ensures
        r as int == sqrt_ceil_spec(n as int),
        is_sqrt_ceil(n as int, r as int),
        r <= 3_000_000_000u64,
{
    let mut lo: u64 = 0;
    let mut hi: u64 = 3_000_000_000;
    assert(3_000_000_000int * 3_000_000_000int == 9_000_000_000_000_000_000int) by (nonlinear_arith);
    while lo < hi
        invariant
            lo <= hi <= 3_000_000_000u64,
            n as int <= (hi as int) * (hi as int),
            lo == 0 || ((lo - 1) as int) * ((lo - 1) as int) < n as int,
        decreases hi - lo,
    {
        let mid: u64 = lo + (hi - lo) / 2;
        assert((mid as int) * (mid as int) <= 9_000_000_000_000_000_000int) by (nonlinear_arith)
            requires
                mid <= 3_000_000_000u64,
        ;
        let sq_mid: u64 = mid * mid;
        if sq_mid >= n {
            hi = mid;
        } else {
            lo = mid + 1;
        }
    }
    proof {
        assert(is_sqrt_ceil(n as int, lo as int));
        lemma_sqrt_ceil_spec(n as int);
        lemma_sqrt_ceil_unique(n as int, lo as int, sqrt_ceil_spec(n as int));
    }
    lo
}

/// A square is the square of the magnitude, and never negative.
pub proof fn lemma_sq_abs(x: int)
    ensures
        sq(x) == iabs(x) * iabs(x),
        sq(x) >= 0,
{
    assert(x * x == iabs(x) * iabs(x) && x * x >= 0) by (nonlinear_arith);
}

/// Truncating division shrinks magnitudes: `|trunc(a / b)| * b <= |a|`.
pub proof fn lemma_trunc_div_mag(a: int, b: int)
    requires
        b > 0,
    ensures
        iabs(trunc_div(a, b)) == iabs(a) / b,
        iabs(trunc_div(a, b)) * b <= iabs(a),
        iabs(trunc_div(a, b)) <= iabs(a),
        a >= 0 ==> trunc_div(a, b) >= 0,
{
    let m = iabs(a);
    vstd::arithmetic::div_mod::lemma_remainder_lower(m, b);
    vstd::arithmetic::div_mod::lemma_div_pos_is_pos(m, b);
    let q = m / b;
    assert(iabs(trunc_div(a, b)) == q);
    assert(q <= m) by (nonlinear_arith)
        requires
            b >= 1,
            m >= 0,
            q >= 0,
            q * b <= m,
    ;
}

/// `trunc(a * num / den)`, computed without overflow on magnitudes.
pub fn mul_div_trunc(a: i64, num: i64, den: i64) -> (r: i64)
    requires
        den > 0,
        a != i64::MIN,
        num != i64::MIN,
        iabs(a as int) * iabs(num as int) <= i64::MAX as int,
    ensures
        r as int == trunc_div(a as int * num as int, den as int),
        iabs(r as int) * (den as int) <= iabs(a as int) * iabs(num as int),
{
    let ghost ai: int = a as int;
    let ghost ni: int = num as int;
    let neg: bool = (a < 0) != (num < 0);
    let aa: u64 = if a < 0 {
        (-a) as u64
    } else {
        a as u64
    };
    let nn: u64 = if num < 0 {
        (-num) as u64
    } else {
        num as u64
    };
    proof {
        assert(aa as int == iabs(ai));
        assert(nn as int == iabs(ni));
        assert(aa as int * nn as int == iabs(ai) * iabs(ni));
    }
    let p: u64 = aa * nn;
    let q: u64 = p / (den as u64);
    proof {
        assert(q as int == (p as int) / (den as int));
        assert(q <= p) by (nonlinear_arith)
            requires
                den >= 1,
                q as int == (p as int) / (den as int),
                p >= 0,
        ;
    }
    let qi: i64 = q as i64;
    proof {
        assert(ai * ni == if (ai < 0) != (ni < 0) {
            -(iabs(ai) * iabs(ni))
        } else {
            iabs(ai) * iabs(ni)
        }) by (nonlinear_arith);
        assert((q as int) * (den as int) <= p as int) by (nonlinear_arith)
            requires
                den >= 1,
                q as int == (p as int) / (den as int),
                p >= 0,
        ;
    }
    if neg {
        proof {
            if p == 0 {
                assert(ai * ni == 0);
                assert(trunc_div(0, den as int) == 0);
            } else {
                assert(ai * ni == -(p as int));
                assert(trunc_div(ai * ni, den as int) == -((p as int) / (den as int)));
            }
        }
        -qi
    } else {
        proof {
            assert(ai * ni == p as int);
        }
        qi
    }
}

/// Clamp a coordinate into the world's coordinate range.
pub fn clamp_coord(v: i64) -> (r: i64)
    ensures
        r as int == clamp_coord_spec(v as int),
        in_coord_range(r as int),
{
    if v < -MAX_COORD {
        -MAX_COORD
    } else if v > MAX_COORD {
        MAX_COORD
    } else {
        v
    }
}

impl Point {
    pub fn new(x: i64, y: i64) -> (p: Point)
        ensures
            p == (Point { x, y }),
    {
        Point { x, y }
    }

    /// The displacement from `self` to `other`.
    pub fn vector_to(self, other: Point) -> (v: Vector)
        requires
            wf_point(self),
            wf_point(other),
        ensures
            v.x as int == other.x - self.x,
            v.y as int == other.y - self.y,
    {
        Vector { x: other.x - self.x, y: other.y - self.y }
    }

    /// Distance to `p` in subunits, rounded up to the next whole subunit.
    pub fn distance_to(self, p: Point) -> (d: i64)
        requires
            wf_point(self),
            wf_point(p),
        ensures
            d as int == sqrt_ceil_spec(sq(p.x - self.x) + sq(p.y - self.y)),
            0 <= d <= 3_000_000_000i64,
    {
        let v = self.vector_to(p);
        v.norm()
    }
}

impl Vector {
    /// The squared length of the vector.
    pub fn norm_sq(self) -> (n: i64)
        requires
            iabs(self.x as int) <= 2 * MAX_COORD,
            iabs(self.y as int) <= 2 * MAX_COORD,
        ensures
            n as int == sq(self.x as int) + sq(self.y as int),
            0 <= n <= 8_000_000_000_000_000_000i64,
    {
        proof {
            assert(sq(self.x as int) <= 4_000_000_000_000_000_000int && sq(self.x as int) >= 0)
                by (nonlinear_arith)
                requires
                    iabs(self.x as int) <= 2_000_000_000int,
            ;
            assert(sq(self.y as int) <= 4_000_000_000_000_000_000int && sq(self.y as int) >= 0)
                by (nonlinear_arith)
                requires
                    iabs(self.y as int) <= 2_000_000_000int,
            ;
        }
        self.x * self.x + self.y * self.y
    }

    /// The length of the vector, rounded up to the next whole subunit.
    pub fn norm(self) -> (n: i64)
        requires
            iabs(self.x as int) <= 2 * MAX_COORD,
            iabs(self.y as int) <= 2 * MAX_COORD,
        ensures
            n as int == sqrt_ceil_spec(sq(self.x as int) + sq(self.y as int)),
            0 <= n <= 3_000_000_000i64,
    {
        let nsq: i64 = self.norm_sq();
        let r: u64 = sqrt_ceil(nsq as u64);
        r as i64
    }
}

} // verus!

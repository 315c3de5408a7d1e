//! Plane geometry over integer fixed-point coordinates.
//!
//! Every position the network works with lies within `MAX_COORD` of the
//! origin on both axes; that bound keeps all derived arithmetic (squared
//! distances, segment projections) inside `i64` without overflow.

use vstd::prelude::*;

verus! {

/// Half-width of the coordinate space, in fixed-point units.
pub const MAX_COORD: i64 = 500_000;

/// A point or direction in the plane.
#[derive(Copy, Clone, Debug, PartialEq, Eq, Hash, Structural)]
pub struct Vec2 {
    pub x: i64,
    pub y: i64,
}

pub open spec fn coord_ok(c: int) -> bool {
    -MAX_COORD <= c <= MAX_COORD
}

/// Squared distance between two points.
pub open spec fn spec_dist2(a: Vec2, b: Vec2) -> int {
    (a.x - b.x) * (a.x - b.x) + (a.y - b.y) * (a.y - b.y)
}

/// `d * num / den` for `0 <= num <= den`, with the division applied to a
/// non-negative quantity so that executable (truncating) and mathematical
/// (euclidean) division agree.
pub open spec fn spec_muldiv(d: int, num: int, den: int) -> int {
    if d >= 0 {
        d * num / den
    } else {
        -((-d) * num / den)
    }
}

/// The nearest point to `p` on the segment from `a` to `b`, rounded to
/// integer coordinates (the degenerate segment projects to `a`).
pub open spec fn spec_proj_on_segment(a: Vec2, b: Vec2, p: Vec2) -> Vec2 {
    let den = spec_dist2(a, b);
    if den == 0 {
        a
    } else {
        let dot = (p.x - a.x) * (b.x - a.x) + (p.y - a.y) * (b.y - a.y);
        let num = if dot < 0 {
            0int
        } else if dot > den {
            den
        } else {
            dot
        };
        Vec2 {
            x: (a.x + spec_muldiv(b.x - a.x, num, den)) as i64,
            y: (a.y + spec_muldiv(b.y - a.y, num, den)) as i64,
        }
    }
}

impl Vec2 {
    pub open spec fn in_bounds(self) -> bool {
        coord_ok(self.x as int) && coord_ok(self.y as int)
    }

    pub fn new(x: i64, y: i64) -> (v: Vec2)
        ensures
            v == (Vec2 { x, y }),
    {
        Vec2 { x, y }
    }

    pub fn add(self, o: Vec2) -> (r: Vec2)
        requires
            self.in_bounds(),
            o.in_bounds(),
        ensures
            r == (Vec2 { x: (self.x + o.x) as i64, y: (self.y + o.y) as i64 }),
    {
        Vec2 { x: self.x + o.x, y: self.y + o.y }
    }

    pub fn sub(self, o: Vec2) -> (r: Vec2)
        requires
            self.in_bounds(),
            o.in_bounds(),
        ensures
            r == (Vec2 { x: (self.x - o.x) as i64, y: (self.y - o.y) as i64 }),
    {
        Vec2 { x: self.x - o.x, y: self.y - o.y }
    }

    /// Componentwise midpoint, rounded toward negative infinity.
    pub fn mid(self, o: Vec2) -> (r: Vec2)
        requires
            self.in_bounds(),
            o.in_bounds(),
        ensures
            r == (Vec2 { x: ((self.x + o.x) / 2) as i64, y: ((self.y + o.y) / 2) as i64 }),
            self.in_bounds() && o.in_bounds() ==> r.in_bounds(),
    {
        Vec2 { x: half_floor(self.x + o.x), y: half_floor(self.y + o.y) }
    }

    pub fn dist2(self, o: Vec2) -> (r: i64)
        requires
            self.in_bounds(),
            o.in_bounds(),
        ensures
            r == spec_dist2(self, o),
            r >= 0,
    {
        proof {
            lemma_bounded_products(self.x - o.x, self.x - o.x);
            lemma_bounded_products(self.y - o.y, self.y - o.y);
        }
        let dx = self.x - o.x;
        let dy = self.y - o.y;
        dx * dx + dy * dy
    }

    /// Whether `o` lies within distance `d` of `self` (compared on squares).
    pub fn is_close(self, o: Vec2, d: i64) -> (r: bool)
        requires
            self.in_bounds(),
            o.in_bounds(),
            0 <= d <= MAX_COORD,
        ensures
            r <==> spec_dist2(self, o) <= d * d,
    {
        proof {
            lemma_bounded_products(d as int, d as int);
        }
        self.dist2(o) <= d * d
    }
}

/// Floor division by two (mathematical division rounds toward negative
/// infinity, which truncating division only does for non-negative values).
fn half_floor(v: i64) -> (r: i64)
    requires
        -4 * MAX_COORD <= v <= 4 * MAX_COORD,
    ensures
        r == v as int / 2,
{
    if v >= 0 {
        v / 2
    } else {
        -((-v + 1) / 2)
    }
}

/// An axis-aligned bounding box given by its two corners.
#[derive(Copy, Clone, Debug, PartialEq, Eq, Structural)]
pub struct AABB {
    pub lo: Vec2,
    pub hi: Vec2,
}

impl AABB {
    pub open spec fn wf(self) -> bool {
        &&& self.lo.in_bounds()
        &&& self.hi.in_bounds()
        &&& self.lo.x <= self.hi.x
        &&& self.lo.y <= self.hi.y
    }

    pub open spec fn spec_contains(self, p: Vec2) -> bool {
        self.lo.x <= p.x <= self.hi.x && self.lo.y <= p.y <= self.hi.y
    }

    pub open spec fn spec_intersects(self, o: AABB) -> bool {
        self.lo.x <= o.hi.x && o.lo.x <= self.hi.x && self.lo.y <= o.hi.y && o.lo.y <= self.hi.y
    }

    /// The box around both corner points, whatever their order.
    pub fn around(a: Vec2, b: Vec2) -> (r: AABB)
        requires
            a.in_bounds(),
            b.in_bounds(),
        ensures
            r.wf(),
            r.spec_contains(a),
            r.spec_contains(b),
    {
        AABB {
            lo: Vec2 { x: if a.x < b.x { a.x } else { b.x }, y: if a.y < b.y { a.y } else { b.y } },
            hi: Vec2 { x: if a.x > b.x { a.x } else { b.x }, y: if a.y > b.y { a.y } else { b.y } },
        }
    }

    /// The box extended by `m` on every side, clamped to the coordinate space.
    pub open spec fn spec_inflate(self, m: i64) -> AABB {
        AABB {
            lo: Vec2 {
                x: if self.lo.x - m < -MAX_COORD { (-MAX_COORD) as i64 } else { (self.lo.x - m) as i64 },
                y: if self.lo.y - m < -MAX_COORD { (-MAX_COORD) as i64 } else { (self.lo.y - m) as i64 },
            },
            hi: Vec2 {
                x: if self.hi.x + m > MAX_COORD { MAX_COORD as i64 } else { (self.hi.x + m) as i64 },
                y: if self.hi.y + m > MAX_COORD { MAX_COORD as i64 } else { (self.hi.y + m) as i64 },
            },
        }
    }

    /// The box extended by `m` on every side, clamped to the coordinate space.
    pub fn inflate(self, m: i64) -> (r: AABB)
        requires
            self.wf(),
            0 <= m <= MAX_COORD,
        ensures
            r == self.spec_inflate(m),
            r.wf(),
            forall|p: Vec2| self.spec_contains(p) ==> r.spec_contains(p),
    {
        AABB {
            lo: Vec2 {
                x: if self.lo.x - m < -MAX_COORD { -MAX_COORD } else { self.lo.x - m },
                y: if self.lo.y - m < -MAX_COORD { -MAX_COORD } else { self.lo.y - m },
            },
            hi: Vec2 {
                x: if self.hi.x + m > MAX_COORD { MAX_COORD } else { self.hi.x + m },
                y: if self.hi.y + m > MAX_COORD { MAX_COORD } else { self.hi.y + m },
            },
        }
    }

    pub fn contains(self, p: Vec2) -> (r: bool)
        ensures
            r <==> self.spec_contains(p),
    {
        self.lo.x <= p.x && p.x <= self.hi.x && self.lo.y <= p.y && p.y <= self.hi.y
    }

    pub fn intersects(self, o: AABB) -> (r: bool)
        ensures
            r <==> self.spec_intersects(o),
    {
        self.lo.x <= o.hi.x && o.lo.x <= self.hi.x && self.lo.y <= o.hi.y && o.lo.y <= self.hi.y
    }
}

/// Nearest point to `p` on the segment `a`..`b`, in integer coordinates.
pub fn proj_on_segment(a: Vec2, b: Vec2, p: Vec2) -> (r: Vec2)
    requires
        a.in_bounds(),
        b.in_bounds(),
        p.in_bounds(),
    ensures
        r == spec_proj_on_segment(a, b, p),
        r.in_bounds(),
{
    let den = a.dist2(b);
    if den == 0 {
        a
    } else {
        proof {
            lemma_bounded_products(p.x - a.x, b.x - a.x);
            lemma_bounded_products(p.y - a.y, b.y - a.y);
            lemma_bounded_products(a.x - b.x, a.x - b.x);
            lemma_bounded_products(a.y - b.y, a.y - b.y);
        }
        let dot = (p.x - a.x) * (b.x - a.x) + (p.y - a.y) * (b.y - a.y);
        let num = if dot < 0 {
            0
        } else if dot > den {
            den
        } else {
            dot
        };
        let x = a.x + muldiv(b.x - a.x, num, den);
        let y = a.y + muldiv(b.y - a.y, num, den);
        Vec2 { x, y }
    }
}

/// Executable mirror of `spec_muldiv`, for `|d| <= 2 * MAX_COORD` and
/// `0 <= num <= den <= 8 * MAX_COORD * MAX_COORD`; the result lies between
/// `0` and `d`.
fn muldiv(d: i64, num: i64, den: i64) -> (r: i64)
    requires
        -2 * MAX_COORD <= d <= 2 * MAX_COORD,
        0 < den <= 8 * (MAX_COORD as int) * (MAX_COORD as int),
        0 <= num <= den,
    ensures
        r == spec_muldiv(d as int, num as int, den as int),
        d >= 0 ==> 0 <= r <= d,
        d < 0 ==> d <= r <= 0,
{
    proof {
        let dd: int = if d >= 0 {
            d as int
        } else {
            -(d as int)
        };
        assert(dd * (num as int) <= dd * (den as int) <= 2_000_000_000_000_000_000)
            by (nonlinear_arith)
            requires
                0 <= dd <= 1_000_000,
                0 < den as int <= 2_000_000_000_000,
                0 <= num as int <= den as int,
        ;
        vstd::arithmetic::mul::lemma_mul_nonnegative(dd, num as int);
        vstd::arithmetic::div_mod::lemma_div_pos_is_pos(dd * (num as int), den as int);
        vstd::arithmetic::div_mod::lemma_div_nonincreasing(dd * (num as int), den as int);
        vstd::arithmetic::div_mod::lemma_div_is_ordered(
            dd * (num as int),
            dd * (den as int),
            den as int,
        );
        vstd::arithmetic::div_mod::lemma_div_by_multiple(dd, den as int);
    }
    if d >= 0 {
        (d * num) / den
    } else {
        -(((-d) * num) / den)
    }
}

/// The integer square root: the largest `r` with `r * r <= n`.
pub open spec fn sqrt_floor(n: int) -> int
    decreases n,
{
    if n < 1 {
        0
    } else {
        let r = sqrt_floor(n - 1);
        if (r + 1) * (r + 1) <= n {
            r + 1
        } else {
            r
        }
    }
}

/// `sqrt_floor` meets its defining characterization.
pub proof fn lemma_sqrt_floor_char(n: int)
    requires
        0 <= n,
    ensures
        0 <= sqrt_floor(n),
        sqrt_floor(n) * sqrt_floor(n) <= n,
        n < (sqrt_floor(n) + 1) * (sqrt_floor(n) + 1),
    decreases n,
{
    if n >= 1 {
        lemma_sqrt_floor_char(n - 1);
        let r = sqrt_floor(n - 1);
        if (r + 1) * (r + 1) <= n {
            assert(n < (r + 2) * (r + 2)) by (nonlinear_arith)
                requires
                    0 <= r,
                    n <= (r + 1) * (r + 1),
            ;
        }
    }
}

/// Any value meeting the square-root characterization is `sqrt_floor`.
pub proof fn lemma_sqrt_floor_unique(n: int, r: int)
    requires
        0 <= n,
        0 <= r,
        r * r <= n,
        n < (r + 1) * (r + 1),
    ensures
        r == sqrt_floor(n),
{
    lemma_sqrt_floor_char(n);
    let s = sqrt_floor(n);
    assert(r == s) by (nonlinear_arith)
        requires
            0 <= r,
            0 <= s,
            r * r <= n,
            n < (r + 1) * (r + 1),
            s * s <= n,
            n < (s + 1) * (s + 1),
    ;
}

/// Integer square root of a non-negative number no larger than the largest
/// squared distance in the coordinate space.
pub fn isqrt(n: i64) -> (r: i64)
    requires
        0 <= n <= 2_000_000_000_000,
    ensures
        r == sqrt_floor(n as int),
        0 <= r <= 1_500_000,
{
    let mut lo: i64 = 0;
    let mut hi: i64 = if n < 1_500_000 {
        n
    } else {
        1_500_000
    };
    proof {
        assert((n as int + 1) * (n as int + 1) > n as int) by (nonlinear_arith)
            requires
                0 <= n as int,
        ;
        assert(1_500_001int * 1_500_001int > 2_000_000_000_000int) by (nonlinear_arith);
    }
    while lo < hi
        invariant
            0 <= lo <= hi <= 1_500_000,
            n <= 2_000_000_000_000,
            lo * lo <= n,
            (hi + 1) * (hi + 1) > n,
        decreases hi - lo,
    {
        let m = lo + (hi - lo + 1) / 2;
        proof {
            assert(0 <= m as int <= 1_500_000 ==> m as int * m as int <= 1_500_000int
                * 1_500_000int <= 9_223_372_036_854_775_807int) by (nonlinear_arith);
        }
        if m * m <= n {
            lo = m;
        } else {
            hi = m - 1;
        }
    }
    proof {
        lemma_sqrt_floor_unique(n as int, lo as int);
    }
    lo
}

/// The squared distance between two in-bounds points is at most
/// `8 * MAX_COORD * MAX_COORD`.
pub proof fn lemma_dist2_bound(a: Vec2, b: Vec2)
    requires
        a.in_bounds(),
        b.in_bounds(),
    ensures
        0 <= spec_dist2(a, b) <= 2_000_000_000_000,
{
    lemma_bounded_products(a.x - b.x, a.x - b.x);
    lemma_bounded_products(a.y - b.y, a.y - b.y);
}

/// The product of two values of magnitude at most `2 * MAX_COORD` stays
/// well inside `i64`.
proof fn lemma_bounded_products(a: int, b: int)
    requires
        -2 * MAX_COORD <= a <= 2 * MAX_COORD,
        -2 * MAX_COORD <= b <= 2 * MAX_COORD,
    ensures
        -1_000_000_000_000 <= a * b <= 1_000_000_000_000,
        a == b ==> 0 <= a * b,
{
    assert(-1_000_000_000_000 <= a * b <= 1_000_000_000_000 && (a == b ==> 0 <= a * b))
        by (nonlinear_arith)
        requires
            -1_000_000 <= a <= 1_000_000,
            -1_000_000 <= b <= 1_000_000,
    ;
}

} // verus!

//! Cubic Hermite segments for curved roads, evaluated at quarter
//! parameters on the integer grid.
//!
//! A curve is pinned by its two endpoints and an (unnormalized) derivative
//! vector at each. Evaluation rounds to integer coordinates and clamps into
//! the coordinate space, so every derived point is a valid position.

use vstd::prelude::*;
use crate::geom::{MAX_COORD, Vec2, spec_dist2};

verus! {

#[derive(Copy, Clone, Debug, PartialEq, Eq, Structural)]
pub struct Spline {
    pub from: Vec2,
    pub to: Vec2,
    pub from_derivative: Vec2,
    pub to_derivative: Vec2,
}

/// Floor division of `v` by a positive divisor.
pub open spec fn spec_div_floor(v: int, d: int) -> int {
    v / d
}

fn div_floor(v: i64, d: i64) -> (r: i64)
    requires
        0 < d <= 1_000_000,
        -1_000_000_000_000 <= v <= 1_000_000_000_000,
    ensures
        r == spec_div_floor(v as int, d as int),
{
    if v >= 0 {
        v / d
    } else {
        proof {
            let q = v as int / d as int;
            let m = v as int % d as int;
            vstd::arithmetic::div_mod::lemma_fundamental_div_mod(v as int, d as int);
            assert(v as int == d as int * q + m);
            assert((-v + d - 1) as int == (-q) * (d as int) + (d - 1 - m)) by {
                assert(d as int * q == q * (d as int)) by (nonlinear_arith);
                assert((-q) * (d as int) == -(q * (d as int))) by (nonlinear_arith);
            }
            vstd::arithmetic::div_mod::lemma_fundamental_div_mod_converse_div(
                (-v + d - 1) as int,
                d as int,
                -q,
                d - 1 - m,
            );
            assert(q <= 0) by {
                vstd::arithmetic::div_mod::lemma_div_nonincreasing(-(v as int), d as int);
                assert(-(v as int) / (d as int) >= 0) by {
                    vstd::arithmetic::div_mod::lemma_div_pos_is_pos(-(v as int), d as int);
                }
                assert((-v as int + d - 1) / (d as int) == -q);
            }
        }
        -((-v + d - 1) / d)
    }
}

/// Clamp a coordinate into the coordinate space.
pub open spec fn spec_clamp(v: int) -> int {
    if v < -MAX_COORD {
        -MAX_COORD as int
    } else if v > MAX_COORD {
        MAX_COORD as int
    } else {
        v
    }
}

pub(crate) fn clamp(v: i64) -> (r: i64)
    requires
        -1_000_000_000_000 <= v <= 1_000_000_000_000,
    ensures
        r == spec_clamp(v as int),
{
    if v < -MAX_COORD {
        -MAX_COORD
    } else if v > MAX_COORD {
        MAX_COORD
    } else {
        v
    }
}

/// The Hermite position at parameter `k/4`, componentwise
/// `(c0*from + c1*m0 + c2*to + c3*m1) / 64` rounded down and clamped.
pub open spec fn spec_eval_quarter(s: Spline, k: int) -> Vec2 {
    let k2 = k * k;
    let k3 = k2 * k;
    let c0 = 2 * k3 - 12 * k2 + 64;
    let c1 = k3 - 8 * k2 + 16 * k;
    let c2 = -2 * k3 + 12 * k2;
    let c3 = k3 - 4 * k2;
    Vec2 {
        x: spec_clamp(
            spec_div_floor(
                c0 * s.from.x + c1 * s.from_derivative.x + c2 * s.to.x + c3 * s.to_derivative.x,
                64,
            ),
        ) as i64,
        y: spec_clamp(
            spec_div_floor(
                c0 * s.from.y + c1 * s.from_derivative.y + c2 * s.to.y + c3 * s.to_derivative.y,
                64,
            ),
        ) as i64,
    }
}

/// The Hermite derivative at parameter `k/4`, componentwise
/// `(d0*from + d1*m0 + d2*to + d3*m1) / 16` rounded down and clamped.
pub open spec fn spec_derivative_quarter(s: Spline, k: int) -> Vec2 {
    let k2 = k * k;
    let d0 = 6 * k2 - 24 * k;
    let d1 = 3 * k2 - 16 * k + 16;
    let d2 = -6 * k2 + 24 * k;
    let d3 = 3 * k2 - 8 * k;
    Vec2 {
        x: spec_clamp(
            spec_div_floor(
                d0 * s.from.x + d1 * s.from_derivative.x + d2 * s.to.x + d3 * s.to_derivative.x,
                16,
            ),
        ) as i64,
        y: spec_clamp(
            spec_div_floor(
                d0 * s.from.y + d1 * s.from_derivative.y + d2 * s.to.y + d3 * s.to_derivative.y,
                16,
            ),
        ) as i64,
    }
}

/// The quarter parameter whose curve point lies nearest `p`, earlier
/// parameters winning ties.
pub open spec fn spec_project_t(s: Spline, p: Vec2, n: int) -> int
    decreases n,
{
    if n <= 0 {
        0
    } else {
        let prev = spec_project_t(s, p, n - 1);
        if spec_dist2(p, spec_eval_quarter(s, n)) < spec_dist2(
            p,
            spec_eval_quarter(s, prev),
        ) {
            n
        } else {
            prev
        }
    }
}

impl Spline {
    pub open spec fn wf(self) -> bool {
        &&& self.from.in_bounds()
        &&& self.to.in_bounds()
        &&& self.from_derivative.in_bounds()
        &&& self.to_derivative.in_bounds()
    }

    /// The curve point at parameter `k/4`.
    pub fn eval_quarter(&self, k: usize) -> (r: Vec2)
        requires
            self.wf(),
            k <= 4,
        ensures
            r == spec_eval_quarter(*self, k as int),
            r.in_bounds(),
    {
        let ki = k as i64;
        proof {
            assert(0 <= ki as int * ki as int <= 16 && 0 <= (ki as int * ki as int) * ki as int
                <= 64) by (nonlinear_arith)
                requires
                    0 <= ki as int <= 4,
            ;
        }
        let k2 = ki * ki;
        let k3 = k2 * ki;
        let c0 = 2 * k3 - 12 * k2 + 64;
        let c1 = k3 - 8 * k2 + 16 * ki;
        let c2 = 12 * k2 - 2 * k3;
        let c3 = k3 - 4 * k2;
        proof {
            lemma_coeff_times_coord(c0 as int, self.from.x as int);
            lemma_coeff_times_coord(c0 as int, self.from.y as int);
            lemma_coeff_times_coord(c1 as int, self.from_derivative.x as int);
            lemma_coeff_times_coord(c1 as int, self.from_derivative.y as int);
            lemma_coeff_times_coord(c2 as int, self.to.x as int);
            lemma_coeff_times_coord(c2 as int, self.to.y as int);
            lemma_coeff_times_coord(c3 as int, self.to_derivative.x as int);
            lemma_coeff_times_coord(c3 as int, self.to_derivative.y as int);
        }
        let x = clamp(
            div_floor(
                c0 * self.from.x + c1 * self.from_derivative.x + c2 * self.to.x + c3
                    * self.to_derivative.x,
                64,
            ),
        );
        let y = clamp(
            div_floor(
                c0 * self.from.y + c1 * self.from_derivative.y + c2 * self.to.y + c3
                    * self.to_derivative.y,
                64,
            ),
        );
        Vec2 { x, y }
    }

    /// The curve derivative at parameter `k/4`.
    pub fn derivative_quarter(&self, k: usize) -> (r: Vec2)
        requires
            self.wf(),
            k <= 4,
        ensures
            r == spec_derivative_quarter(*self, k as int),
            r.in_bounds(),
    {
        let ki = k as i64;
        proof {
            assert(0 <= ki as int * ki as int <= 16 && 0 <= (ki as int * ki as int) * ki as int
                <= 64) by (nonlinear_arith)
                requires
                    0 <= ki as int <= 4,
            ;
        }
        let k2 = ki * ki;
        let d0 = 6 * k2 - 24 * ki;
        let d1 = 3 * k2 - 16 * ki + 16;
        let d2 = 24 * ki - 6 * k2;
        let d3 = 3 * k2 - 8 * ki;
        proof {
            lemma_coeff_times_coord(d0 as int, self.from.x as int);
            lemma_coeff_times_coord(d0 as int, self.from.y as int);
            lemma_coeff_times_coord(d1 as int, self.from_derivative.x as int);
            lemma_coeff_times_coord(d1 as int, self.from_derivative.y as int);
            lemma_coeff_times_coord(d2 as int, self.to.x as int);
            lemma_coeff_times_coord(d2 as int, self.to.y as int);
            lemma_coeff_times_coord(d3 as int, self.to_derivative.x as int);
            lemma_coeff_times_coord(d3 as int, self.to_derivative.y as int);
        }
        let x = clamp(
            div_floor(
                d0 * self.from.x + d1 * self.from_derivative.x + d2 * self.to.x + d3
                    * self.to_derivative.x,
                16,
            ),
        );
        let y = clamp(
            div_floor(
                d0 * self.from.y + d1 * self.from_derivative.y + d2 * self.to.y + d3
                    * self.to_derivative.y,
                16,
            ),
        );
        Vec2 { x, y }
    }

    /// The sampled parameter nearest to `p`.
    pub fn project_t(&self, p: Vec2) -> (r: usize)
        requires
            self.wf(),
            p.in_bounds(),
        ensures
            r == spec_project_t(*self, p, 4),
            r <= 4,
    {
        let mut best: usize = 0;
        let mut best_d: i64 = p.dist2(self.eval_quarter(0));
        let mut k: usize = 1;
        while k <= 4
            invariant
                1 <= k <= 5,
                self.wf(),
                p.in_bounds(),
                best == spec_project_t(*self, p, k - 1),
                best <= 4,
                best_d == spec_dist2(p, spec_eval_quarter(*self, best as int)),
            decreases 5 - k,
        {
            let d = p.dist2(self.eval_quarter(k));
            if d < best_d {
                best = k;
                best_d = d;
            }
            k = k + 1;
        }
        best
    }

    /// Splits the curve at quarter parameter `k` into two Hermite pieces
    /// that keep the original endpoint derivatives exactly and share both
    /// their junction point and its derivative.
    pub fn split_at_quarter(&self, k: usize) -> (r: (Spline, Spline))
        requires
            self.wf(),
            k <= 4,
        ensures
            r.0.wf(),
            r.1.wf(),
            r.0.from == self.from,
            r.0.from_derivative == self.from_derivative,
            r.1.to == self.to,
            r.1.to_derivative == self.to_derivative,
            r.0.to == r.1.from,
            r.0.to_derivative == r.1.from_derivative,
            r.0.to == spec_eval_quarter(*self, k as int),
            r.0.to_derivative == spec_derivative_quarter(*self, k as int),
    {
        let mid = self.eval_quarter(k);
        let d_mid = self.derivative_quarter(k);
        (
            Spline {
                from: self.from,
                to: mid,
                from_derivative: self.from_derivative,
                to_derivative: d_mid,
            },
            Spline {
                from: mid,
                to: self.to,
                from_derivative: d_mid,
                to_derivative: self.to_derivative,
            },
        )
    }
}

/// A Hermite coefficient (magnitude at most 200) times a coordinate stays
/// well inside `i64`.
proof fn lemma_coeff_times_coord(c: int, v: int)
    requires
        -200 <= c <= 200,
        -500_000 <= v <= 500_000,
    ensures
        -100_000_000 <= c * v <= 100_000_000,
{
    assert(-100_000_000 <= c * v <= 100_000_000) by (nonlinear_arith)
        requires
            -200 <= c <= 200,
            -500_000 <= v <= 500_000,
    ;
}

} // verus!

//! An ordered list of points, used for road centerlines, lane geometry and
//! itinerary waypoints.

use vstd::prelude::*;
use crate::geom::{Vec2, coord_ok, proj_on_segment, spec_dist2, spec_proj_on_segment, AABB};

verus! {

#[derive(Debug)]
pub struct PolyLine {
    pub points: Vec<Vec2>,
}

impl View for PolyLine {
    type V = Seq<Vec2>;

    open spec fn view(&self) -> Seq<Vec2> {
        self.points@
    }
}

/// The index of the best segment for projecting `p` onto the polyline `s`,
/// among the segments ending at indices `1 .. n`: the one whose projection
/// is nearest to `p`, later segments winning ties.
pub open spec fn best_seg(s: Seq<Vec2>, p: Vec2, n: int) -> int
    decreases n,
{
    if n <= 2 {
        1
    } else {
        let prev = best_seg(s, p, n - 1);
        let d_prev = spec_dist2(p, spec_proj_on_segment(s[prev - 1], s[prev], p));
        let d_new = spec_dist2(p, spec_proj_on_segment(s[n - 2], s[n - 1], p));
        if d_new <= d_prev {
            n - 1
        } else {
            prev
        }
    }
}

/// What `project_segment` returns: the best segment index paired with the
/// projection onto that segment (a single point projects to itself with
/// index 0, an empty polyline to nothing).
pub open spec fn spec_project_segment(s: Seq<Vec2>, p: Vec2) -> Option<(int, Vec2)> {
    if s.len() == 0 {
        None
    } else if s.len() == 1 {
        Some((0int, s[0]))
    } else {
        let i = best_seg(s, p, s.len() as int);
        Some((i, spec_proj_on_segment(s[i - 1], s[i], p)))
    }
}

proof fn lemma_best_seg_range(s: Seq<Vec2>, p: Vec2, n: int)
    requires
        2 <= n,
    ensures
        1 <= best_seg(s, p, n) < n,
    decreases n,
{
    if n > 2 {
        lemma_best_seg_range(s, p, n - 1);
    }
}

/// The best segment's projection is at least as near as any other
/// segment's.
proof fn lemma_best_seg_min(s: Seq<Vec2>, p: Vec2, n: int, j: int)
    requires
        2 <= n,
        1 <= j < n,
    ensures
        spec_dist2(p, spec_proj_on_segment(s[best_seg(s, p, n) - 1], s[best_seg(s, p, n)], p))
            <= spec_dist2(p, spec_proj_on_segment(s[j - 1], s[j], p)),
    decreases n,
{
    if n > 2 && j < n - 1 {
        lemma_best_seg_min(s, p, n - 1, j);
    }
}

/// The bounding box of a non-empty point sequence.
pub open spec fn spec_bbox(s: Seq<Vec2>) -> AABB
    decreases s.len(),
{
    if s.len() <= 1 {
        AABB { lo: s[0], hi: s[0] }
    } else {
        let prev = spec_bbox(s.drop_last());
        let p = s.last();
        AABB {
            lo: Vec2 {
                x: if p.x < prev.lo.x { p.x } else { prev.lo.x },
                y: if p.y < prev.lo.y { p.y } else { prev.lo.y },
            },
            hi: Vec2 {
                x: if p.x > prev.hi.x { p.x } else { prev.hi.x },
                y: if p.y > prev.hi.y { p.y } else { prev.hi.y },
            },
        }
    }
}

impl PolyLine {
    /// All points lie within the coordinate space.
    pub open spec fn in_bounds(self) -> bool {
        forall|i: int| 0 <= i < self@.len() ==> (#[trigger] self@[i]).in_bounds()
    }

    pub fn new(x: Vec<Vec2>) -> (r: Self)
        ensures
            r@ == x@,
    {
        Self { points: x }
    }

    pub fn with_capacity(c: usize) -> (r: Self)
        ensures
            r@ == Seq::<Vec2>::empty(),
    {
        Self { points: Vec::with_capacity(c) }
    }

    pub fn extend(&mut self, s: &[Vec2])
        ensures
            final(self)@ == old(self)@ + s@,
    {
        self.points.extend_from_slice(s);
    }

    pub fn pop(&mut self) -> (r: Option<Vec2>)
        ensures
            old(self)@.len() == 0 ==> r is None && final(self)@ == old(self)@,
            old(self)@.len() > 0 ==> r == Some(old(self)@.last()) && final(self)@ == old(
            self)@.drop_last(),
    {
        self.points.pop()
    }

    pub fn push(&mut self, item: Vec2)
        ensures
            final(self)@ == old(self)@.push(item),
    {
        self.points.push(item);
    }

    /// Replaces the first point in place.
    pub fn set_first(&mut self, v: Vec2)
        requires
            old(self)@.len() > 0,
        ensures
            final(self)@ == old(self)@.update(0, v),
    {
        let r = &mut self.points[0];
        *r = v;
    }

    /// Replaces the last point in place.
    pub fn set_last(&mut self, v: Vec2)
        requires
            old(self)@.len() > 0,
        ensures
            final(self)@ == old(self)@.update(old(self)@.len() - 1 as int, v),
    {
        let n = self.points.len();
        let r = &mut self.points[n - 1];
        *r = v;
    }

    pub fn clear(&mut self)
        ensures
            final(self)@ == Seq::<Vec2>::empty(),
    {
        self.points.clear();
    }

    pub fn reverse(&mut self)
        ensures
            final(self)@.len() == old(self)@.len(),
            forall|i: int|
                0 <= i < old(self)@.len() ==> final(self)@[i] == old(self)@[old(self)@.len() - 1
                    - i],
    {
        let n = self.points.len();
        let mut rev: Vec<Vec2> = Vec::with_capacity(n);
        let mut i: usize = 0;
        while i < n
            invariant
                n == self.points.len(),
                0 <= i <= n,
                rev@.len() == i,
                forall|j: int| 0 <= j < i ==> rev@[j] == self.points@[n - 1 - j],
            decreases n - i,
        {
            rev.push(self.points[n - 1 - i]);
            i = i + 1;
        }
        self.points = rev;
    }

    pub fn pop_first(&mut self) -> (r: Option<Vec2>)
        ensures
            old(self)@.len() == 0 ==> r is None && final(self)@ == old(self)@,
            old(self)@.len() > 0 ==> r == Some(old(self)@[0]) && final(self)@ == old(
            self)@.subrange(1, old(self)@.len() as int),
    {
        if self.points.is_empty() {
            None
        } else {
            Some(self.points.remove(0))
        }
    }

    /// The projection of `p` onto the polyline, if it has any points.
    pub fn project(&self, p: Vec2) -> (r: Option<Vec2>)
        requires
            self.in_bounds(),
            p.in_bounds(),
        ensures
            r == match spec_project_segment(self@, p) {
                Some(pr) => Some::<Vec2>(pr.1),
                None => None::<Vec2>,
            },
            r is Some ==> r.unwrap().in_bounds(),
    {
        match self.project_segment(p) {
            Some((_, proj)) => Some(proj),
            None => None,
        }
    }

    /// The projection of `p` onto the nearest segment, together with the
    /// index of the point right after it; `None` on an empty polyline.
    pub fn project_segment(&self, p: Vec2) -> (r: Option<(usize, Vec2)>)
        requires
            self.in_bounds(),
            p.in_bounds(),
        ensures
            r is None <==> self@.len() == 0,
            r is Some ==> {
                let (i, proj) = r.unwrap();
                &&& Some((i as int, proj)) == spec_project_segment(self@, p)
                &&& i < self@.len()
                &&& proj.in_bounds()
            },
    {
        let n = self.points.len();
        if n == 0 {
            None
        } else if n == 1 {
            Some((0, self.points[0]))
        } else {
            let mut best: usize = 1;
            let mut best_proj: Vec2 = proj_on_segment(self.points[0], self.points[1], p);
            let mut best_d: i64 = p.dist2(best_proj);
            let mut i: usize = 2;
            while i < n
                invariant
                    2 <= i <= n,
                    n == self@.len(),
                    self.in_bounds(),
                    p.in_bounds(),
                    best == best_seg(self@, p, i as int),
                    1 <= best < i,
                    best_proj == spec_proj_on_segment(self@[best - 1], self@[best as int], p),
                    best_proj.in_bounds(),
                    best_d == spec_dist2(p, best_proj),
                decreases n - i,
            {
                let proj = proj_on_segment(self.points[i - 1], self.points[i], p);
                let d = p.dist2(proj);
                if d <= best_d {
                    best = i;
                    best_proj = proj;
                    best_d = d;
                }
                i = i + 1;
            }
            Some((best, best_proj))
        }
    }

    /// The unnormalized direction of the first segment, when one exists and
    /// is not degenerate.
    pub fn first_dir(&self) -> (r: Option<Vec2>)
        requires
            self.in_bounds(),
        ensures
            r == if self@.len() >= 2 && self@[1] != self@[0] {
                Some(Vec2 { x: (self@[1].x - self@[0].x) as i64, y: (self@[1].y - self@[0].y) as i64 })
            } else {
                None::<Vec2>
            },
    {
        if self.points.len() >= 2 {
            proof {
                assert(self@[0].in_bounds());
                assert(self@[1].in_bounds());
            }
            let a = self.points[0];
            let b = self.points[1];
            if a.x == b.x && a.y == b.y {
                None
            } else {
                Some(b.sub(a))
            }
        } else {
            None
        }
    }

    /// The unnormalized direction of the last segment, when one exists and
    /// is not degenerate.
    pub fn last_dir(&self) -> (r: Option<Vec2>)
        requires
            self.in_bounds(),
        ensures
            r == if self@.len() >= 2 && self@[self@.len() - 1] != self@[self@.len() - 2] {
                Some(Vec2 {
                    x: (self@[self@.len() - 1].x - self@[self@.len() - 2].x) as i64,
                    y: (self@[self@.len() - 1].y - self@[self@.len() - 2].y) as i64,
                })
            } else {
                None::<Vec2>
            },
    {
        let l = self.points.len();
        if l >= 2 {
            proof {
                assert(self@[l - 2].in_bounds());
                assert(self@[l - 1].in_bounds());
            }
            let a = self.points[l - 2];
            let b = self.points[l - 1];
            if a.x == b.x && a.y == b.y {
                None
            } else {
                Some(b.sub(a))
            }
        } else {
            None
        }
    }

    pub fn n_points(&self) -> (r: usize)
        ensures
            r == self@.len(),
    {
        self.points.len()
    }

    pub fn is_empty(&self) -> (r: bool)
        ensures
            r <==> self@.len() == 0,
    {
        self.points.is_empty()
    }

    pub fn get(&self, id: usize) -> (r: Option<Vec2>)
        ensures
            id < self@.len() ==> r == Some(self@[id as int]),
            id >= self@.len() ==> r is None,
    {
        if id < self.points.len() {
            Some(self.points[id])
        } else {
            None
        }
    }

    pub fn first(&self) -> (r: Option<Vec2>)
        ensures
            self@.len() == 0 ==> r is None,
            self@.len() > 0 ==> r == Some(self@[0]),
    {
        if self.points.is_empty() {
            None
        } else {
            Some(self.points[0])
        }
    }

    pub fn last(&self) -> (r: Option<Vec2>)
        ensures
            self@.len() == 0 ==> r is None,
            self@.len() > 0 ==> r == Some(self@.last()),
    {
        if self.points.is_empty() {
            None
        } else {
            Some(self.points[self.points.len() - 1])
        }
    }

    pub fn as_slice(&self) -> (r: &[Vec2])
        ensures
            r@ == self@,
    {
        self.points.as_slice()
    }

    /// The bounding box of all points.
    pub fn bbox(&self) -> (r: AABB)
        requires
            self.in_bounds(),
            self@.len() > 0,
        ensures
            r == spec_bbox(self@),
            r.wf(),
            forall|i: int| 0 <= i < self@.len() ==> r.spec_contains(#[trigger] self@[i]),
    {
        let mut r = AABB { lo: self.points[0], hi: self.points[0] };
        let n = self.points.len();
        let mut i: usize = 1;
        proof {
            assert(self@.take(1) =~= seq![self@[0]]);
        }
        while i < n
            invariant
                1 <= i <= n,
                n == self@.len(),
                self.in_bounds(),
                r == spec_bbox(self@.take(i as int)),
                r.wf(),
                forall|j: int| 0 <= j < i ==> r.spec_contains(#[trigger] self@[j]),
            decreases n - i,
        {
            proof {
                assert(self@.take(i + 1).drop_last() =~= self@.take(i as int));
                assert(self@.take(i + 1).last() == self@[i as int]);
            }
            let p = self.points[i];
            let old_r = r;
            r = AABB {
                lo: Vec2 {
                    x: if p.x < r.lo.x { p.x } else { r.lo.x },
                    y: if p.y < r.lo.y { p.y } else { r.lo.y },
                },
                hi: Vec2 {
                    x: if p.x > r.hi.x { p.x } else { r.hi.x },
                    y: if p.y > r.hi.y { p.y } else { r.hi.y },
                },
            };
            proof {
                assert(forall|j: int| 0 <= j < i ==> old_r.spec_contains(#[trigger] self@[j])
                    ==> r.spec_contains(self@[j]));
            }
            i = i + 1;
        }
        proof {
            assert(self@.take(n as int) =~= self@);
        }
        r
    }

    /// The underlying points, by value.
    pub fn into_points(self) -> (r: Vec<Vec2>)
        ensures
            r@ == self@,
    {
        self.points
    }

    /// An owned copy of the polyline.
    pub fn clone_of(&self) -> (r: PolyLine)
        ensures
            r@ == self@,
    {
        let mut r = PolyLine::with_capacity(self.points.len());
        r.extend(self.points.as_slice());
        proof {
            assert(r@ =~= self@);
        }
        r
    }

    /// An owned copy with the points in reverse order.
    pub fn reversed(&self) -> (r: PolyLine)
        ensures
            r@ == self@.reverse(),
    {
        let mut r = self.clone_of();
        r.reverse();
        proof {
            assert(r@ =~= self@.reverse());
        }
        r
    }
}

} // verus!

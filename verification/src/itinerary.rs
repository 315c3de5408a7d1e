//! Incremental movement plans.
//!
//! An itinerary is an agent's plan: nothing, a wait deadline, a simple local
//! path, or a multi-edge route over the network consumed edge by edge. Only
//! one edge's worth of waypoints is ever resident: `advance` pops the head
//! waypoint and, when the buffer drains, regenerates it from the next edge's
//! geometry, trimming the final edge onto the exact terminal position.

use vstd::prelude::*;
use crate::geom::{Vec2, spec_dist2};
use crate::handles::{IntersectionID, LaneID};
use crate::map::{CityMap, LaneDirection};
use crate::polyline::{PolyLine, spec_project_segment};
use crate::traffic_control::{TrafficBehavior, spec_behavior};

verus! {

/// Waypoints closer than this (squared against it for intermediate
/// waypoints, compared directly for the terminal one) count as reached.
pub const OBJECTIVE_OK_DIST: i64 = 3;

/// One directed edge of the pathfinding graph: a lane, or one turn of an
/// intersection.
#[derive(Copy, Clone, Debug, PartialEq, Eq, Structural)]
pub enum TraverseKind {
    Lane(LaneID),
    Turn(IntersectionID, usize),
}

#[derive(Copy, Clone, Debug, PartialEq, Eq, Structural)]
pub enum TraverseDirection {
    Forward,
    Backward,
}

#[derive(Copy, Clone, Debug, PartialEq, Eq, Structural)]
pub struct Traversable {
    pub kind: TraverseKind,
    pub dir: TraverseDirection,
}

/// The geometry a traversable names in the current network, if it still
/// exists: the lane's polyline or the turn's, reversed for a backward
/// traversal.
pub open spec fn spec_traversable_points(map: CityMap, t: Traversable) -> Option<Seq<Vec2>> {
    match t.kind {
        TraverseKind::Lane(l) => if map.lanes.valid(l.0 as int) {
            if t.dir == TraverseDirection::Forward {
                Some(map.lanes.s_get(l.0 as int).points@)
            } else {
                Some(map.lanes.s_get(l.0 as int).points@.reverse())
            }
        } else {
            None
        },
        TraverseKind::Turn(i, idx) => if map.intersections.valid(i.0 as int) && idx
            < map.intersections.s_get(i.0 as int).turns@.len() {
            if t.dir == TraverseDirection::Forward {
                Some(map.intersections.s_get(i.0 as int).turns@[idx as int].points@)
            } else {
                Some(map.intersections.s_get(i.0 as int).turns@[idx as int].points@.reverse())
            }
        } else {
            None
        },
    }
}

/// Whether the edge still names a live part of the network.
pub open spec fn spec_traversable_valid(map: CityMap, t: Traversable) -> bool {
    spec_traversable_points(map, t) is Some
}

/// Whether traffic control lets an agent leave this edge at `time`: a
/// lane's control must not show red; a turn is not gated. A stale edge
/// permits nothing.
pub open spec fn spec_can_pass(map: CityMap, t: Traversable, time: u32) -> bool {
    match t.kind {
        TraverseKind::Lane(l) => map.lanes.valid(l.0 as int) && spec_behavior(
            map.lanes.s_get(l.0 as int).control,
            time,
        ) != TrafficBehavior::RED,
        TraverseKind::Turn(i, idx) => map.intersections.valid(i.0 as int) && idx
            < map.intersections.s_get(i.0 as int).turns@.len(),
    }
}

impl Traversable {
    pub fn new(kind: TraverseKind, dir: TraverseDirection) -> (r: Traversable)
        ensures
            r == (Traversable { kind, dir }),
    {
        Traversable { kind, dir }
    }

    /// The edge's current geometry, or `None` if the network no longer
    /// holds it.
    pub fn points(&self, map: &CityMap) -> (r: Option<PolyLine>)
        requires
            map.inv(),
        ensures
            r is Some <==> spec_traversable_valid(*map, *self),
            r is Some ==> {
                let pts = r.unwrap();
                &&& pts@ == spec_traversable_points(*map, *self).unwrap()
                &&& pts.in_bounds()
                &&& pts@.len() >= 2
            },
    {
        match self.kind {
            TraverseKind::Lane(l) => {
                match map.lanes.get(l.0) {
                    Some(lane) => {
                        proof {
                            assert(map.lane_ok(l.0 as int));
                            if self.dir == TraverseDirection::Backward {
                                assert forall|i: int|
                                    0 <= i < lane.points@.reverse().len() implies (
                                #[trigger] lane.points@.reverse()[i]).in_bounds() by {
                                    assert(lane.points@.reverse()[i] == lane.points@[
                                    lane.points@.len() - 1 - i]);
                                };
                            }
                        }
                        match self.dir {
                            TraverseDirection::Forward => Some(lane.points.clone_of()),
                            TraverseDirection::Backward => Some(lane.points.reversed()),
                        }
                    },
                    None => None,
                }
            },
            TraverseKind::Turn(i, idx) => {
                match map.intersections.get(i.0) {
                    Some(inter) => {
                        if idx < inter.turns.len() {
                            proof {
                                assert(map.inter_ok(i.0 as int));
                                let tp = map.intersections.s_get(i.0 as int).turns@[idx as int];
                                if self.dir == TraverseDirection::Backward {
                                    assert forall|j: int|
                                        0 <= j < tp.points@.reverse().len() implies (
                                    #[trigger] tp.points@.reverse()[j]).in_bounds() by {
                                        assert(tp.points@.reverse()[j] == tp.points@[
                                        tp.points@.len() - 1 - j]);
                                    };
                                }
                            }
                            match self.dir {
                                TraverseDirection::Forward => Some(
                                    inter.turns[idx].points.clone_of(),
                                ),
                                TraverseDirection::Backward => Some(
                                    inter.turns[idx].points.reversed(),
                                ),
                            }
                        } else {
                            None
                        }
                    },
                    None => None,
                }
            },
        }
    }

    /// Whether the edge still names a live part of the network.
    pub fn is_valid(&self, map: &CityMap) -> (r: bool)
        requires
            map.inv(),
        ensures
            r <==> spec_traversable_valid(*map, *self),
    {
        match self.kind {
            TraverseKind::Lane(l) => map.lanes.contains(l.0),
            TraverseKind::Turn(i, idx) => {
                match map.intersections.get(i.0) {
                    Some(inter) => idx < inter.turns.len(),
                    None => false,
                }
            },
        }
    }

    /// Whether the traffic control on this edge permits passage at `time`.
    pub fn can_pass(&self, time: u32, map: &CityMap) -> (r: bool)
        requires
            map.inv(),
        ensures
            r <==> spec_can_pass(*map, *self, time),
    {
        match self.kind {
            TraverseKind::Lane(l) => {
                match map.lanes.get(l.0) {
                    Some(lane) => {
                        proof {
                            assert(map.lane_ok(l.0 as int));
                        }
                        !lane.control.get_behavior(time).is_red()
                    },
                    None => false,
                }
            },
            TraverseKind::Turn(i, idx) => {
                match map.intersections.get(i.0) {
                    Some(inter) => idx < inter.turns.len(),
                    None => false,
                }
            },
        }
    }
}

/// A multi-edge path: the edges still to walk (reversed, so the next one
/// pops off the end), the exact terminal position, and the edge currently
/// being walked.
pub struct Route {
    pub reversed_route: Vec<Traversable>,
    pub end_pos: Vec2,
    pub cur: Traversable,
}

pub enum ItineraryKind {
    Idle,
    WaitUntil(u64),
    Simple,
    Route(Route),
}

pub struct Itinerary {
    pub kind: ItineraryKind,
    pub local_path: Vec<Vec2>,
}

/// The mathematical value of an itinerary kind.
pub enum KindView {
    Idle,
    Wait(u64),
    Simple,
    Route { rest: Seq<Traversable>, end: Vec2, cur: Traversable },
}

/// The mathematical value of an itinerary: its kind and the waypoints
/// still to visit.
pub struct ItinView {
    pub kind: KindView,
    pub path: Seq<Vec2>,
}

impl View for Itinerary {
    type V = ItinView;

    open spec fn view(&self) -> ItinView {
        ItinView {
            kind: match self.kind {
                ItineraryKind::Idle => KindView::Idle,
                ItineraryKind::WaitUntil(t) => KindView::Wait(t),
                ItineraryKind::Simple => KindView::Simple,
                ItineraryKind::Route(ref r) => KindView::Route {
                    rest: r.reversed_route@,
                    end: r.end_pos,
                    cur: r.cur,
                },
            },
            path: self.local_path@,
        }
    }
}

impl ItinView {
    /// Every waypoint (and a route's terminal) lies in the coordinate
    /// space.
    pub open spec fn wf(self) -> bool {
        &&& forall|i: int| 0 <= i < self.path.len() ==> (#[trigger] self.path[i]).in_bounds()
        &&& match self.kind {
            KindView::Route { end, .. } => end.in_bounds(),
            _ => true,
        }
    }
}

/// What one call of `advance` does to an itinerary's value, and the
/// waypoint it emits: the head waypoint leaves the buffer; a route whose
/// buffer drained pops its next edge and regenerates the buffer from that
/// edge's geometry, trimmed onto the exact terminal position once the last
/// edge is reached. A fully consumed route yields no waypoint; a route
/// whose next edge vanished from the network resets to the empty plan
/// (the dependent state is dropped, never kept half-alive).
pub open spec fn spec_advance(v: ItinView, map: CityMap) -> (ItinView, Option<Vec2>) {
    let emitted: Option<Vec2> = if v.path.len() == 0 {
        None
    } else {
        Some(v.path[0])
    };
    let p1: Seq<Vec2> = if v.path.len() == 0 {
        v.path
    } else {
        v.path.skip(1)
    };
    if p1.len() == 0 {
        match v.kind {
            KindView::Route { rest, end, cur } => {
                if rest.len() == 0 {
                    (ItinView { kind: v.kind, path: p1 }, None)
                } else {
                    let cur2 = rest.last();
                    let rest2 = rest.drop_last();
                    let kind2 = KindView::Route { rest: rest2, end, cur: cur2 };
                    match spec_traversable_points(map, cur2) {
                        None => (ItinView { kind: KindView::Idle, path: Seq::empty() }, None),
                        Some(pts) => if rest2.len() == 0 {
                            let pr = spec_project_segment(pts, end).unwrap();
                            (
                                ItinView {
                                    kind: kind2,
                                    path: pts.take(pr.0).push(pr.1).push(end),
                                },
                                emitted,
                            )
                        } else {
                            (ItinView { kind: kind2, path: pts }, emitted)
                        },
                    }
                }
            },
            _ => (ItinView { kind: v.kind, path: p1 }, emitted),
        }
    } else {
        (ItinView { kind: v.kind, path: p1 }, emitted)
    }
}

impl Itinerary {
    /// The empty plan.
    pub fn none() -> (r: Itinerary)
        ensures
            r@.kind == KindView::Idle,
            r@.path == Seq::<Vec2>::empty(),
            r@.wf(),
    {
        Itinerary { kind: ItineraryKind::Idle, local_path: Vec::new() }
    }

    /// A plain local path, walked waypoint by waypoint.
    pub fn simple(path: Vec<Vec2>) -> (r: Itinerary)
        requires
            forall|i: int| 0 <= i < path@.len() ==> (#[trigger] path@[i]).in_bounds(),
        ensures
            r@.kind == KindView::Simple,
            r@.path == path@,
            r@.wf(),
    {
        Itinerary { kind: ItineraryKind::Simple, local_path: path }
    }

    /// A plan that only waits until the given time.
    pub fn wait_until(x: u64) -> (r: Itinerary)
        ensures
            r@.kind == KindView::Wait(x),
            r@.path == Seq::<Vec2>::empty(),
            r@.wf(),
    {
        Itinerary { kind: ItineraryKind::WaitUntil(x), local_path: Vec::new() }
    }

    /// Removes and returns the head waypoint, regenerating the buffer from
    /// the route's next edge when it drains: see `spec_advance`.
    pub fn advance(&mut self, map: &CityMap) -> (r: Option<Vec2>)
        requires
            map.inv(),
            old(self)@.wf(),
        ensures
            (final(self)@, r) == spec_advance(old(self)@, *map),
            final(self)@.wf(),
    {
        let v: Option<Vec2> = if self.local_path.is_empty() {
            None
        } else {
            Some(self.local_path.remove(0))
        };
        if self.local_path.is_empty() {
            if let ItineraryKind::Route(r) = &mut self.kind {
                let cur2 = match r.reversed_route.pop() {
                    Some(c) => c,
                    None => {
                        return None;
                    },
                };
                r.cur = cur2;
                let points = match cur2.points(map) {
                    Some(p) => p,
                    None => {
                        *self = Itinerary::none();
                        return None;
                    },
                };
                if r.reversed_route.is_empty() {
                    let end_pos = r.end_pos;
                    let (seg, proj) = match points.project_segment(end_pos) {
                        Some(pr) => pr,
                        None => {
                            proof {
                                assert(false);
                            }
                            unreached()
                        },
                    };
                    let pts = points.as_slice();
                    let mut np: Vec<Vec2> = Vec::new();
                    let mut i: usize = 0;
                    while i < seg
                        invariant
                            0 <= i <= seg,
                            seg < pts@.len(),
                            np@ == pts@.take(i as int),
                        decreases seg - i,
                    {
                        np.push(pts[i]);
                        proof {
                            assert(pts@.take(i + 1) =~= pts@.take(i as int).push(
                                pts@[i as int],
                            ));
                        }
                        i = i + 1;
                    }
                    np.push(proj);
                    np.push(end_pos);
                    self.local_path = np;
                    proof {
                        assert forall|j: int|
                            0 <= j < self.local_path@.len() implies (
                        #[trigger] self.local_path@[j]).in_bounds() by {
                            if j < seg {
                                assert(self.local_path@[j] == pts@[j]);
                            }
                        };
                    }
                } else {
                    self.local_path = points.into_points();
                }
            }
        }
        v
    }

    /// The number of waypoints still buffered.
    pub fn remaining_points(&self) -> (r: usize)
        ensures
            r == self@.path.len(),
    {
        self.local_path.len()
    }

    /// Whether the very next waypoint is the plan's last: always for idle
    /// and waiting plans, for a path or route once a single waypoint
    /// remains and (for a route) no edge is left.
    pub fn is_terminal(&self) -> (r: bool)
        ensures
            r <==> match self@.kind {
                KindView::Idle | KindView::Wait(_) => true,
                KindView::Simple => self@.path.len() == 1,
                KindView::Route { rest, .. } => rest.len() == 0 && self@.path.len() == 1,
            },
    {
        match &self.kind {
            ItineraryKind::Idle | ItineraryKind::WaitUntil(_) => true,
            ItineraryKind::Simple => self.local_path.len() == 1,
            ItineraryKind::Route(r) => r.reversed_route.is_empty() && self.local_path.len() == 1,
        }
    }

    /// The waypoint currently steered for.
    pub fn get_point(&self) -> (r: Option<Vec2>)
        ensures
            self@.path.len() == 0 ==> r is None,
            self@.path.len() > 0 ==> r == Some(self@.path[0]),
    {
        if self.local_path.is_empty() {
            None
        } else {
            Some(self.local_path[0])
        }
    }

    /// Where the whole plan ends, if anywhere.
    pub fn get_terminal(&self) -> (r: Option<Vec2>)
        ensures
            r == match self@.kind {
                KindView::Idle | KindView::Wait(_) => None::<Vec2>,
                KindView::Simple => if self@.path.len() == 0 {
                    None
                } else {
                    Some(self@.path.last())
                },
                KindView::Route { end, .. } => Some(end),
            },
    {
        match &self.kind {
            ItineraryKind::Idle | ItineraryKind::WaitUntil(_) => None,
            ItineraryKind::Simple => {
                if self.local_path.is_empty() {
                    None
                } else {
                    Some(self.local_path[self.local_path.len() - 1])
                }
            },
            ItineraryKind::Route(r) => Some(r.end_pos),
        }
    }

    /// The edge currently walked, for a route.
    pub fn get_travers(&self) -> (r: Option<Traversable>)
        ensures
            r == match self@.kind {
                KindView::Route { cur, .. } => Some(cur),
                _ => None::<Traversable>,
            },
    {
        match &self.kind {
            ItineraryKind::Idle | ItineraryKind::WaitUntil(_) | ItineraryKind::Simple => None,
            ItineraryKind::Route(r) => Some(r.cur),
        }
    }

    /// The buffered waypoints.
    pub fn local_path(&self) -> (r: &[Vec2])
        ensures
            r@ == self@.path,
    {
        self.local_path.as_slice()
    }

    /// Splices waypoints in front of the buffer (a detour to walk first).
    pub fn prepend_local_path(&mut self, points: Vec<Vec2>)
        requires
            old(self)@.wf(),
            forall|i: int| 0 <= i < points@.len() ==> (#[trigger] points@[i]).in_bounds(),
        ensures
            final(self)@.path == points@ + old(self)@.path,
            final(self)@.kind == old(self)@.kind,
            final(self)@.wf(),
    {
        let mut np = points;
        let ghost pref = np@;
        let n = self.local_path.len();
        let mut i: usize = 0;
        while i < n
            invariant
                0 <= i <= n,
                n == self.local_path@.len(),
                self.local_path@ == old(self).local_path@,
                self.kind == old(self).kind,
                np@ == pref + self.local_path@.take(i as int),
            decreases n - i,
        {
            np.push(self.local_path[i]);
            proof {
                assert(self.local_path@.take(i + 1) =~= self.local_path@.take(i as int).push(
                    self.local_path@[i as int],
                ));
                assert(np@ =~= pref + self.local_path@.take(i + 1));
            }
            i = i + 1;
        }
        proof {
            assert(self.local_path@.take(n as int) =~= self.local_path@);
        }
        self.local_path = np;
    }

    /// Whether the plan is over at `time`: a waiting plan once the deadline
    /// passed, any other once its buffer is drained.
    pub fn has_ended(&self, time: u64) -> (r: bool)
        ensures
            r <==> match self@.kind {
                KindView::Wait(x) => time > x,
                _ => self@.path.len() == 0,
            },
    {
        match self.kind {
            ItineraryKind::WaitUntil(x) => time > x,
            _ => self.local_path.is_empty(),
        }
    }

    pub fn is_none(&self) -> (r: bool)
        ensures
            r <==> self@.kind == KindView::Idle,
    {
        matches!(self.kind, ItineraryKind::Idle)
    }

    /// One simulation tick: advance onto the next waypoint when close
    /// enough. The terminal waypoint requires the tight arrival check;
    /// mid-path waypoints use the squared tolerance; the last waypoint
    /// before an intersection additionally waits for its traffic control,
    /// and a route whose current edge vanished from the network resets to
    /// the empty plan instead of failing.
    pub fn update(&mut self, position: Vec2, time: u32, map: &CityMap)
        requires
            map.inv(),
            old(self)@.wf(),
            position.in_bounds(),
        ensures
            final(self)@.wf(),
            old(self)@.path.len() == 0 ==> final(self)@ == old(self)@,
            old(self)@.path.len() > 0 ==> {
                let d = spec_dist2(old(self)@.path[0], position);
                let terminal = match old(self)@.kind {
                    KindView::Idle | KindView::Wait(_) => true,
                    KindView::Simple => old(self)@.path.len() == 1,
                    KindView::Route { rest, .. } => rest.len() == 0 && old(self)@.path.len() == 1,
                };
                if terminal {
                    if d < OBJECTIVE_OK_DIST {
                        final(self)@ == spec_advance(old(self)@, *map).0
                    } else {
                        final(self)@ == old(self)@
                    }
                } else if d < OBJECTIVE_OK_DIST * OBJECTIVE_OK_DIST {
                    if old(self)@.path.len() > 1 {
                        final(self)@ == spec_advance(old(self)@, *map).0
                    } else {
                        match old(self)@.kind {
                            KindView::Route { cur, .. } => if !spec_traversable_valid(
                                *map,
                                cur,
                            ) {
                                final(self)@.kind == KindView::Idle && final(self)@.path.len()
                                    == 0
                            } else if spec_can_pass(*map, cur, time) {
                                final(self)@ == spec_advance(old(self)@, *map).0
                            } else {
                                final(self)@ == old(self)@
                            },
                            _ => final(self)@.kind == KindView::Idle && final(self)@.path.len()
                                == 0,
                        }
                    }
                } else {
                    final(self)@ == old(self)@
                }
            },
    {
        let p = match self.get_point() {
            Some(p) => p,
            None => {
                return ;
            },
        };
        let dist = p.dist2(position);
        if self.is_terminal() {
            if dist < OBJECTIVE_OK_DIST {
                self.advance(map);
            }
            return ;
        }
        if dist < OBJECTIVE_OK_DIST * OBJECTIVE_OK_DIST {
            if self.remaining_points() > 1 {
                self.advance(map);
                return ;
            }
            let k = match self.get_travers() {
                Some(k) => k,
                None => {
                    *self = Itinerary::none();
                    return ;
                },
            };
            if !k.is_valid(map) {
                *self = Itinerary::none();
                return ;
            }
            if k.can_pass(time, map) {
                self.advance(map);
            }
        }
    }
}

/// After `i` waypoints of a simple plan have been taken, the buffer is the
/// original path without its first `i` points; the next `advance` emits
/// exactly the `i`-th original waypoint and leaves the rest. Iterating from
/// `i = 0`, every waypoint is therefore emitted exactly once, in order, and
/// none is skipped or duplicated.
pub proof fn lemma_simple_drains_in_order(s: Seq<Vec2>, i: int, map: CityMap)
    requires
        0 <= i < s.len(),
    ensures
        s.skip(i).len() > 0,
        s.skip(i)[0] == s[i],
        spec_advance(ItinView { kind: KindView::Simple, path: s.skip(i) }, map).1 == Some(s[i]),
        spec_advance(ItinView { kind: KindView::Simple, path: s.skip(i) }, map).0.path == s.skip(
            i + 1,
        ),
        spec_advance(ItinView { kind: KindView::Simple, path: s.skip(i) }, map).0.kind
            == KindView::Simple,
{
    assert(s.skip(i).skip(1) =~= s.skip(i + 1));
    if s.skip(i).len() == 1 {
        assert(s.skip(i).skip(1) =~= Seq::<Vec2>::empty());
    }
}

} // verus!

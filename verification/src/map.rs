//! The road network graph: intersections, roads, lanes, buildings, lots and
//! parking spots, together with the derived geometry and the spatial index.
//!
//! Every structural mutation re-derives what depends on it — road
//! centerlines, lane polylines, turn lists, traffic controls and spatial
//! entries — before it returns, so no caller ever observes a
//! half-invalidated network. The well-formedness invariant `inv` states the
//! cross-references that make live edits safe: every handle stored anywhere
//! in the network refers to a live entity of the right kind.

use vstd::prelude::*;
use crate::arena::Arena;
use crate::geom::{AABB, MAX_COORD, Vec2, spec_dist2};
use crate::polyline::spec_project_segment;
use crate::handles::{BuildingID, IntersectionID, LaneID, LotID, ParkingSpotID, RoadID};
use crate::parking::{ParkingSpots, SpotState};
use crate::polyline::PolyLine;
use crate::spatial_map::{ProjectKind, SpatialMap, lemma_query_sound};
use crate::spline::{Spline, spec_eval_quarter};
use crate::traffic_control::{TrafficControl, TrafficLightSchedule};

verus! {

#[derive(Copy, Clone, Debug, PartialEq, Eq, Hash, Structural)]
pub enum LaneKind {
    Driving,
    Parking,
    Walking,
}

#[derive(Copy, Clone, Debug, PartialEq, Eq, Hash, Structural)]
pub enum LaneDirection {
    Forward,
    Backward,
}

/// The ordered lane kinds a road carries on each side.
pub struct LanePattern {
    pub forward: Vec<LaneKind>,
    pub backward: Vec<LaneKind>,
}

impl LanePattern {
    /// Each side that offers parking also offers driving (so a parked
    /// vehicle always has a drive lane to leave onto), the road is drivable
    /// forward, and at most eight lanes fit (which keeps the derived
    /// widths inside plain machine arithmetic).
    pub open spec fn wf(self) -> bool {
        &&& self.forward@.contains(LaneKind::Driving)
        &&& self.backward@.contains(LaneKind::Parking) ==> self.backward@.contains(
            LaneKind::Driving,
        )
        &&& self.forward@.contains(LaneKind::Parking) ==> self.forward@.contains(LaneKind::Driving)
        &&& self.forward@.len() + self.backward@.len() <= 8
    }

    /// One driving and one walking lane each way, optionally with parking.
    pub fn two_way(parking: bool) -> (r: LanePattern)
        ensures
            r.wf(),
            parking ==> r.forward@.contains(LaneKind::Parking),
    {
        let mut forward = vec![LaneKind::Driving, LaneKind::Walking];
        let mut backward = vec![LaneKind::Driving, LaneKind::Walking];
        if parking {
            forward.push(LaneKind::Parking);
            backward.push(LaneKind::Parking);
            proof {
                assert(forward@[0] == LaneKind::Driving);
                assert(forward@[2] == LaneKind::Parking);
                assert(backward@[0] == LaneKind::Driving);
                assert(backward@[2] == LaneKind::Parking);
            }
        } else {
            proof {
                assert(forward@[0] == LaneKind::Driving);
            }
        }
        LanePattern { forward, backward }
    }

    /// One driving and one walking lane in the forward direction only.
    pub fn one_way(parking: bool) -> (r: LanePattern)
        ensures
            r.wf(),
            parking ==> r.forward@.contains(LaneKind::Parking),
    {
        let mut forward = vec![LaneKind::Driving, LaneKind::Walking];
        if parking {
            forward.push(LaneKind::Parking);
            proof {
                assert(forward@[0] == LaneKind::Driving);
                assert(forward@[2] == LaneKind::Parking);
            }
        } else {
            proof {
                assert(forward@[0] == LaneKind::Driving);
            }
        }
        LanePattern { forward, backward: Vec::new() }
    }
}

#[derive(Copy, Clone, Debug, PartialEq, Eq, Structural)]
pub enum RoadSegmentKind {
    Straight,
    Curved(Vec2, Vec2),
}

pub struct Lane {
    pub id: LaneID,
    pub parent: RoadID,
    pub kind: LaneKind,
    pub direction: LaneDirection,
    pub points: PolyLine,
    pub control: TrafficControl,
}

pub struct Road {
    pub id: RoadID,
    pub src: IntersectionID,
    pub dst: IntersectionID,
    pub segment: RoadSegmentKind,
    pub src_point: Vec2,
    pub dst_point: Vec2,
    pub generated_points: PolyLine,
    pub lanes: Vec<LaneID>,
    pub lots: Vec<LotID>,
    pub width: i64,
}

/// One legal movement through an intersection: from the end of one incoming
/// lane to the start of one outgoing lane of the same kind.
pub struct Turn {
    pub src: LaneID,
    pub dst: LaneID,
    pub points: PolyLine,
}

pub struct Intersection {
    pub id: IntersectionID,
    pub pos: Vec2,
    pub roads: Vec<RoadID>,
    pub turns: Vec<Turn>,
    pub interface_radius: i64,
    pub polygon: AABB,
}

#[derive(Copy, Clone, Debug, PartialEq, Eq, Structural)]
pub enum BuildingKind {
    House,
    Workplace,
    Supermarket,
}

pub struct Lot {
    pub id: LotID,
    pub parent: RoadID,
    pub pos: Vec2,
    pub shape: AABB,
}

pub struct Building {
    pub id: BuildingID,
    pub kind: BuildingKind,
    pub door_pos: Vec2,
    pub exterior: AABB,
}

/// Equal up to the traffic control (recomputing an intersection's controls
/// rewrites incoming lanes' control and nothing else).
pub open spec fn lane_same_mod_control(a: Lane, b: Lane) -> bool {
    &&& a.id == b.id
    &&& a.parent == b.parent
    &&& a.kind == b.kind
    &&& a.direction == b.direction
    &&& a.points@ == b.points@
}

/// Equal up to the abutting-lot list (purging or generating lots rewrites
/// that list and nothing else of a road).
pub open spec fn road_same_mod_lots(a: Road, b: Road) -> bool {
    &&& a.id == b.id
    &&& a.src == b.src
    &&& a.dst == b.dst
    &&& a.segment == b.segment
    &&& a.src_point == b.src_point
    &&& a.dst_point == b.dst_point
    &&& a.generated_points@ == b.generated_points@
    &&& a.lanes@ == b.lanes@
    &&& a.width == b.width
}

/// Equal up to the derived per-intersection state (turn list, polygon,
/// interface radius), which an invalidation recomputes.
pub open spec fn inter_same_mod_derived(a: Intersection, b: Intersection) -> bool {
    &&& a.id == b.id
    &&& a.pos == b.pos
    &&& a.roads@ == b.roads@
}

/// The dirty flag plays no part in well-formedness: flipping it alone
/// preserves the invariant.
pub proof fn lemma_inv_mod_dirty(a: CityMap, b: CityMap)
    requires
        a.inv(),
        b.roads == a.roads,
        b.lanes == a.lanes,
        b.intersections == a.intersections,
        b.buildings == a.buildings,
        b.lots == a.lots,
        b.parking == a.parking,
        b.spatial_map == a.spatial_map,
    ensures
        b.inv(),
{
    assert forall|k: int| b.roads.valid(k) implies #[trigger] b.road_ok(k) by {
        assert(a.road_ok(k));
    };
    assert forall|k: int| b.lanes.valid(k) implies #[trigger] b.lane_ok(k) by {
        assert(a.lane_ok(k));
    };
    assert forall|k: int| b.intersections.valid(k) implies #[trigger] b.inter_ok(k) by {
        assert(a.inter_ok(k));
    };
    assert forall|k: int| b.lots.valid(k) implies #[trigger] b.lot_ok(k) by {
        assert(a.lot_ok(k));
    };
    assert forall|k: int| b.buildings.valid(k) implies #[trigger] b.building_ok(k) by {
        assert(a.building_ok(k));
    };
    assert forall|k: int| b.parking.spots.valid(k) implies #[trigger] b.spot_ok(k) by {
        assert(a.spot_ok(k));
    };
    assert forall|pk: ProjectKind| #[trigger] b.spatial_map.s_contains_key(pk) implies
        b.spatial_key_ok(pk) by {
        assert(a.spatial_map.s_contains_key(pk));
        assert(a.spatial_key_ok(pk));
    };
}

/// What `Map::project` resolves a position to.
#[derive(Copy, Clone, Debug, PartialEq, Eq, Structural)]
pub struct MapProject {
    pub pos: Vec2,
    pub kind: ProjectKind,
}

/// The centerline a road derives from its endpoints and segment kind: the
/// two endpoints for a straight road, with the curve's midpoint between
/// them for a curved one.
pub open spec fn spec_road_points(segment: RoadSegmentKind, a: Vec2, b: Vec2) -> Seq<Vec2> {
    match segment {
        RoadSegmentKind::Straight => seq![a, b],
        RoadSegmentKind::Curved(d0, d1) => seq![
            a,
            spec_eval_quarter(
                Spline { from: a, to: b, from_derivative: d0, to_derivative: d1 },
                2,
            ),
            b,
        ],
    }
}

/// The squared distance from `p` to lane `k`'s polyline (its projection
/// onto the nearest segment).
pub open spec fn spec_lane_dist2(m: CityMap, p: Vec2, k: int) -> int {
    spec_dist2(p, spec_project_segment(m.lanes.s_get(k).points@, p).unwrap().1)
}

/// `l` is the lane of the requested kind nearest to `p`: no lane of that
/// kind lies strictly closer, and among equally near ones `l` has the
/// lowest handle. At most one lane satisfies this.
pub open spec fn spec_is_nearest_lane(m: CityMap, p: Vec2, kind: LaneKind, l: LaneID) -> bool {
    &&& m.lanes.valid(l.0 as int)
    &&& m.lanes.s_get(l.0 as int).kind == kind
    &&& forall|j: int|
        m.lanes.valid(j) && (#[trigger] m.lanes.s_get(j)).kind == kind ==> spec_lane_dist2(
            m,
            p,
            l.0 as int,
        ) <= spec_lane_dist2(m, p, j) && (spec_lane_dist2(m, p, j) == spec_lane_dist2(
            m,
            p,
            l.0 as int,
        ) ==> l.0 as int <= j)
}

/// `l` is the lane a vehicle leaves `spot` onto: the first lane of the
/// spot's road that drives in the parking lane's direction.
pub open spec fn spec_is_park_exit_lane(m: CityMap, spot: ParkingSpotID, l: LaneID) -> bool {
    let plane = m.parking.s_get(spot).parent;
    let rk = m.lanes.s_get(plane.0 as int).parent.0 as int;
    &&& m.parking.s_valid(spot)
    &&& m.lanes.valid(plane.0 as int)
    &&& m.roads.valid(rk)
    &&& m.lanes.valid(l.0 as int)
    &&& m.lanes.s_get(l.0 as int).kind == LaneKind::Driving
    &&& m.lanes.s_get(l.0 as int).direction == m.lanes.s_get(plane.0 as int).direction
    &&& m.lanes.s_get(l.0 as int).parent == m.lanes.s_get(plane.0 as int).parent
    &&& exists|j: int|
        {
            &&& 0 <= j < m.roads.s_get(rk).lanes@.len()
            &&& (#[trigger] m.roads.s_get(rk).lanes@[j]) == l
            &&& forall|jj: int|
                0 <= jj < j ==> !(m.lanes.s_get(
                    (#[trigger] m.roads.s_get(rk).lanes@[jj]).0 as int,
                ).kind == LaneKind::Driving && m.lanes.s_get(
                    m.roads.s_get(rk).lanes@[jj].0 as int,
                ).direction == m.lanes.s_get(plane.0 as int).direction)
        }
}

/// Two lanes both nearest to the same point are the same lane.
pub proof fn lemma_nearest_lane_unique(m: CityMap, p: Vec2, kind: LaneKind, a: LaneID, b: LaneID)
    requires
        m.inv(),
        spec_is_nearest_lane(m, p, kind, a),
        spec_is_nearest_lane(m, p, kind, b),
    ensures
        a == b,
{
    assert(m.lanes.s_get(a.0 as int).kind == kind);
    assert(m.lanes.s_get(b.0 as int).kind == kind);
    assert(a.0 as int <= b.0 as int);
    assert(b.0 as int <= a.0 as int);
    assert(m.lane_ok(a.0 as int));
    assert(m.lane_ok(b.0 as int));
    assert(m.lanes.s_get(a.0 as int).id == LaneID(a.0));
    assert(m.lanes.s_get(b.0 as int).id == LaneID(b.0));
}

pub struct CityMap {
    pub roads: Arena<Road>,
    pub lanes: Arena<Lane>,
    pub intersections: Arena<Intersection>,
    pub buildings: Arena<Building>,
    pub lots: Arena<Lot>,
    pub parking: ParkingSpots,
    pub spatial_map: SpatialMap,
    pub dirty: bool,
}

impl CityMap {
    pub open spec fn road_ok(self, k: int) -> bool {
        let r = self.roads.s_get(k);
        &&& r.id == RoadID(k as usize)
        &&& self.intersections.valid(r.src.0 as int)
        &&& self.intersections.valid(r.dst.0 as int)
        &&& self.intersections.s_get(r.src.0 as int).roads@.contains(r.id)
        &&& self.intersections.s_get(r.dst.0 as int).roads@.contains(r.id)
        &&& r.src_point.in_bounds()
        &&& r.dst_point.in_bounds()
        &&& match r.segment {
            RoadSegmentKind::Curved(d0, d1) => d0.in_bounds() && d1.in_bounds(),
            _ => true,
        }
        &&& r.generated_points.in_bounds()
        &&& r.generated_points@.len() >= 2
        &&& 0 <= r.width <= 1000
        &&& forall|j: int|
            0 <= j < r.lanes@.len() ==> self.lanes.valid((#[trigger] r.lanes@[j]).0 as int)
                && self.lanes.s_get(r.lanes@[j].0 as int).parent == r.id
        &&& forall|j: int|
            0 <= j < r.lots@.len() ==> self.lots.valid((#[trigger] r.lots@[j]).0 as int)
                && self.lots.s_get(r.lots@[j].0 as int).parent == r.id
    }

    pub open spec fn lane_ok(self, k: int) -> bool {
        let l = self.lanes.s_get(k);
        &&& l.id == LaneID(k as usize)
        &&& self.roads.valid(l.parent.0 as int)
        &&& self.roads.s_get(l.parent.0 as int).lanes@.contains(l.id)
        &&& l.points.in_bounds()
        &&& l.points@.len() >= 2
        &&& l.control.wf()
        &&& l.kind == LaneKind::Parking ==> exists|j: int|
            {
                &&& 0 <= j < self.roads.s_get(l.parent.0 as int).lanes@.len()
                &&& self.lanes.valid(
                    (#[trigger] self.roads.s_get(l.parent.0 as int).lanes@[j]).0 as int,
                )
                &&& self.lanes.s_get(
                    self.roads.s_get(l.parent.0 as int).lanes@[j].0 as int,
                ).kind == LaneKind::Driving
                &&& self.lanes.s_get(
                    self.roads.s_get(l.parent.0 as int).lanes@[j].0 as int,
                ).direction == l.direction
            }
    }

    /// The intersection a lane runs into (its traffic end).
    pub open spec fn lane_end_inter(self, lid: LaneID) -> IntersectionID {
        let l = self.lanes.s_get(lid.0 as int);
        let r = self.roads.s_get(l.parent.0 as int);
        match l.direction {
            LaneDirection::Forward => r.dst,
            LaneDirection::Backward => r.src,
        }
    }

    /// The intersection a lane leaves from (its traffic start).
    pub open spec fn lane_start_inter(self, lid: LaneID) -> IntersectionID {
        let l = self.lanes.s_get(lid.0 as int);
        let r = self.roads.s_get(l.parent.0 as int);
        match l.direction {
            LaneDirection::Forward => r.src,
            LaneDirection::Backward => r.dst,
        }
    }

    pub open spec fn inter_ok(self, k: int) -> bool {
        let i = self.intersections.s_get(k);
        &&& i.id == IntersectionID(k as usize)
        &&& i.pos.in_bounds()
        &&& i.polygon.wf()
        &&& 0 <= i.interface_radius <= 1000
        &&& forall|j: int|
            0 <= j < i.roads@.len() ==> self.roads.valid((#[trigger] i.roads@[j]).0 as int) && (
            self.roads.s_get(i.roads@[j].0 as int).src == i.id || self.roads.s_get(
                i.roads@[j].0 as int,
            ).dst == i.id)
        &&& forall|j: int|
            0 <= j < i.turns@.len() ==> {
                let t = #[trigger] i.turns@[j];
                &&& self.lanes.valid(t.src.0 as int)
                &&& self.lanes.valid(t.dst.0 as int)
                &&& t.points.in_bounds()
                &&& t.points@.len() >= 2
                &&& self.lane_end_inter(t.src) == i.id
                &&& self.lane_start_inter(t.dst) == i.id
            }
    }

    pub open spec fn lot_ok(self, k: int) -> bool {
        let l = self.lots.s_get(k);
        &&& l.id == LotID(k as usize)
        &&& self.roads.valid(l.parent.0 as int)
        &&& self.roads.s_get(l.parent.0 as int).lots@.contains(l.id)
        &&& l.pos.in_bounds()
        &&& l.shape.wf()
        &&& self.spatial_map.s_contains_key(ProjectKind::Lot(l.id))
        &&& self.spatial_map.s_shape_of(ProjectKind::Lot(l.id)) == l.shape
    }

    pub open spec fn building_ok(self, k: int) -> bool {
        let b = self.buildings.s_get(k);
        &&& b.id == BuildingID(k as usize)
        &&& b.door_pos.in_bounds()
        &&& b.exterior.wf()
    }

    pub open spec fn spot_ok(self, k: int) -> bool {
        let s = self.parking.spots.s_get(k);
        &&& self.lanes.valid(s.parent.0 as int)
        &&& self.lanes.s_get(s.parent.0 as int).kind == LaneKind::Parking
    }

    pub open spec fn spatial_key_ok(self, pk: ProjectKind) -> bool {
        match pk {
            ProjectKind::Inter(id) => self.intersections.valid(id.0 as int),
            ProjectKind::Road(id) => self.roads.valid(id.0 as int),
            ProjectKind::Building(id) => self.buildings.valid(id.0 as int),
            ProjectKind::Lot(id) => self.lots.valid(id.0 as int),
            ProjectKind::Ground => false,
        }
    }

    /// Well-formedness of the whole network: every stored handle is live
    /// and of the right kind, all geometry lies in the coordinate space,
    /// and the spatial index only mentions live entities.
    pub open spec fn inv(self) -> bool {
        &&& self.roads.wf()
        &&& self.lanes.wf()
        &&& self.intersections.wf()
        &&& self.buildings.wf()
        &&& self.lots.wf()
        &&& self.parking.wf()
        &&& self.spatial_map.wf()
        &&& forall|k: int| self.roads.valid(k) ==> #[trigger] self.road_ok(k)
        &&& forall|k: int| self.lanes.valid(k) ==> #[trigger] self.lane_ok(k)
        &&& forall|k: int| self.intersections.valid(k) ==> #[trigger] self.inter_ok(k)
        &&& forall|k: int| self.lots.valid(k) ==> #[trigger] self.lot_ok(k)
        &&& forall|k: int| self.buildings.valid(k) ==> #[trigger] self.building_ok(k)
        &&& forall|k: int| self.parking.spots.valid(k) ==> #[trigger] self.spot_ok(k)
        &&& forall|pk: ProjectKind|
            #[trigger] self.spatial_map.s_contains_key(pk) ==> self.spatial_key_ok(pk)
    }

    /// An empty network.
    pub fn empty() -> (r: CityMap)
        ensures
            r.inv(),
            r.roads.s_len() == 0,
            r.lanes.s_len() == 0,
            r.intersections.s_len() == 0,
            r.buildings.s_len() == 0,
            r.lots.s_len() == 0,
            r.parking.spots.s_len() == 0,
            r.dirty,
    {
        let m = CityMap {
            roads: Arena::new(),
            lanes: Arena::new(),
            intersections: Arena::new(),
            buildings: Arena::new(),
            lots: Arena::new(),
            parking: ParkingSpots::new(),
            spatial_map: SpatialMap::new(),
            dirty: true,
        };
        proof {
            assert(forall|k: int| !m.roads.valid(k));
            assert(forall|k: int| !m.lanes.valid(k));
            assert(forall|k: int| !m.intersections.valid(k));
            assert(forall|k: int| !m.lots.valid(k));
            assert(forall|k: int| !m.buildings.valid(k));
            assert(forall|k: int| !m.parking.spots.valid(k));
            assert(forall|pk: ProjectKind| !m.spatial_map.s_contains_key(pk));
        }
        m
    }

    pub fn roads(&self) -> (r: &Arena<Road>)
        ensures
            r == &self.roads,
    {
        &self.roads
    }

    pub fn lanes(&self) -> (r: &Arena<Lane>)
        ensures
            r == &self.lanes,
    {
        &self.lanes
    }

    pub fn intersections(&self) -> (r: &Arena<Intersection>)
        ensures
            r == &self.intersections,
    {
        &self.intersections
    }

    pub fn buildings(&self) -> (r: &Arena<Building>)
        ensures
            r == &self.buildings,
    {
        &self.buildings
    }

    pub fn lots(&self) -> (r: &Arena<Lot>)
        ensures
            r == &self.lots,
    {
        &self.lots
    }

    pub fn spatial_map(&self) -> (r: &SpatialMap)
        ensures
            r == &self.spatial_map,
    {
        &self.spatial_map
    }

    pub fn is_empty(&self) -> (r: bool)
        requires
            self.inv(),
        ensures
            r <==> self.roads.s_len() == 0 && self.lanes.s_len() == 0 && self.intersections.s_len()
                == 0,
    {
        self.roads.is_empty() && self.lanes.is_empty() && self.intersections.is_empty()
    }

    /// The road from `src` to `dst`, if one exists (lowest handle wins).
    pub fn find_road(&self, src: IntersectionID, dst: IntersectionID) -> (r: Option<RoadID>)
        requires
            self.inv(),
        ensures
            r is Some ==> {
                let id = r.unwrap();
                &&& self.roads.valid(id.0 as int)
                &&& self.roads.s_get(id.0 as int).src == src
                &&& self.roads.s_get(id.0 as int).dst == dst
            },
            r is None ==> forall|k: int|
                self.roads.valid(k) ==> !((#[trigger] self.roads.s_get(k)).src == src
                    && self.roads.s_get(k).dst == dst),
    {
        let n = self.roads.capacity();
        let mut k: usize = 0;
        while k < n
            invariant
                0 <= k <= n,
                self.inv(),
                n == self.roads.slots_seq().len(),
                forall|j: int|
                    0 <= j < k && self.roads.valid(j) ==> !((#[trigger] self.roads.s_get(j)).src
                        == src && self.roads.s_get(j).dst == dst),
            decreases n - k,
        {
            if let Some(road) = self.roads.get(k) {
                if road.src == src && road.dst == dst {
                    return Some(RoadID(k));
                }
            }
            k = k + 1;
        }
        None
    }

    /// The lane of the requested kind whose polyline passes nearest `p`
    /// (lowest handle on a tie); `None` exactly when no lane of that kind
    /// exists.
    pub fn nearest_lane(&self, p: Vec2, kind: LaneKind) -> (r: Option<LaneID>)
        requires
            self.inv(),
            p.in_bounds(),
        ensures
            r is None <==> forall|k: int|
                self.lanes.valid(k) ==> (#[trigger] self.lanes.s_get(k)).kind != kind,
            r is Some ==> spec_is_nearest_lane(*self, p, kind, r.unwrap()),
    {
        let n = self.lanes.capacity();
        let mut found: bool = false;
        let mut best: usize = 0;
        let mut best_d: i64 = 0;
        let mut k: usize = 0;
        while k < n
            invariant
                0 <= k <= n,
                self.inv(),
                p.in_bounds(),
                n == self.lanes.slots_seq().len(),
                !found ==> forall|j: int|
                    0 <= j < k && self.lanes.valid(j) ==> (#[trigger] self.lanes.s_get(j)).kind
                        != kind,
                found ==> best < k && self.lanes.valid(best as int) && self.lanes.s_get(
                    best as int,
                ).kind == kind && best_d == spec_lane_dist2(*self, p, best as int),
                found ==> forall|j: int|
                    0 <= j < k && self.lanes.valid(j) && (#[trigger] self.lanes.s_get(j)).kind
                        == kind ==> best_d <= spec_lane_dist2(*self, p, j) && (spec_lane_dist2(
                        *self,
                        p,
                        j,
                    ) == best_d ==> best as int <= j),
            decreases n - k,
        {
            let cand = match self.lanes.get(k) {
                Some(l) => {
                    if l.kind == kind {
                        proof {
                            assert(self.lane_ok(k as int));
                        }
                        match l.points.project(p) {
                            Some(proj) => Some(proj),
                            None => None,
                        }
                    } else {
                        None
                    }
                },
                None => None,
            };
            if let Some(proj) = cand {
                proof {
                    assert(self.lane_ok(k as int));
                }
                let d = p.dist2(proj);
                proof {
                    assert(d == spec_lane_dist2(*self, p, k as int));
                }
                if !found || d < best_d {
                    found = true;
                    best = k;
                    best_d = d;
                }
            }
            k = k + 1;
        }
        if found {
            Some(LaneID(best))
        } else {
            None
        }
    }

    /// The driving lane, on the same road and in the same direction    /// The driving lane a parked vehicle leaves a spot onto: the first lane
    /// of its spot's road that drives in the parking lane's direction.
    /// Fails only on a stale spot handle.
    pub fn parking_to_drive(&self, spot: ParkingSpotID) -> (r: Option<LaneID>)
        requires
            self.inv(),
        ensures
            r is Some ==> spec_is_park_exit_lane(*self, spot, r.unwrap()),
            r is None <==> !self.parking.s_valid(spot),
    {
        let park_lane_id = match self.parking.get(spot) {
            Some(s) => s.parent,
            None => {
                return None;
            },
        };
        proof {
            assert(self.spot_ok(spot.0 as int));
        }
        let park_lane = match self.lanes.get(park_lane_id.0) {
            Some(l) => l,
            None => {
                return None;
            },
        };
        proof {
            assert(self.lane_ok(park_lane_id.0 as int));
        }
        let road = match self.roads.get(park_lane.parent.0) {
            Some(r) => r,
            None => {
                return None;
            },
        };
        proof {
            assert(self.road_ok(park_lane.parent.0 as int));
        }
        let dir = park_lane.direction;
        let n = road.lanes.len();
        let mut j: usize = 0;
        let ghost rk = park_lane.parent.0 as int;
        while j < n
            invariant
                0 <= j <= n,
                self.inv(),
                self.roads.valid(rk),
                rk == self.lanes.s_get(park_lane_id.0 as int).parent.0 as int,
                road == &self.roads.s_get(rk),
                n == road.lanes@.len(),
                self.lanes.valid(park_lane_id.0 as int),
                park_lane == &self.lanes.s_get(park_lane_id.0 as int),
                park_lane.kind == LaneKind::Parking,
                self.parking.s_valid(spot),
                self.parking.s_get(spot).parent == park_lane_id,
                dir == park_lane.direction,
                forall|i: int|
                    0 <= i < j ==> !(self.lanes.s_get(
                        (#[trigger] road.lanes@[i]).0 as int,
                    ).kind == LaneKind::Driving && self.lanes.s_get(road.lanes@[i].0 as int).direction
                        == dir),
            decreases n - j,
        {
            proof {
                assert(self.road_ok(rk));
            }
            let lid = road.lanes[j];
            if let Some(l) = self.lanes.get(lid.0) {
                if l.kind == LaneKind::Driving && l.direction == dir {
                    proof {
                        assert(self.road_ok(rk));
                        assert(self.lanes.s_get(lid.0 as int).parent == self.roads.s_get(rk).id);
                        assert(self.lanes.s_get(park_lane_id.0 as int).parent == self.roads.s_get(
                            rk,
                        ).id);
                        assert(self.roads.s_get(rk).lanes@[j as int] == lid);
                    }
                    return Some(lid);
                }
            }
            j = j + 1;
        }
        proof {
            assert(self.lane_ok(park_lane_id.0 as int));
            let pk = park_lane_id.0 as int;
            let prd = self.lanes.s_get(pk).parent.0 as int;
            let jj = choose|jj: int|
                {
                    &&& 0 <= jj < self.roads.s_get(prd).lanes@.len()
                    &&& self.lanes.valid(
                        (#[trigger] self.roads.s_get(prd).lanes@[jj]).0 as int,
                    )
                    &&& self.lanes.s_get(
                        self.roads.s_get(prd).lanes@[jj].0 as int,
                    ).kind == LaneKind::Driving
                    &&& self.lanes.s_get(
                        self.roads.s_get(prd).lanes@[jj].0 as int,
                    ).direction == self.lanes.s_get(pk).direction
                };
            assert(false);
        }
        None
    }
}

/// Changing only the states of parking spots (reserving, occupying or
/// freeing them) preserves well-formedness: nothing else in the network
/// reads a spot's state.
pub proof fn lemma_inv_mod_spot_states(a: CityMap, b: CityMap)
    requires
        a.inv(),
        b.roads == a.roads,
        b.lanes == a.lanes,
        b.intersections == a.intersections,
        b.buildings == a.buildings,
        b.lots == a.lots,
        b.spatial_map == a.spatial_map,
        b.parking.wf(),
        forall|k: int| b.parking.spots.valid(k) <==> a.parking.spots.valid(k),
        forall|k: int|
            a.parking.spots.valid(k) ==> (#[trigger] b.parking.spots.s_get(k)).parent
                == a.parking.spots.s_get(k).parent,
    ensures
        b.inv(),
{
    assert forall|k: int| b.roads.valid(k) implies #[trigger] b.road_ok(k) by {
        assert(a.road_ok(k));
    };
    assert forall|k: int| b.lanes.valid(k) implies #[trigger] b.lane_ok(k) by {
        assert(a.lane_ok(k));
    };
    assert forall|k: int| b.intersections.valid(k) implies #[trigger] b.inter_ok(k) by {
        assert(a.inter_ok(k));
    };
    assert forall|k: int| b.lots.valid(k) implies #[trigger] b.lot_ok(k) by {
        assert(a.lot_ok(k));
    };
    assert forall|k: int| b.buildings.valid(k) implies #[trigger] b.building_ok(k) by {
        assert(a.building_ok(k));
    };
    assert forall|k: int| b.parking.spots.valid(k) implies #[trigger] b.spot_ok(k) by {
        assert(a.spot_ok(k));
    };
    assert forall|pk: ProjectKind| #[trigger] b.spatial_map.s_contains_key(pk) implies
        b.spatial_key_ok(pk) by {
        assert(a.spatial_map.s_contains_key(pk));
        assert(a.spatial_key_ok(pk));
    };
}

/// What scanning the spatial candidates from index `i` resolves `pos` to:
/// an exact interior hit on an intersection, lot or building wins at once;
/// the first road whose centerline passes within half its width is
/// remembered and used only if no exact hit follows; otherwise `pos` is
/// open ground.
pub open spec fn spec_project_scan(
    m: CityMap,
    pos: Vec2,
    cands: Seq<ProjectKind>,
    i: int,
    qroad: Option<(RoadID, Vec2)>,
) -> MapProject
    decreases cands.len() - i,
{
    if i < 0 || i >= cands.len() {
        match qroad {
            Some((id, p)) => MapProject { pos: p, kind: ProjectKind::Road(id) },
            None => MapProject { pos, kind: ProjectKind::Ground },
        }
    } else {
        match cands[i] {
            ProjectKind::Inter(id) => if m.intersections.valid(id.0 as int)
                && m.intersections.s_get(id.0 as int).polygon.spec_contains(pos) {
                MapProject { pos: m.intersections.s_get(id.0 as int).pos, kind: cands[i] }
            } else {
                spec_project_scan(m, pos, cands, i + 1, qroad)
            },
            ProjectKind::Lot(id) => if m.lots.valid(id.0 as int) && m.lots.s_get(
                id.0 as int,
            ).shape.spec_contains(pos) {
                MapProject { pos, kind: cands[i] }
            } else {
                spec_project_scan(m, pos, cands, i + 1, qroad)
            },
            ProjectKind::Building(id) => if m.buildings.valid(id.0 as int) && m.buildings.s_get(
                id.0 as int,
            ).exterior.spec_contains(pos) {
                MapProject { pos, kind: cands[i] }
            } else {
                spec_project_scan(m, pos, cands, i + 1, qroad)
            },
            ProjectKind::Road(id) => if qroad is None && m.roads.valid(id.0 as int) {
                let pr = spec_project_segment(
                    m.roads.s_get(id.0 as int).generated_points@,
                    pos,
                );
                if pr is Some && spec_dist2(pr.unwrap().1, pos) <= (m.roads.s_get(
                    id.0 as int,
                ).width / 2) * (m.roads.s_get(id.0 as int).width / 2) {
                    spec_project_scan(m, pos, cands, i + 1, Some((id, pr.unwrap().1)))
                } else {
                    spec_project_scan(m, pos, cands, i + 1, qroad)
                }
            } else {
                spec_project_scan(m, pos, cands, i + 1, qroad)
            },
            ProjectKind::Ground => spec_project_scan(m, pos, cands, i + 1, qroad),
        }
    }
}

impl CityMap {
    /// Resolves a position to the nearest map feature. Exact interior hits
    /// on intersections, lots and buildings win immediately; road
    /// proximity is a fallback, used only if no exact hit occurs; an empty
    /// spot resolves to ground, never an error.
    pub fn project(&self, pos: Vec2) -> (r: MapProject)
        requires
            self.inv(),
            pos.in_bounds(),
        ensures
            r == spec_project_scan(
                *self,
                pos,
                crate::spatial_map::query_spec(
                    self.spatial_map.entries@,
                    AABB { lo: pos, hi: pos },
                ),
                0,
                None::<(RoadID, Vec2)>,
            ),
    {
        let cands = self.spatial_map.query_point(pos);
        let n = cands.len();
        let mut qroad: Option<(RoadID, Vec2)> = None;
        let mut i: usize = 0;
        let ghost full = cands@;
        while i < n
            invariant
                0 <= i <= n,
                self.inv(),
                pos.in_bounds(),
                n == cands@.len(),
                cands@ == full,
                full == crate::spatial_map::query_spec(
                    self.spatial_map.entries@,
                    AABB { lo: pos, hi: pos },
                ),
                match qroad {
                    Some((id, p)) => self.roads.valid(id.0 as int) && p.in_bounds(),
                    None => true,
                },
                spec_project_scan(*self, pos, full, 0, None::<(RoadID, Vec2)>)
                    == spec_project_scan(*self, pos, full, i as int, qroad),
            decreases n - i,
        {
            let pk = cands[i];
            proof {
                assert(full.contains(pk));
                crate::spatial_map::lemma_query_key_present(
                    self.spatial_map,
                    AABB { lo: pos, hi: pos },
                    pk,
                );
                assert(self.spatial_key_ok(pk));
            }
            match pk {
                ProjectKind::Inter(id) => {
                    let inter = match self.intersections.get(id.0) {
                        Some(it) => it,
                        None => {
                            proof {
                                assert(false);
                            }
                            unreached()
                        },
                    };
                    proof {
                        assert(self.inter_ok(id.0 as int));
                    }
                    if inter.polygon.contains(pos) {
                        return MapProject { pos: inter.pos, kind: pk };
                    }
                },
                ProjectKind::Lot(id) => {
                    let lot = match self.lots.get(id.0) {
                        Some(l) => l,
                        None => {
                            proof {
                                assert(false);
                            }
                            unreached()
                        },
                    };
                    if lot.shape.contains(pos) {
                        return MapProject { pos, kind: pk };
                    }
                },
                ProjectKind::Building(id) => {
                    let bd = match self.buildings.get(id.0) {
                        Some(b) => b,
                        None => {
                            proof {
                                assert(false);
                            }
                            unreached()
                        },
                    };
                    if bd.exterior.contains(pos) {
                        return MapProject { pos, kind: pk };
                    }
                },
                ProjectKind::Road(id) => {
                    if qroad.is_none() {
                        let rd = match self.roads.get(id.0) {
                            Some(r) => r,
                            None => {
                                proof {
                                    assert(false);
                                }
                                unreached()
                            },
                        };
                        proof {
                            assert(self.road_ok(id.0 as int));
                        }
                        match rd.generated_points.project(pos) {
                            Some(pr) => {
                                let half = rd.width / 2;
                                proof {
                                    assert(0 <= half * half <= 250_000) by (nonlinear_arith)
                                        requires
                                            0 <= half <= 500,
                                    ;
                                }
                                if pr.dist2(pos) <= half * half {
                                    qroad = Some((id, pr));
                                }
                            },
                            None => {},
                        }
                    }
                },
                ProjectKind::Ground => {},
            }
            i = i + 1;
        }
        match qroad {
            Some((id, p)) => MapProject { pos: p, kind: ProjectKind::Road(id) },
            None => MapProject { pos, kind: ProjectKind::Ground },
        }
    }
}

} // verus!

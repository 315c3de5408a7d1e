//! Structural mutation of the road network.
//!
//! Every mutation here re-derives the dependent state — lane geometry, turn
//! lists, traffic controls, intersection polygons, parking spots, abutting
//! lots and spatial entries — before returning, so the well-formedness
//! invariant `CityMap::inv` holds again at every exit.

use vstd::prelude::*;
use crate::arena::Arena;
use crate::geom::{AABB, MAX_COORD, Vec2};
use crate::handles::{BuildingID, IntersectionID, LaneID, LotID, RoadID};
use crate::map::{
    Building, BuildingKind, CityMap, Intersection, Lane, LaneDirection, LaneKind, LanePattern,
    Lot, Road, RoadSegmentKind, Turn, spec_road_points,
};
use crate::polyline::{PolyLine, spec_bbox};
use crate::spatial_map::{ProjectKind, lemma_query_sound, lemma_query_complete};
use crate::spline::Spline;
use crate::traffic_control::{TrafficControl, TrafficLightSchedule};

verus! {

/// How far from a new road's bounding box existing lots are purged, and how
/// far from the centerline new lots are seated.
pub const LOT_CLEARANCE: i64 = 30;

/// An owned copy of a vector of plain values.
fn copy_vec<T: Copy>(v: &Vec<T>) -> (r: Vec<T>)
    ensures
        r@ == v@,
{
    let mut r: Vec<T> = Vec::new();
    let mut i: usize = 0;
    let n = v.len();
    while i < n
        invariant
            0 <= i <= n,
            n == v@.len(),
            r@ == v@.take(i as int),
        decreases n - i,
    {
        r.push(v[i]);
        proof {
            assert(v@.take(i + 1) =~= v@.take(i as int).push(v@[i as int]));
        }
        i = i + 1;
    }
    proof {
        assert(v@.take(n as int) =~= v@);
    }
    r
}

/// The centerline a road derives from its endpoints: see
/// `spec_road_points`.
fn gen_points(segment: RoadSegmentKind, a: Vec2, b: Vec2) -> (r: PolyLine)
    requires
        a.in_bounds(),
        b.in_bounds(),
        match segment {
            RoadSegmentKind::Curved(d0, d1) => d0.in_bounds() && d1.in_bounds(),
            _ => true,
        },
    ensures
        r@ == spec_road_points(segment, a, b),
        r.in_bounds(),
        2 <= r@.len() <= 3,
{
    match segment {
        RoadSegmentKind::Straight => {
            let mut p = PolyLine::with_capacity(2);
            p.push(a);
            p.push(b);
            proof {
                assert(p@ =~= spec_road_points(segment, a, b));
            }
            p
        },
        RoadSegmentKind::Curved(d0, d1) => {
            let s = Spline { from: a, to: b, from_derivative: d0, to_derivative: d1 };
            let mid = s.eval_quarter(2);
            let mut p = PolyLine::with_capacity(3);
            p.push(a);
            p.push(mid);
            p.push(b);
            proof {
                assert(p@ =~= spec_road_points(segment, a, b));
            }
            p
        },
    }
}

impl CityMap {
    /// Creates an isolated intersection at `pos`.
    pub fn add_intersection(&mut self, pos: Vec2) -> (id: IntersectionID)
        requires
            old(self).inv(),
            pos.in_bounds(),
            old(self).intersections.slots_seq().len() < usize::MAX,
            old(self).spatial_map.entries@.len() < usize::MAX,
        ensures
            final(self).inv(),
            final(self).dirty,
            final(self).intersections.valid(id.0 as int),
            !old(self).intersections.valid(id.0 as int),
            final(self).intersections.s_get(id.0 as int).pos == pos,
            final(self).intersections.s_get(id.0 as int).roads@.len() == 0,
            final(self).intersections.s_get(id.0 as int).turns@.len() == 0,
            final(self).spatial_map.s_contains_key(ProjectKind::Inter(id)),
            forall|k: int|
                k != id.0 as int ==> (final(self).intersections.valid(k) <==> old(
                self).intersections.valid(k)),
            forall|k: int|
                k != id.0 as int && old(self).intersections.valid(k)
                    ==> final(self).intersections.s_get(k) == old(self).intersections.s_get(k),
            final(self).roads == old(self).roads,
            final(self).lanes == old(self).lanes,
            final(self).buildings == old(self).buildings,
            final(self).lots == old(self).lots,
            final(self).parking == old(self).parking,
            final(self).intersections.slots_seq().len() == old(
                self,
            ).intersections.slots_seq().len() + 1,
            final(self).spatial_map.entries@.len() <= old(self).spatial_map.entries@.len() + 1,
    {
        let k = self.intersections.capacity();
        let id = IntersectionID(k);
        let polygon = (AABB { lo: pos, hi: pos }).inflate(20);
        let inter = Intersection {
            id,
            pos,
            roads: Vec::new(),
            turns: Vec::new(),
            interface_radius: 20,
            polygon,
        };
        let got = self.intersections.insert(inter);
        self.spatial_map.insert(ProjectKind::Inter(id), polygon);
        self.dirty = true;
        proof {
            let m = *self;
            assert forall|j: int| m.roads.valid(j) implies #[trigger] m.road_ok(j) by {
                assert(old(self).road_ok(j));
            };
            assert forall|j: int| m.lanes.valid(j) implies #[trigger] m.lane_ok(j) by {
                assert(old(self).lane_ok(j));
            };
            assert forall|j: int| m.intersections.valid(j) implies #[trigger] m.inter_ok(j) by {
                if j != id.0 as int {
                    assert(old(self).inter_ok(j));
                }
            };
            assert forall|j: int| m.lots.valid(j) implies #[trigger] m.lot_ok(j) by {
                assert(old(self).lot_ok(j));
                let lid = ProjectKind::Lot(old(self).lots.s_get(j).id);
                assert(m.spatial_map.s_contains_key(lid) <==> old(
                    self,
                ).spatial_map.s_contains_key(lid));
            };
            assert forall|j: int| m.buildings.valid(j) implies #[trigger] m.building_ok(j) by {
                assert(old(self).building_ok(j));
            };
            assert forall|j: int| m.parking.spots.valid(j) implies #[trigger] m.spot_ok(j) by {
                assert(old(self).spot_ok(j));
            };
            assert forall|pk: ProjectKind| #[trigger] m.spatial_map.s_contains_key(pk) implies
                m.spatial_key_ok(pk) by {
                if pk != ProjectKind::Inter(id) {
                    assert(old(self).spatial_map.s_contains_key(pk));
                    assert(old(self).spatial_key_ok(pk));
                }
            };
        }
        id
    }

    /// Removes a building; a stale handle is a reported no-op.
    pub fn remove_building(&mut self, b: BuildingID) -> (r: Option<Building>)
        requires
            old(self).inv(),
        ensures
            final(self).inv(),
            old(self).buildings.valid(b.0 as int) ==> r == Some(
                old(self).buildings.s_get(b.0 as int),
            ) && final(self).dirty,
            !old(self).buildings.valid(b.0 as int) ==> r is None,
            !final(self).buildings.valid(b.0 as int),
            forall|k: int|
                k != b.0 as int ==> (final(self).buildings.valid(k) <==> old(
                self).buildings.valid(k)),
            forall|k: int|
                k != b.0 as int && old(self).buildings.valid(k) ==> final(self).buildings.s_get(k)
                    == old(self).buildings.s_get(k),
            final(self).roads == old(self).roads,
            final(self).lanes == old(self).lanes,
            final(self).intersections == old(self).intersections,
            final(self).lots == old(self).lots,
            final(self).parking == old(self).parking,
    {
        let r = self.buildings.remove(b.0);
        if r.is_some() {
            self.spatial_map.remove(ProjectKind::Building(b));
            self.dirty = true;
        }
        proof {
            let m = *self;
            assert forall|j: int| m.roads.valid(j) implies #[trigger] m.road_ok(j) by {
                assert(old(self).road_ok(j));
            };
            assert forall|j: int| m.lanes.valid(j) implies #[trigger] m.lane_ok(j) by {
                assert(old(self).lane_ok(j));
            };
            assert forall|j: int| m.intersections.valid(j) implies #[trigger] m.inter_ok(j) by {
                assert(old(self).inter_ok(j));
            };
            assert forall|j: int| m.lots.valid(j) implies #[trigger] m.lot_ok(j) by {
                assert(old(self).lot_ok(j));
                let lid = ProjectKind::Lot(old(self).lots.s_get(j).id);
                assert(m.spatial_map.s_contains_key(lid) <==> old(
                    self,
                ).spatial_map.s_contains_key(lid));
            };
            assert forall|j: int| m.buildings.valid(j) implies #[trigger] m.building_ok(j) by {
                assert(old(self).building_ok(j));
            };
            assert forall|j: int| m.parking.spots.valid(j) implies #[trigger] m.spot_ok(j) by {
                assert(old(self).spot_ok(j));
            };
            assert forall|pk: ProjectKind| #[trigger] m.spatial_map.s_contains_key(pk) implies
                m.spatial_key_ok(pk) by {
                if pk != ProjectKind::Building(b) {
                    assert(old(self).spatial_map.s_contains_key(pk));
                    assert(old(self).spatial_key_ok(pk));
                }
            };
        }
        r
    }

    /// Forgets the whole network.
    pub fn clear(&mut self)
        ensures
            final(self).inv(),
            final(self).roads.s_len() == 0,
            final(self).lanes.s_len() == 0,
            final(self).intersections.s_len() == 0,
            final(self).buildings.s_len() == 0,
            final(self).lots.s_len() == 0,
            final(self).parking.spots.s_len() == 0,
            final(self).dirty,
    {
        *self = CityMap::empty();
    }
}

/// Membership in a sequence after a push.
proof fn lemma_push_contains<T>(s: Seq<T>, x: T, e: T)
    ensures
        s.push(x).contains(e) <==> (s.contains(e) || e == x),
{
    if s.contains(e) {
        let i = choose|i: int| 0 <= i < s.len() && s[i] == e;
        assert(s.push(x)[i] == e);
    }
    if e == x {
        assert(s.push(x)[s.len() as int] == e);
    }
    if s.push(x).contains(e) {
        let i = choose|i: int| 0 <= i < s.push(x).len() && s.push(x)[i] == e;
        if i < s.len() {
            assert(s[i] == e);
        }
    }
}

/// A copy of `v` without every occurrence of `x`.
fn vec_without(v: &Vec<LotID>, x: LotID) -> (r: Vec<LotID>)
    ensures
        forall|e: LotID| r@.contains(e) <==> (v@.contains(e) && e != x),
{
    let mut r: Vec<LotID> = Vec::new();
    let mut i: usize = 0;
    let n = v.len();
    while i < n
        invariant
            0 <= i <= n,
            n == v@.len(),
            forall|e: LotID| r@.contains(e) <==> (v@.take(i as int).contains(e) && e != x),
        decreases n - i,
    {
        let e = v[i];
        let ghost r0 = r@;
        if e.0 != x.0 {
            r.push(e);
        }
        proof {
            assert(v@.take(i + 1) =~= v@.take(i as int).push(v@[i as int]));
            assert forall|ee: LotID| r@.contains(ee) <==> (v@.take(i + 1).contains(ee) && ee
                != x) by {
                lemma_push_contains(v@.take(i as int), v@[i as int], ee);
                if e.0 != x.0 {
                    lemma_push_contains(r0, e, ee);
                    assert(e == v@[i as int]);
                    if ee == x {
                        assert(ee != e);
                    }
                } else {
                    assert(e == x);
                }
            };
        }
        i = i + 1;
    }
    proof {
        assert(v@.take(n as int) =~= v@);
    }
    r
}

impl CityMap {
    /// Drops one lot: from the arena, from its parent road's list and from
    /// the spatial index.
    fn remove_one_lot(&mut self, lid: LotID)
        requires
            old(self).inv(),
            old(self).lots.valid(lid.0 as int),
        ensures
            final(self).inv(),
            !final(self).lots.valid(lid.0 as int),
            forall|k: int|
                k != lid.0 as int ==> (final(self).lots.valid(k) <==> old(self).lots.valid(k)),
            forall|k: int|
                k != lid.0 as int && old(self).lots.valid(k) ==> final(self).lots.s_get(k) == old(
                self).lots.s_get(k),
            forall|k: int| final(self).roads.valid(k) <==> old(self).roads.valid(k),
            forall|k: int|
                old(self).roads.valid(k) ==> crate::map::road_same_mod_lots(
                    final(self).roads.s_get(k),
                    old(self).roads.s_get(k),
                ),
            forall|k: int, e: LotID|
                old(self).roads.valid(k) ==> (#[trigger] final(self).roads.s_get(
                    k,
                ).lots@.contains(e) <==> old(self).roads.s_get(k).lots@.contains(e) && e != lid),
            forall|k: int|
                k != old(self).lots.s_get(lid.0 as int).parent.0 as int && old(
                self).roads.valid(k) ==> #[trigger] final(self).roads.s_get(k) == old(
                self).roads.s_get(k),
            final(self).lanes == old(self).lanes,
            final(self).intersections == old(self).intersections,
            final(self).buildings == old(self).buildings,
            final(self).parking == old(self).parking,
            final(self).dirty == old(self).dirty,
            final(self).roads.slots_seq().len() == old(self).roads.slots_seq().len(),
            final(self).lots.slots_seq().len() == old(self).lots.slots_seq().len(),
            final(self).spatial_map.entries@.len() <= old(self).spatial_map.entries@.len(),
            !final(self).spatial_map.s_contains_key(ProjectKind::Lot(lid)),
            forall|pk: ProjectKind|
                pk != ProjectKind::Lot(lid) ==> (#[trigger] final(self).spatial_map.s_contains_key(
                    pk,
                ) <==> old(self).spatial_map.s_contains_key(pk)),
            forall|pk: ProjectKind|
                pk != ProjectKind::Lot(lid) ==> #[trigger] crate::spatial_map::find_shape(
                    final(self).spatial_map.entries@,
                    pk,
                ) == crate::spatial_map::find_shape(old(self).spatial_map.entries@, pk),
    {
        proof {
            assert(old(self).lot_ok(lid.0 as int));
        }
        let parent = match self.lots.get(lid.0) {
            Some(l) => l.parent,
            None => {
                proof {
                    assert(false);
                }
                RoadID(0)
            },
        };
        proof {
            assert(self.road_ok(parent.0 as int));
        }
        // rebuild the parent road without this lot
        let new_road = {
            let r = match self.roads.get(parent.0) {
                Some(r) => r,
                None => {
                    proof {
                        assert(false);
                    }
                    unreached()
                },
            };
            let lots = vec_without(&r.lots, lid);
            Road {
                id: r.id,
                src: r.src,
                dst: r.dst,
                segment: r.segment,
                src_point: r.src_point,
                dst_point: r.dst_point,
                generated_points: r.generated_points.clone_of(),
                lanes: copy_vec(&r.lanes),
                lots,
                width: r.width,
            }
        };
        self.roads.set(parent.0, new_road);
        self.lots.remove(lid.0);
        self.spatial_map.remove(ProjectKind::Lot(lid));
        proof {
            let m = *self;
            let pi = parent.0 as int;
            assert forall|j: int| m.roads.valid(j) implies #[trigger] m.road_ok(j) by {
                assert(old(self).road_ok(j));
                if j != pi {
                    assert forall|jj: int| 0 <= jj < m.roads.s_get(j).lots@.len() implies
                        m.lots.valid((#[trigger] m.roads.s_get(j).lots@[jj]).0 as int)
                            && m.lots.s_get(m.roads.s_get(j).lots@[jj].0 as int).parent
                            == m.roads.s_get(j).id by {
                        let e = m.roads.s_get(j).lots@[jj];
                        assert(m.roads.s_get(j) == old(self).roads.s_get(j));
                        assert(old(self).lots.valid(e.0 as int));
                        assert(old(self).lots.s_get(e.0 as int).parent == old(
                            self,
                        ).roads.s_get(j).id);
                        if e.0 == lid.0 {
                            assert(old(self).lots.s_get(lid.0 as int).parent == parent);
                            assert(old(self).roads.s_get(j).id == RoadID(j as usize));
                            assert(parent.0 == j as usize);
                            assert(j < m.roads.slots@.len() as int);
                            assert(m.roads.slots@.len() == vstd::std_specs::vec::spec_vec_len(
                                &m.roads.slots,
                            )) by {
                                vstd::std_specs::vec::axiom_spec_len(&m.roads.slots);
                            }
                            assert((j as usize) as int == j);
                            assert(parent.0 as int == j);
                            assert(false);
                        }
                    };
                } else {
                    assert forall|e: LotID| #[trigger] m.roads.s_get(j).lots@.contains(e) implies
                        old(self).roads.s_get(j).lots@.contains(e) && e != lid by {};
                    assert forall|jj: int| 0 <= jj < m.roads.s_get(j).lots@.len() implies
                        m.lots.valid((#[trigger] m.roads.s_get(j).lots@[jj]).0 as int)
                            && m.lots.s_get(m.roads.s_get(j).lots@[jj].0 as int).parent
                            == m.roads.s_get(j).id by {
                        let e = m.roads.s_get(j).lots@[jj];
                        assert(m.roads.s_get(j).lots@.contains(e));
                        assert(old(self).roads.s_get(j).lots@.contains(e));
                        let kk = choose|kk: int|
                            0 <= kk < old(self).roads.s_get(j).lots@.len() && old(
                            self).roads.s_get(j).lots@[kk] == e;
                        assert(old(self).lots.valid(e.0 as int));
                    };
                }
            };
            assert forall|j: int| m.lanes.valid(j) implies #[trigger] m.lane_ok(j) by {
                assert(old(self).lane_ok(j));
                let l = m.lanes.s_get(j);
                assert(m.roads.s_get(l.parent.0 as int).lanes@ == old(self).roads.s_get(
                    l.parent.0 as int,
                ).lanes@);
            };
            assert forall|j: int| m.intersections.valid(j) implies #[trigger] m.inter_ok(j) by {
                assert(old(self).inter_ok(j));
                assert forall|jj: int|
                    0 <= jj < m.intersections.s_get(j).turns@.len() implies {
                        let t = #[trigger] m.intersections.s_get(j).turns@[jj];
                        &&& m.lane_end_inter(t.src) == m.intersections.s_get(j).id
                        &&& m.lane_start_inter(t.dst) == m.intersections.s_get(j).id
                    } by {
                    let t = m.intersections.s_get(j).turns@[jj];
                    assert(old(self).lane_ok(t.src.0 as int));
                    assert(old(self).lane_ok(t.dst.0 as int));
                    assert(m.lanes.s_get(t.src.0 as int) == old(self).lanes.s_get(t.src.0 as int));
                    assert(m.lanes.s_get(t.dst.0 as int) == old(self).lanes.s_get(t.dst.0 as int));
                    assert(crate::map::road_same_mod_lots(
                        m.roads.s_get(old(self).lanes.s_get(t.src.0 as int).parent.0 as int),
                        old(self).roads.s_get(old(self).lanes.s_get(t.src.0 as int).parent.0 as int),
                    ));
                    assert(crate::map::road_same_mod_lots(
                        m.roads.s_get(old(self).lanes.s_get(t.dst.0 as int).parent.0 as int),
                        old(self).roads.s_get(old(self).lanes.s_get(t.dst.0 as int).parent.0 as int),
                    ));
                };
            };
            assert forall|j: int| m.lots.valid(j) implies #[trigger] m.lot_ok(j) by {
                assert(old(self).lot_ok(j));
                let e = old(self).lots.s_get(j).id;
                assert(j != lid.0 as int);
                assert(e == LotID(j as usize));
                assert(j < m.lots.slots@.len() as int);
                assert(m.lots.slots@.len() == vstd::std_specs::vec::spec_vec_len(
                    &m.lots.slots,
                )) by {
                    vstd::std_specs::vec::axiom_spec_len(&m.lots.slots);
                }
                assert((j as usize) as int == j);
                assert(e.0 as int != lid.0 as int);
                assert(e != lid);
                assert(m.spatial_map.s_contains_key(ProjectKind::Lot(e)) <==> old(
                    self,
                ).spatial_map.s_contains_key(ProjectKind::Lot(e)));
                let pr = old(self).lots.s_get(j).parent.0 as int;
                assert(old(self).roads.s_get(pr).lots@.contains(e));
                assert(m.roads.s_get(pr).lots@.contains(e));
            };
            assert forall|j: int| m.buildings.valid(j) implies #[trigger] m.building_ok(j) by {
                assert(old(self).building_ok(j));
            };
            assert forall|j: int| m.parking.spots.valid(j) implies #[trigger] m.spot_ok(j) by {
                assert(old(self).spot_ok(j));
            };
            assert forall|pk: ProjectKind| #[trigger] m.spatial_map.s_contains_key(pk) implies
                m.spatial_key_ok(pk) by {
                if pk != ProjectKind::Lot(lid) {
                    assert(old(self).spatial_map.s_contains_key(pk));
                    assert(old(self).spatial_key_ok(pk));
                }
            };
            assert forall|k: int, e: LotID| old(self).roads.valid(k) implies (
            #[trigger] m.roads.s_get(k).lots@.contains(e) <==> old(self).roads.s_get(
                k,
            ).lots@.contains(e) && e != lid) by {
                if k != pi {
                    assert(m.roads.s_get(k) == old(self).roads.s_get(k));
                    if old(self).roads.s_get(k).lots@.contains(e) && e == lid {
                        let jj = choose|jj: int|
                            0 <= jj < old(self).roads.s_get(k).lots@.len() && old(
                            self).roads.s_get(k).lots@[jj] == e;
                        assert(old(self).road_ok(k));
                        assert(old(self).lots.s_get(e.0 as int).parent == old(
                            self,
                        ).roads.s_get(k).id);
                        assert(old(self).roads.s_get(k).id == RoadID(k as usize));
                        assert(old(self).lots.s_get(lid.0 as int).parent == parent);
                        assert(parent.0 == k as usize);
                        assert(k < m.roads.slots@.len() as int);
                        assert(m.roads.slots@.len() == vstd::std_specs::vec::spec_vec_len(
                            &m.roads.slots,
                        )) by {
                            vstd::std_specs::vec::axiom_spec_len(&m.roads.slots);
                        }
                        assert((k as usize) as int == k);
                        assert(false);
                    }
                }
            };
        }
    }
}

impl CityMap {
    /// Purges every lot whose footprint meets `q` (a new or changed road is
    /// about to claim that ground).
    pub fn remove_intersecting_lots(&mut self, q: AABB)
        requires
            old(self).inv(),
        ensures
            final(self).inv(),
            forall|k: int|
                final(self).lots.valid(k) <==> (old(self).lots.valid(k) && !(#[trigger] old(
                self).lots.s_get(k)).shape.spec_intersects(q)),
            forall|k: int|
                final(self).lots.valid(k) ==> #[trigger] final(self).lots.s_get(k) == old(
                self).lots.s_get(k),
            forall|k: int| final(self).roads.valid(k) <==> old(self).roads.valid(k),
            forall|k: int|
                old(self).roads.valid(k) ==> crate::map::road_same_mod_lots(
                    #[trigger] final(self).roads.s_get(k),
                    old(self).roads.s_get(k),
                ),
            final(self).lanes == old(self).lanes,
            final(self).intersections == old(self).intersections,
            final(self).buildings == old(self).buildings,
            final(self).parking == old(self).parking,
            final(self).dirty == old(self).dirty,
            final(self).roads.slots_seq().len() == old(self).roads.slots_seq().len(),
            final(self).lots.slots_seq().len() == old(self).lots.slots_seq().len(),
            final(self).spatial_map.entries@.len() <= old(self).spatial_map.entries@.len(),
            forall|pk: ProjectKind|
                !(pk is Lot) ==> (#[trigger] final(self).spatial_map.s_contains_key(pk) <==> old(
                self).spatial_map.s_contains_key(pk)),
            forall|pk: ProjectKind|
                !(pk is Lot) ==> #[trigger] crate::spatial_map::find_shape(
                    final(self).spatial_map.entries@,
                    pk,
                ) == crate::spatial_map::find_shape(old(self).spatial_map.entries@, pk),
    {
        let cands = self.spatial_map.query_rect(q);
        let n = cands.len();
        let mut i: usize = 0;
        proof {
            assert(cands@.skip(0) =~= cands@);
            assert forall|k: int|
                #[trigger] self.lots.valid(k) && old(self).lots.s_get(
                    k,
                ).shape.spec_intersects(q) implies cands@.skip(0).contains(
                    ProjectKind::Lot(old(self).lots.s_get(k).id),
                ) by {
                assert(self.lot_ok(k));
                let key = ProjectKind::Lot(self.lots.s_get(k).id);
                crate::spatial_map::lemma_find_shape_index(self.spatial_map.entries@, key);
                let idx = choose|idx: int|
                    0 <= idx < self.spatial_map.entries@.len() && (
                    #[trigger] self.spatial_map.entries@[idx]).0 == key
                        && self.spatial_map.entries@[idx].1 == crate::spatial_map::find_shape(
                        self.spatial_map.entries@,
                        key,
                    )->Some_0;
                lemma_query_complete(self.spatial_map.entries@, q, idx);
            };
        }
        while i < n
            invariant
                0 <= i <= n,
                self.inv(),
                n == cands@.len(),
                cands@ == crate::spatial_map::query_spec(old(self).spatial_map.entries@, q),
                forall|k: int|
                    #[trigger] self.lots.valid(k) ==> old(self).lots.valid(k)
                        && self.lots.s_get(k) == old(self).lots.s_get(k),
                forall|k: int|
                    old(self).lots.valid(k) && !(#[trigger] old(
                    self).lots.s_get(k)).shape.spec_intersects(q) ==> self.lots.valid(k),
                forall|k: int|
                    #[trigger] self.lots.valid(k) && old(self).lots.s_get(
                        k,
                    ).shape.spec_intersects(q) ==> cands@.skip(i as int).contains(
                        ProjectKind::Lot(old(self).lots.s_get(k).id),
                    ),
                forall|k: int| self.roads.valid(k) <==> old(self).roads.valid(k),
                forall|k: int|
                    old(self).roads.valid(k) ==> crate::map::road_same_mod_lots(
                        #[trigger] self.roads.s_get(k),
                        old(self).roads.s_get(k),
                    ),
                self.lanes == old(self).lanes,
                self.intersections == old(self).intersections,
                self.buildings == old(self).buildings,
                self.parking == old(self).parking,
                self.dirty == old(self).dirty,
                self.roads.slots_seq().len() == old(self).roads.slots_seq().len(),
                self.lots.slots_seq().len() == old(self).lots.slots_seq().len(),
                self.spatial_map.entries@.len() <= old(self).spatial_map.entries@.len(),
                forall|pk: ProjectKind|
                    !(pk is Lot) ==> (#[trigger] self.spatial_map.s_contains_key(pk) <==> old(
                    self).spatial_map.s_contains_key(pk)),
                forall|pk: ProjectKind|
                    !(pk is Lot) ==> #[trigger] crate::spatial_map::find_shape(
                        self.spatial_map.entries@,
                        pk,
                    ) == crate::spatial_map::find_shape(old(self).spatial_map.entries@, pk),
            decreases n - i,
        {
            let ghost pre = *self;
            let pk = cands[i];
            if let ProjectKind::Lot(lid) = pk {
                let doit = match self.lots.get(lid.0) {
                    Some(l) => l.shape.intersects(q),
                    None => false,
                };
                if doit {
                    self.remove_one_lot(lid);
                }
            }
            proof {
                assert forall|k: int|
                    #[trigger] self.lots.valid(k) && old(self).lots.s_get(
                        k,
                    ).shape.spec_intersects(q) implies cands@.skip(i + 1).contains(
                        ProjectKind::Lot(old(self).lots.s_get(k).id),
                    ) by {
                    let key = ProjectKind::Lot(old(self).lots.s_get(k).id);
                    assert(pre.lots.valid(k));
                    assert(cands@.skip(i as int).contains(key));
                    let jj = choose|jj: int|
                        0 <= jj < cands@.skip(i as int).len() && cands@.skip(i as int)[jj] == key;
                    if jj == 0 {
                        // this candidate was just processed and would have
                        // removed the lot, so it cannot still be valid
                        assert(cands@[i as int] == key);
                        assert(pre.lot_ok(k));
                        assert(pre.lots.s_get(k).id == LotID(k as usize));
                        assert(old(self).lots.s_get(k).id == LotID(k as usize));
                        assert(k < pre.lots.slots@.len() as int);
                        assert(pre.lots.slots@.len() == vstd::std_specs::vec::spec_vec_len(
                            &pre.lots.slots,
                        )) by {
                            vstd::std_specs::vec::axiom_spec_len(&pre.lots.slots);
                        }
                        assert((k as usize) as int == k);
                        assert(pre.lots.s_get(k).shape.spec_intersects(q));
                        assert(!self.lots.valid(k));
                        assert(false);
                    } else {
                        assert(cands@.skip(i + 1)[jj - 1] == key);
                    }
                };
            }
            i = i + 1;
        }
        proof {
            assert(cands@.skip(n as int) =~= Seq::<ProjectKind>::empty());
            assert forall|k: int|
                old(self).lots.valid(k) && (#[trigger] old(self).lots.s_get(
                    k,
                )).shape.spec_intersects(q) implies !self.lots.valid(k) by {
                if self.lots.valid(k) {
                    assert(cands@.skip(n as int).contains(
                        ProjectKind::Lot(old(self).lots.s_get(k).id),
                    ));
                }
            };
        }
    }
}

impl CityMap {
    /// Recomputes the derived state of one intersection: its legal turns,
    /// the traffic control of every incoming lane, its interface polygon
    /// and its spatial entry. Turn list and controls are always recomputed
    /// together, so the pathfinder never sees one stale against the other.
    pub(crate) fn invalidate(&mut self, i: IntersectionID)
        requires
            old(self).inv(),
            old(self).intersections.valid(i.0 as int),
        ensures
            final(self).inv(),
            final(self).roads == old(self).roads,
            final(self).buildings == old(self).buildings,
            final(self).lots == old(self).lots,
            final(self).parking == old(self).parking,
            final(self).dirty == old(self).dirty,
            final(self).spatial_map.entries@.len() == old(self).spatial_map.entries@.len(),
            final(self).lanes.slots_seq().len() == old(self).lanes.slots_seq().len(),
            final(self).intersections.slots_seq().len() == old(
                self,
            ).intersections.slots_seq().len(),
            forall|k: int| final(self).lanes.valid(k) <==> old(self).lanes.valid(k),
            forall|k: int|
                old(self).lanes.valid(k) ==> crate::map::lane_same_mod_control(
                    #[trigger] final(self).lanes.s_get(k),
                    old(self).lanes.s_get(k),
                ),
            forall|k: int| final(self).intersections.valid(k) <==> old(
                self).intersections.valid(k),
            forall|k: int|
                k != i.0 as int && old(self).intersections.valid(k) ==> final(
                self).intersections.s_get(k) == old(self).intersections.s_get(k),
            crate::map::inter_same_mod_derived(
                final(self).intersections.s_get(i.0 as int),
                old(self).intersections.s_get(i.0 as int),
            ),
            forall|pk: ProjectKind|
                #[trigger] final(self).spatial_map.s_contains_key(pk) <==> old(
                self).spatial_map.s_contains_key(pk),
            forall|pk: ProjectKind|
                pk != ProjectKind::Inter(i) ==> #[trigger] crate::spatial_map::find_shape(
                    final(self).spatial_map.entries@,
                    pk,
                ) == crate::spatial_map::find_shape(old(self).spatial_map.entries@, pk),
    {
        proof {
            assert(old(self).inter_ok(i.0 as int));
        }
        // read phase: collect incident roads, then incoming and outgoing
        // lanes with the endpoint each meets the intersection at
        let (pos, roads_list) = {
            let inter = match self.intersections.get(i.0) {
                Some(it) => it,
                None => {
                    proof {
                        assert(false);
                    }
                    unreached()
                },
            };
            (inter.pos, copy_vec(&inter.roads))
        };
        let nr = roads_list.len();
        let mut incoming: Vec<(LaneID, LaneKind, Vec2)> = Vec::new();
        let mut outgoing: Vec<(LaneID, LaneKind, Vec2)> = Vec::new();
        let mut ri: usize = 0;
        while ri < nr
            invariant
                0 <= ri <= nr,
                self.inv(),
                *self == *old(self),
                nr == roads_list@.len(),
                forall|j: int|
                    0 <= j < nr ==> self.roads.valid((#[trigger] roads_list@[j]).0 as int),
                forall|j: int|
                    0 <= j < incoming@.len() ==> self.lanes.valid(
                        (#[trigger] incoming@[j]).0.0 as int,
                    ) && incoming@[j].2.in_bounds() && self.lane_end_inter(incoming@[j].0)
                        == IntersectionID(i.0),
                forall|j: int|
                    0 <= j < outgoing@.len() ==> self.lanes.valid(
                        (#[trigger] outgoing@[j]).0.0 as int,
                    ) && outgoing@[j].2.in_bounds() && self.lane_start_inter(outgoing@[j].0)
                        == IntersectionID(i.0),
            decreases nr - ri,
        {
            let rid = roads_list[ri];
            let road = match self.roads.get(rid.0) {
                Some(r) => r,
                None => {
                    proof {
                        assert(false);
                    }
                    unreached()
                },
            };
            proof {
                assert(self.road_ok(rid.0 as int));
            }
            let nl = road.lanes.len();
            let mut li: usize = 0;
            while li < nl
                invariant
                    0 <= li <= nl,
                    self.inv(),
                    *self == *old(self),
                    self.roads.valid(rid.0 as int),
                    road == &self.roads.s_get(rid.0 as int),
                    nl == road.lanes@.len(),
                    forall|j: int|
                        0 <= j < incoming@.len() ==> self.lanes.valid(
                            (#[trigger] incoming@[j]).0.0 as int,
                        ) && incoming@[j].2.in_bounds() && self.lane_end_inter(incoming@[j].0)
                            == IntersectionID(i.0),
                    forall|j: int|
                        0 <= j < outgoing@.len() ==> self.lanes.valid(
                            (#[trigger] outgoing@[j]).0.0 as int,
                        ) && outgoing@[j].2.in_bounds() && self.lane_start_inter(outgoing@[j].0)
                            == IntersectionID(i.0),
                decreases nl - li,
            {
                proof {
                    assert(self.road_ok(rid.0 as int));
                }
                let lid = road.lanes[li];
                if let Some(lane) = self.lanes.get(lid.0) {
                    proof {
                        assert(self.lane_ok(lid.0 as int));
                    }
                    let end_inter = match lane.direction {
                        LaneDirection::Forward => road.dst,
                        LaneDirection::Backward => road.src,
                    };
                    let start_inter = match lane.direction {
                        LaneDirection::Forward => road.src,
                        LaneDirection::Backward => road.dst,
                    };
                    if end_inter == i {
                        match lane.points.last() {
                            Some(p) => {
                                proof {
                                    assert(lane.points@[lane.points@.len() - 1].in_bounds());
                                }
                                incoming.push((lid, lane.kind, p));
                            },
                            None => {},
                        }
                    }
                    if start_inter == i {
                        match lane.points.first() {
                            Some(p) => {
                                proof {
                                    assert(lane.points@[0].in_bounds());
                                }
                                outgoing.push((lid, lane.kind, p));
                            },
                            None => {},
                        }
                    }
                }
                li = li + 1;
            }
            ri = ri + 1;
        }
        // derive the turn list: every same-kind incoming/outgoing pair of
        // driving or walking lanes
        let mut turns: Vec<Turn> = Vec::new();
        let ni = incoming.len();
        let no = outgoing.len();
        let mut ai: usize = 0;
        while ai < ni
            invariant
                0 <= ai <= ni,
                self.inv(),
                *self == *old(self),
                ni == incoming@.len(),
                no == outgoing@.len(),
                forall|j: int|
                    0 <= j < incoming@.len() ==> self.lanes.valid(
                        (#[trigger] incoming@[j]).0.0 as int,
                    ) && incoming@[j].2.in_bounds() && self.lane_end_inter(incoming@[j].0)
                        == IntersectionID(i.0),
                forall|j: int|
                    0 <= j < outgoing@.len() ==> self.lanes.valid(
                        (#[trigger] outgoing@[j]).0.0 as int,
                    ) && outgoing@[j].2.in_bounds() && self.lane_start_inter(outgoing@[j].0)
                        == IntersectionID(i.0),
                forall|j: int|
                    0 <= j < turns@.len() ==> self.lanes.valid(
                        (#[trigger] turns@[j]).src.0 as int,
                    ) && self.lanes.valid(turns@[j].dst.0 as int) && turns@[j].points.in_bounds()
                        && turns@[j].points@.len() >= 2 && self.lane_end_inter(turns@[j].src)
                        == IntersectionID(i.0) && self.lane_start_inter(turns@[j].dst)
                        == IntersectionID(i.0),
            decreases ni - ai,
        {
            let (src_l, src_kind, src_p) = incoming[ai];
            let mut bi: usize = 0;
            while bi < no
                invariant
                    0 <= bi <= no,
                    self.inv(),
                    *self == *old(self),
                    ni == incoming@.len(),
                    no == outgoing@.len(),
                    0 <= ai < ni,
                    (src_l, src_kind, src_p) == incoming@[ai as int],
                    forall|j: int|
                        0 <= j < incoming@.len() ==> self.lanes.valid(
                            (#[trigger] incoming@[j]).0.0 as int,
                        ) && incoming@[j].2.in_bounds() && self.lane_end_inter(incoming@[j].0)
                            == IntersectionID(i.0),
                    forall|j: int|
                        0 <= j < outgoing@.len() ==> self.lanes.valid(
                            (#[trigger] outgoing@[j]).0.0 as int,
                        ) && outgoing@[j].2.in_bounds() && self.lane_start_inter(outgoing@[j].0)
                            == IntersectionID(i.0),
                    forall|j: int|
                        0 <= j < turns@.len() ==> self.lanes.valid(
                            (#[trigger] turns@[j]).src.0 as int,
                        ) && self.lanes.valid(turns@[j].dst.0 as int)
                            && turns@[j].points.in_bounds() && turns@[j].points@.len() >= 2
                            && self.lane_end_inter(turns@[j].src) == IntersectionID(i.0)
                            && self.lane_start_inter(turns@[j].dst) == IntersectionID(i.0),
                decreases no - bi,
            {
                let (dst_l, dst_kind, dst_p) = outgoing[bi];
                let same_kind = match (src_kind, dst_kind) {
                    (LaneKind::Driving, LaneKind::Driving) => true,
                    (LaneKind::Walking, LaneKind::Walking) => true,
                    _ => false,
                };
                if same_kind {
                    let mut tp = PolyLine::with_capacity(2);
                    tp.push(src_p);
                    tp.push(dst_p);
                    turns.push(Turn { src: src_l, dst: dst_l, points: tp });
                }
                bi = bi + 1;
            }
            ai = ai + 1;
        }
        let ghost mt = *self;
        // recompute the traffic control of every incoming lane: an
        // intersection joining more than two roads runs alternating lights
        let give_lights = nr > 2;
        let mut ci: usize = 0;
        let ghost lanes0 = self.lanes;
        proof {
            assert forall|j: int| lanes0.valid(j) implies (
            #[trigger] self.lanes.s_get(j)).control.wf() by {
                assert(self.lane_ok(j));
            };
        }
        while ci < ni
            invariant
                0 <= ci <= ni,
                ni == incoming@.len(),
                lanes0 == old(self).lanes,
                self.roads == old(self).roads,
                self.intersections == old(self).intersections,
                self.buildings == old(self).buildings,
                self.lots == old(self).lots,
                self.parking == old(self).parking,
                self.spatial_map == old(self).spatial_map,
                self.dirty == old(self).dirty,
                self.lanes.wf(),
                self.lanes.slots_seq().len() == lanes0.slots_seq().len(),
                forall|j: int| self.lanes.valid(j) <==> lanes0.valid(j),
                forall|j: int|
                    lanes0.valid(j) ==> crate::map::lane_same_mod_control(
                        #[trigger] self.lanes.s_get(j),
                        lanes0.s_get(j),
                    ),
                forall|j: int|
                    lanes0.valid(j) ==> (#[trigger] self.lanes.s_get(j)).control.wf(),
                forall|j: int|
                    0 <= j < incoming@.len() ==> self.lanes.valid(
                        (#[trigger] incoming@[j]).0.0 as int,
                    ),
            decreases ni - ci,
        {
            let (lid, _, _) = incoming[ci];
            let control = if give_lights {
                let offset: usize = if ci % 2 == 0 {
                    0
                } else {
                    10
                };
                TrafficControl::Light(TrafficLightSchedule::from_basic(8, 2, 10, offset))
            } else {
                TrafficControl::Always
            };
            let rebuilt = {
                let l = match self.lanes.get(lid.0) {
                    Some(l) => l,
                    None => {
                        proof {
                            assert(false);
                        }
                        unreached()
                    },
                };
                Lane {
                    id: l.id,
                    parent: l.parent,
                    kind: l.kind,
                    direction: l.direction,
                    points: l.points.clone_of(),
                    control,
                }
            };
            self.lanes.set(lid.0, rebuilt);
            ci = ci + 1;
        }
        // write the recomputed intersection and refresh its spatial entry
        let radius: i64 = if nr > 245 {
            1000
        } else {
            20 + 4 * (nr as i64)
        };
        let polygon = (AABB { lo: pos, hi: pos }).inflate(radius);
        self.intersections.set(
            i.0,
            Intersection { id: i, pos, roads: roads_list, turns, interface_radius: radius, polygon },
        );
        self.spatial_map.update(ProjectKind::Inter(i), polygon);
        proof {
            let m = *self;
            assert(forall|j: int| m.lanes.valid(j) <==> old(self).lanes.valid(j));
            assert forall|j: int| m.roads.valid(j) implies #[trigger] m.road_ok(j) by {
                assert(old(self).road_ok(j));
                assert forall|jj: int| 0 <= jj < m.roads.s_get(j).lanes@.len() implies
                    m.lanes.valid((#[trigger] m.roads.s_get(j).lanes@[jj]).0 as int)
                        && m.lanes.s_get(m.roads.s_get(j).lanes@[jj].0 as int).parent
                        == m.roads.s_get(j).id by {
                    let e = m.roads.s_get(j).lanes@[jj];
                    assert(old(self).lanes.valid(e.0 as int));
                    assert(crate::map::lane_same_mod_control(
                        m.lanes.s_get(e.0 as int),
                        old(self).lanes.s_get(e.0 as int),
                    ));
                };
                if j == i.0 as int {
                }
            };
            assert forall|j: int| m.lanes.valid(j) implies #[trigger] m.lane_ok(j) by {
                assert(old(self).lane_ok(j));
                assert(crate::map::lane_same_mod_control(
                    m.lanes.s_get(j),
                    old(self).lanes.s_get(j),
                ));
                let l = m.lanes.s_get(j);
                let l0 = old(self).lanes.s_get(j);
                assert(m.roads.s_get(l.parent.0 as int).lanes@ == old(self).roads.s_get(
                    l0.parent.0 as int,
                ).lanes@);
                if l.kind == LaneKind::Parking {
                    let prd = l0.parent.0 as int;
                    let jd = choose|jd: int|
                        {
                            &&& 0 <= jd < old(self).roads.s_get(prd).lanes@.len()
                            &&& old(self).lanes.valid(
                                (#[trigger] old(self).roads.s_get(prd).lanes@[jd]).0 as int,
                            )
                            &&& old(self).lanes.s_get(
                                old(self).roads.s_get(prd).lanes@[jd].0 as int,
                            ).kind == LaneKind::Driving
                            &&& old(self).lanes.s_get(
                                old(self).roads.s_get(prd).lanes@[jd].0 as int,
                            ).direction == l0.direction
                        };
                    let w = old(self).roads.s_get(prd).lanes@[jd];
                    assert(crate::map::lane_same_mod_control(
                        m.lanes.s_get(w.0 as int),
                        old(self).lanes.s_get(w.0 as int),
                    ));
                    assert(m.roads.s_get(l.parent.0 as int).lanes@[jd] == w);
                }
            };
            assert forall|j: int| m.intersections.valid(j) implies #[trigger] m.inter_ok(j) by {
                assert(old(self).inter_ok(j));
                if j != i.0 as int {
                    assert(m.intersections.s_get(j) == old(self).intersections.s_get(j));
                }
                assert forall|jj: int|
                    0 <= jj < m.intersections.s_get(j).turns@.len() implies {
                        let t = #[trigger] m.intersections.s_get(j).turns@[jj];
                        &&& m.lanes.valid(t.src.0 as int)
                        &&& m.lanes.valid(t.dst.0 as int)
                        &&& m.lane_end_inter(t.src) == m.intersections.s_get(j).id
                        &&& m.lane_start_inter(t.dst) == m.intersections.s_get(j).id
                    } by {
                    let t = m.intersections.s_get(j).turns@[jj];
                    if j == i.0 as int {
                        assert(mt.lanes.valid(t.src.0 as int));
                        assert(mt.lanes.valid(t.dst.0 as int));
                        assert(mt.lane_end_inter(t.src) == IntersectionID(i.0));
                        assert(mt.lane_start_inter(t.dst) == IntersectionID(i.0));
                        assert(crate::map::lane_same_mod_control(
                            m.lanes.s_get(t.src.0 as int),
                            mt.lanes.s_get(t.src.0 as int),
                        ));
                        assert(crate::map::lane_same_mod_control(
                            m.lanes.s_get(t.dst.0 as int),
                            mt.lanes.s_get(t.dst.0 as int),
                        ));
                    } else {
                        assert(old(self).lanes.valid(t.src.0 as int));
                        assert(old(self).lanes.valid(t.dst.0 as int));
                        assert(old(self).lane_end_inter(t.src) == old(self).intersections.s_get(
                            j,
                        ).id);
                        assert(crate::map::lane_same_mod_control(
                            m.lanes.s_get(t.src.0 as int),
                            old(self).lanes.s_get(t.src.0 as int),
                        ));
                        assert(crate::map::lane_same_mod_control(
                            m.lanes.s_get(t.dst.0 as int),
                            old(self).lanes.s_get(t.dst.0 as int),
                        ));
                    }
                };
            };
            assert forall|j: int| m.lots.valid(j) implies #[trigger] m.lot_ok(j) by {
                assert(old(self).lot_ok(j));
                let e = ProjectKind::Lot(old(self).lots.s_get(j).id);
                assert(m.spatial_map.s_contains_key(e) <==> old(self).spatial_map.s_contains_key(
                    e,
                ));
                assert(crate::spatial_map::find_shape(m.spatial_map.entries@, e)
                    == crate::spatial_map::find_shape(old(self).spatial_map.entries@, e));
            };
            assert forall|j: int| m.buildings.valid(j) implies #[trigger] m.building_ok(j) by {
                assert(old(self).building_ok(j));
            };
            assert forall|j: int| m.parking.spots.valid(j) implies #[trigger] m.spot_ok(j) by {
                assert(old(self).spot_ok(j));
                assert(crate::map::lane_same_mod_control(
                    m.lanes.s_get(old(self).parking.spots.s_get(j).parent.0 as int),
                    old(self).lanes.s_get(old(self).parking.spots.s_get(j).parent.0 as int),
                ));
            };
            assert forall|pk: ProjectKind| #[trigger] m.spatial_map.s_contains_key(pk) implies
                m.spatial_key_ok(pk) by {
                assert(old(self).spatial_map.s_contains_key(pk));
                assert(old(self).spatial_key_ok(pk));
            };
        }
    }
}

/// `d * num / den` for small non-negative `num`, mirroring `spec_muldiv`.
pub(crate) fn small_muldiv(d: i64, num: i64, den: i64) -> (r: i64)
    requires
        -2 * MAX_COORD <= d <= 2 * MAX_COORD,
        0 <= num <= 1000,
        0 < den,
    ensures
        r == crate::geom::spec_muldiv(d as int, num as int, den as int),
        -1_000_000_000 <= r <= 1_000_000_000,
{
    proof {
        let dd: int = if d >= 0 {
            d as int
        } else {
            -(d as int)
        };
        assert(0 <= dd * (num as int) <= 1_000_000_000) by (nonlinear_arith)
            requires
                0 <= dd <= 1_000_000,
                0 <= num as int <= 1000,
        ;
        vstd::arithmetic::div_mod::lemma_div_pos_is_pos(dd * (num as int), den as int);
        vstd::arithmetic::div_mod::lemma_div_nonincreasing(dd * (num as int), den as int);
    }
    if d >= 0 {
        (d * num) / den
    } else {
        -(((-d) * num) / den)
    }
}

impl CityMap {
    /// Creates one provisional lot abutting `rid` at `pos`.
    fn add_one_lot(&mut self, rid: RoadID, pos: Vec2) -> (lot: LotID)
        requires
            old(self).inv(),
            old(self).roads.valid(rid.0 as int),
            pos.in_bounds(),
            old(self).lots.slots_seq().len() < usize::MAX,
            old(self).spatial_map.entries@.len() < usize::MAX,
        ensures
            final(self).inv(),
            final(self).lots.valid(lot.0 as int),
            !old(self).lots.valid(lot.0 as int),
            final(self).lots.s_get(lot.0 as int).parent == rid,
            final(self).lots.s_get(lot.0 as int).pos == pos,
            forall|k: int|
                k != lot.0 as int ==> (final(self).lots.valid(k) <==> old(self).lots.valid(k)),
            forall|k: int|
                k != lot.0 as int && old(self).lots.valid(k) ==> final(self).lots.s_get(k) == old(
                self).lots.s_get(k),
            forall|k: int| final(self).roads.valid(k) <==> old(self).roads.valid(k),
            forall|k: int|
                k != rid.0 as int && old(self).roads.valid(k) ==> final(self).roads.s_get(k)
                    == old(self).roads.s_get(k),
            crate::map::road_same_mod_lots(
                final(self).roads.s_get(rid.0 as int),
                old(self).roads.s_get(rid.0 as int),
            ),
            final(self).lanes == old(self).lanes,
            final(self).intersections == old(self).intersections,
            final(self).buildings == old(self).buildings,
            final(self).parking == old(self).parking,
            final(self).dirty == old(self).dirty,
            forall|pk: ProjectKind|
                pk != ProjectKind::Lot(lot) ==> (#[trigger] final(self).spatial_map.s_contains_key(
                    pk,
                ) <==> old(self).spatial_map.s_contains_key(pk)),
            forall|pk: ProjectKind|
                pk != ProjectKind::Lot(lot) ==> #[trigger] crate::spatial_map::find_shape(
                    final(self).spatial_map.entries@,
                    pk,
                ) == crate::spatial_map::find_shape(old(self).spatial_map.entries@, pk),
            final(self).lots.slots_seq().len() == old(self).lots.slots_seq().len() + 1,
            final(self).spatial_map.entries@.len() <= old(self).spatial_map.entries@.len() + 1,
            final(self).roads.slots_seq().len() == old(self).roads.slots_seq().len(),
            lot.0 == old(self).lots.slots_seq().len(),
    {
        let lot = LotID(self.lots.capacity());
        let shape = (AABB { lo: pos, hi: pos }).inflate(10);
        let new_road = {
            let r = match self.roads.get(rid.0) {
                Some(r) => r,
                None => {
                    proof {
                        assert(false);
                    }
                    unreached()
                },
            };
            let mut lots = copy_vec(&r.lots);
            lots.push(lot);
            Road {
                id: r.id,
                src: r.src,
                dst: r.dst,
                segment: r.segment,
                src_point: r.src_point,
                dst_point: r.dst_point,
                generated_points: r.generated_points.clone_of(),
                lanes: copy_vec(&r.lanes),
                lots,
                width: r.width,
            }
        };
        self.roads.set(rid.0, new_road);
        let got = self.lots.insert(Lot { id: lot, parent: rid, pos, shape });
        self.spatial_map.insert(ProjectKind::Lot(lot), shape);
        proof {
            let m = *self;
            let pi = rid.0 as int;
            assert forall|j: int| m.roads.valid(j) implies #[trigger] m.road_ok(j) by {
                assert(old(self).road_ok(j));
                if j == pi {
                    assert forall|jj: int| 0 <= jj < m.roads.s_get(j).lots@.len() implies
                        m.lots.valid((#[trigger] m.roads.s_get(j).lots@[jj]).0 as int)
                            && m.lots.s_get(m.roads.s_get(j).lots@[jj].0 as int).parent
                            == m.roads.s_get(j).id by {
                        let e = m.roads.s_get(j).lots@[jj];
                        if jj < m.roads.s_get(j).lots@.len() - 1 {
                            assert(e == old(self).roads.s_get(j).lots@[jj]);
                            assert(old(self).lots.valid(e.0 as int));
                        } else {
                            assert(e == lot);
                        }
                    };
                }
            };
            assert forall|j: int| m.lanes.valid(j) implies #[trigger] m.lane_ok(j) by {
                assert(old(self).lane_ok(j));
                let l = m.lanes.s_get(j);
                assert(m.roads.s_get(l.parent.0 as int).lanes@ == old(self).roads.s_get(
                    l.parent.0 as int,
                ).lanes@);
            };
            assert forall|j: int| m.intersections.valid(j) implies #[trigger] m.inter_ok(j) by {
                assert(old(self).inter_ok(j));
                assert forall|jj: int|
                    0 <= jj < m.intersections.s_get(j).turns@.len() implies {
                        let t = #[trigger] m.intersections.s_get(j).turns@[jj];
                        &&& m.lane_end_inter(t.src) == m.intersections.s_get(j).id
                        &&& m.lane_start_inter(t.dst) == m.intersections.s_get(j).id
                    } by {
                    let t = m.intersections.s_get(j).turns@[jj];
                    assert(old(self).lane_ok(t.src.0 as int));
                    assert(old(self).lane_ok(t.dst.0 as int));
                    assert(m.lanes.s_get(t.src.0 as int) == old(self).lanes.s_get(t.src.0 as int));
                    assert(m.lanes.s_get(t.dst.0 as int) == old(self).lanes.s_get(t.dst.0 as int));
                    assert(crate::map::road_same_mod_lots(
                        m.roads.s_get(old(self).lanes.s_get(t.src.0 as int).parent.0 as int),
                        old(self).roads.s_get(old(self).lanes.s_get(t.src.0 as int).parent.0 as int),
                    ));
                    assert(crate::map::road_same_mod_lots(
                        m.roads.s_get(old(self).lanes.s_get(t.dst.0 as int).parent.0 as int),
                        old(self).roads.s_get(old(self).lanes.s_get(t.dst.0 as int).parent.0 as int),
                    ));
                };
            };
            assert forall|j: int| m.lots.valid(j) implies #[trigger] m.lot_ok(j) by {
                if j != lot.0 as int {
                    assert(old(self).lot_ok(j));
                    let e = old(self).lots.s_get(j).id;
                    assert(e == LotID(j as usize));
                    assert(j < m.lots.slots@.len() as int);
                    assert(m.lots.slots@.len() == vstd::std_specs::vec::spec_vec_len(
                        &m.lots.slots,
                    )) by {
                        vstd::std_specs::vec::axiom_spec_len(&m.lots.slots);
                    }
                    assert((j as usize) as int == j);
                    assert(e != lot);
                    assert(m.spatial_map.s_contains_key(ProjectKind::Lot(e)) <==> old(
                        self,
                    ).spatial_map.s_contains_key(ProjectKind::Lot(e)));
                    let pr = old(self).lots.s_get(j).parent.0 as int;
                    assert(old(self).roads.s_get(pr).lots@.contains(e));
                    if pr == pi {
                        lemma_push_contains(old(self).roads.s_get(pr).lots@, lot, e);
                        assert(m.roads.s_get(pr).lots@.contains(e));
                    } else {
                        assert(m.roads.s_get(pr).lots@.contains(e));
                    }
                } else {
                    assert(m.roads.s_get(pi).lots@.last() == lot);
                    assert(m.roads.s_get(pi).lots@.contains(lot));
                }
            };
            assert forall|j: int| m.buildings.valid(j) implies #[trigger] m.building_ok(j) by {
                assert(old(self).building_ok(j));
            };
            assert forall|j: int| m.parking.spots.valid(j) implies #[trigger] m.spot_ok(j) by {
                assert(old(self).spot_ok(j));
            };
            assert forall|pk: ProjectKind| #[trigger] m.spatial_map.s_contains_key(pk) implies
                m.spatial_key_ok(pk) by {
                if pk != ProjectKind::Lot(lot) {
                    assert(old(self).spatial_map.s_contains_key(pk));
                    assert(old(self).spatial_key_ok(pk));
                }
            };
        }
        lot
    }

    /// Seats one provisional lot on each side of a road, offset from its
    /// midpoint by the lot clearance; a degenerate road gets none.
    pub(crate) fn generate_lots_along(&mut self, rid: RoadID)
        requires
            old(self).inv(),
            old(self).roads.valid(rid.0 as int),
            old(self).lots.slots_seq().len() + 2 <= usize::MAX,
            old(self).spatial_map.entries@.len() + 2 <= usize::MAX,
        ensures
            final(self).inv(),
            forall|k: int|
                old(self).lots.valid(k) ==> final(self).lots.valid(k) && final(self).lots.s_get(k)
                    == old(self).lots.s_get(k),
            forall|k: int|
                final(self).lots.valid(k) && !old(self).lots.valid(k) ==> (
                #[trigger] final(self).lots.s_get(k)).parent == rid,
            forall|k: int|
                k < old(self).lots.slots_seq().len() ==> (#[trigger] final(self).lots.valid(k)
                    <==> old(self).lots.valid(k)),
            forall|k: int| final(self).roads.valid(k) <==> old(self).roads.valid(k),
            forall|k: int|
                old(self).roads.valid(k) ==> crate::map::road_same_mod_lots(
                    #[trigger] final(self).roads.s_get(k),
                    old(self).roads.s_get(k),
                ),
            forall|k: int|
                k != rid.0 as int && old(self).roads.valid(k) ==> final(self).roads.s_get(k)
                    == old(self).roads.s_get(k),
            final(self).lanes == old(self).lanes,
            final(self).intersections == old(self).intersections,
            final(self).buildings == old(self).buildings,
            final(self).parking == old(self).parking,
            final(self).dirty == old(self).dirty,
            forall|pk: ProjectKind|
                old(self).spatial_map.s_contains_key(pk) ==> #[trigger] final(
                self).spatial_map.s_contains_key(pk),
            forall|pk: ProjectKind|
                !(pk is Lot) ==> (#[trigger] final(self).spatial_map.s_contains_key(pk) <==> old(
                self).spatial_map.s_contains_key(pk)),
            forall|pk: ProjectKind|
                !(pk is Lot) ==> #[trigger] crate::spatial_map::find_shape(
                    final(self).spatial_map.entries@,
                    pk,
                ) == crate::spatial_map::find_shape(old(self).spatial_map.entries@, pk),
            final(self).lots.slots_seq().len() <= old(self).lots.slots_seq().len() + 2,
            final(self).spatial_map.entries@.len() <= old(self).spatial_map.entries@.len() + 2,
            final(self).lanes.slots_seq().len() == old(self).lanes.slots_seq().len(),
            final(self).roads.slots_seq().len() == old(self).roads.slots_seq().len(),
            final(self).intersections.slots_seq().len() == old(
                self,
            ).intersections.slots_seq().len(),
            final(self).parking.spots.slots_seq().len() == old(
                self,
            ).parking.spots.slots_seq().len(),
    {
        proof {
            assert(old(self).road_ok(rid.0 as int));
        }
        let (a, b) = {
            let r = match self.roads.get(rid.0) {
                Some(r) => r,
                None => {
                    proof {
                        assert(false);
                    }
                    unreached()
                },
            };
            (r.src_point, r.dst_point)
        };
        let len2 = a.dist2(b);
        if len2 == 0 {
            return ;
        }
        proof {
            crate::geom::lemma_dist2_bound(a, b);
        }
        let len = crate::geom::isqrt(len2);
        if len == 0 {
            return ;
        }
        let mid = a.mid(b);
        let px = -(b.y - a.y);
        let py = b.x - a.x;
        let offx = small_muldiv(px, LOT_CLEARANCE, len);
        let offy = small_muldiv(py, LOT_CLEARANCE, len);
        proof {
            assert(-2_000_000_000 <= mid.x + offx <= 2_000_000_000);
            assert(-2_000_000_000 <= mid.y + offy <= 2_000_000_000);
        }
        let p1 = Vec2 {
            x: crate::spline::clamp(mid.x + offx),
            y: crate::spline::clamp(mid.y + offy),
        };
        let p2 = Vec2 {
            x: crate::spline::clamp(mid.x - offx),
            y: crate::spline::clamp(mid.y - offy),
        };
        self.add_one_lot(rid, p1);
        self.add_one_lot(rid, p2);
    }
}

/// A freshly created lane of a new road: identity, geometry and side, with
/// the control left to the intersection invalidation that follows.
pub open spec fn new_lane_is(
    m: CityMap,
    lid: LaneID,
    rid: RoadID,
    kind: LaneKind,
    dir: LaneDirection,
    pts: Seq<Vec2>,
) -> bool {
    &&& m.lanes.valid(lid.0 as int)
    &&& m.lanes.s_get(lid.0 as int).id == lid
    &&& m.lanes.s_get(lid.0 as int).parent == rid
    &&& m.lanes.s_get(lid.0 as int).kind == kind
    &&& m.lanes.s_get(lid.0 as int).direction == dir
    &&& m.lanes.s_get(lid.0 as int).points@ == pts
    &&& m.lanes.s_get(lid.0 as int).control.wf()
}

impl CityMap {
    /// Creates a road between two intersections, with one lane per pattern
    /// entry, parking spots on its parking lanes, recomputed turns and
    /// controls at both ends, fresh lots along it, and the ground it claims
    /// purged of older lots.
    pub fn connect(
        &mut self,
        src: IntersectionID,
        dst: IntersectionID,
        pattern: &LanePattern,
        segment: RoadSegmentKind,
    ) -> (id: RoadID)
        requires
            old(self).inv(),
            old(self).intersections.valid(src.0 as int),
            old(self).intersections.valid(dst.0 as int),
            src != dst,
            pattern.wf(),
            match segment {
                RoadSegmentKind::Curved(d0, d1) => d0.in_bounds() && d1.in_bounds(),
                _ => true,
            },
            old(self).roads.slots_seq().len() < usize::MAX,
            old(self).lanes.slots_seq().len() + 8 <= usize::MAX,
            old(self).parking.spots.slots_seq().len() + 8 <= usize::MAX,
            old(self).lots.slots_seq().len() + 2 <= usize::MAX,
            old(self).spatial_map.entries@.len() + 3 <= usize::MAX,
        ensures
            final(self).inv(),
            final(self).dirty,
            final(self).roads.valid(id.0 as int),
            !old(self).roads.valid(id.0 as int),
            final(self).roads.s_get(id.0 as int).src == src,
            final(self).roads.s_get(id.0 as int).dst == dst,
            final(self).roads.s_get(id.0 as int).segment == segment,
            final(self).roads.s_get(id.0 as int).src_point == old(self).intersections.s_get(
                src.0 as int,
            ).pos,
            final(self).roads.s_get(id.0 as int).dst_point == old(self).intersections.s_get(
                dst.0 as int,
            ).pos,
            final(self).roads.s_get(id.0 as int).generated_points@ == spec_road_points(
                segment,
                old(self).intersections.s_get(src.0 as int).pos,
                old(self).intersections.s_get(dst.0 as int).pos,
            ),
            final(self).roads.s_get(id.0 as int).lanes@.len() == pattern.forward@.len()
                + pattern.backward@.len(),
            forall|j: int|
                0 <= j < pattern.forward@.len() ==> new_lane_is(
                    *final(self),
                    #[trigger] final(self).roads.s_get(id.0 as int).lanes@[j],
                    id,
                    pattern.forward@[j],
                    LaneDirection::Forward,
                    spec_road_points(
                        segment,
                        old(self).intersections.s_get(src.0 as int).pos,
                        old(self).intersections.s_get(dst.0 as int).pos,
                    ),
                ),
            forall|j: int|
                0 <= j < pattern.backward@.len() ==> new_lane_is(
                    *final(self),
                    #[trigger] final(self).roads.s_get(id.0 as int).lanes@[pattern.forward@.len()
                        + j],
                    id,
                    pattern.backward@[j],
                    LaneDirection::Backward,
                    spec_road_points(
                        segment,
                        old(self).intersections.s_get(src.0 as int).pos,
                        old(self).intersections.s_get(dst.0 as int).pos,
                    ).reverse(),
                ),
            forall|j: int|
                0 <= j < pattern.forward@.len() + pattern.backward@.len()
                    ==> !old(self).lanes.valid(
                    (#[trigger] final(self).roads.s_get(id.0 as int).lanes@[j]).0 as int,
                ),
            forall|k: int|
                k != id.0 as int ==> (final(self).roads.valid(k) <==> old(self).roads.valid(k)),
            forall|k: int|
                k != id.0 as int && old(self).roads.valid(k) ==> crate::map::road_same_mod_lots(
                    #[trigger] final(self).roads.s_get(k),
                    old(self).roads.s_get(k),
                ),
            forall|k: int|
                old(self).lanes.valid(k) ==> final(self).lanes.valid(k)
                    && crate::map::lane_same_mod_control(
                    #[trigger] final(self).lanes.s_get(k),
                    old(self).lanes.s_get(k),
                ),
            forall|k: int| final(self).intersections.valid(k) <==> old(
                self).intersections.valid(k),
            forall|k: int|
                k != src.0 as int && k != dst.0 as int && old(self).intersections.valid(k)
                    ==> final(self).intersections.s_get(k) == old(self).intersections.s_get(k),
            final(self).intersections.s_get(src.0 as int).pos == old(self).intersections.s_get(
                src.0 as int,
            ).pos,
            final(self).intersections.s_get(dst.0 as int).pos == old(self).intersections.s_get(
                dst.0 as int,
            ).pos,
            final(self).intersections.s_get(src.0 as int).roads@ == old(self).intersections.s_get(
                src.0 as int,
            ).roads@.push(id),
            final(self).intersections.s_get(dst.0 as int).roads@ == old(self).intersections.s_get(
                dst.0 as int,
            ).roads@.push(id),
            forall|k: int|
                old(self).parking.spots.valid(k) ==> final(self).parking.spots.valid(k) && final(
                self).parking.spots.s_get(k) == old(self).parking.spots.s_get(k),
            forall|k: int|
                final(self).parking.spots.valid(k) && !old(self).parking.spots.valid(k) ==> (
                #[trigger] final(self).parking.spots.s_get(k)).state
                    == crate::parking::SpotState::Free,
            forall|j: int|
                0 <= j < pattern.forward@.len() + pattern.backward@.len() && final(
                self).lanes.s_get(
                    (#[trigger] final(self).roads.s_get(id.0 as int).lanes@[j]).0 as int,
                ).kind == LaneKind::Parking ==> exists|k: int|
                    final(self).parking.spots.valid(k) && (
                    #[trigger] final(self).parking.spots.s_get(k)).parent == final(
                    self).roads.s_get(id.0 as int).lanes@[j],
            forall|k: int|
                old(self).lots.valid(k) ==> (final(self).lots.valid(k) <==> !(#[trigger] old(
                self).lots.s_get(k)).shape.spec_intersects(
                    spec_bbox(
                        spec_road_points(
                            segment,
                            old(self).intersections.s_get(src.0 as int).pos,
                            old(self).intersections.s_get(dst.0 as int).pos,
                        ),
                    ).spec_inflate(LOT_CLEARANCE),
                )),
            forall|k: int|
                old(self).lots.valid(k) && final(self).lots.valid(k) ==> #[trigger] final(
                self).lots.s_get(k) == old(self).lots.s_get(k),
            forall|k: int|
                final(self).lots.valid(k) && !old(self).lots.valid(k) ==> (#[trigger] final(
                self).lots.s_get(k)).parent == id,
            final(self).spatial_map.s_contains_key(ProjectKind::Road(id)),
            id.0 == old(self).roads.slots_seq().len(),
            final(self).roads.slots_seq().len() == old(self).roads.slots_seq().len() + 1,
            final(self).lanes.slots_seq().len() <= old(self).lanes.slots_seq().len() + 8,
            final(self).intersections.slots_seq().len() == old(
                self,
            ).intersections.slots_seq().len(),
            final(self).parking.spots.slots_seq().len() <= old(
                self,
            ).parking.spots.slots_seq().len() + 8,
            final(self).lots.slots_seq().len() <= old(self).lots.slots_seq().len() + 2,
            final(self).spatial_map.entries@.len() <= old(self).spatial_map.entries@.len() + 3,
    {
        proof {
            assert(old(self).inter_ok(src.0 as int));
            assert(old(self).inter_ok(dst.0 as int));
        }
        let pa = match self.intersections.get(src.0) {
            Some(it) => it.pos,
            None => {
                proof {
                    assert(false);
                }
                unreached()
            },
        };
        let pb = match self.intersections.get(dst.0) {
            Some(it) => it.pos,
            None => {
                proof {
                    assert(false);
                }
                unreached()
            },
        };
        let gp = gen_points(segment, pa, pb);
        let bb = gp.bbox();
        let q = bb.inflate(LOT_CLEARANCE);
        self.remove_intersecting_lots(q);
        let ghost m1 = *self;
        proof {
            assert(m1.roads.slots_seq().len() < usize::MAX);
            assert(m1.spatial_map.entries@.len() + 3 <= usize::MAX);
            assert(m1.lots.slots_seq().len() + 2 <= usize::MAX);
        }
        let rid = RoadID(self.roads.capacity());
        let fl = pattern.forward.len();
        let bl = pattern.backward.len();
        let mut lane_ids: Vec<LaneID> = Vec::new();
        let mut j: usize = 0;
        while j < fl
            invariant
                0 <= j <= fl,
                fl == pattern.forward@.len(),
                fl + bl <= 8,
                lane_ids@.len() == j,
                gp.in_bounds(),
                2 <= gp@.len() <= 3,
                pa.in_bounds(),
                pb.in_bounds(),
                self.roads == m1.roads,
                self.intersections == m1.intersections,
                self.lots == m1.lots,
                self.buildings == m1.buildings,
                self.spatial_map == m1.spatial_map,
                self.dirty == m1.dirty,
                self.lanes.wf(),
                self.parking.wf(),
                m1.lanes.slots_seq().len() + 8 <= usize::MAX,
                m1.parking.spots.slots_seq().len() + 8 <= usize::MAX,
                self.lanes.slots_seq().len() == m1.lanes.slots_seq().len() + j,
                self.parking.spots.slots_seq().len() <= m1.parking.spots.slots_seq().len() + j,
                forall|k: int|
                    #[trigger] m1.lanes.valid(k) ==> self.lanes.valid(k) && self.lanes.s_get(k)
                        == m1.lanes.s_get(k),
                forall|k: int|
                    #[trigger] self.lanes.valid(k) ==> m1.lanes.valid(k) || lane_ids@.contains(
                        LaneID(k as usize),
                    ),
                forall|k: int|
                    #[trigger] m1.parking.spots.valid(k) ==> self.parking.spots.valid(k)
                        && self.parking.spots.s_get(k) == m1.parking.spots.s_get(k),
                forall|k: int|
                    #[trigger] self.parking.spots.valid(k) && !m1.parking.spots.valid(k)
                        ==> self.parking.spots.s_get(k).state == crate::parking::SpotState::Free
                        && self.lanes.valid(self.parking.spots.s_get(k).parent.0 as int)
                        && self.lanes.s_get(self.parking.spots.s_get(k).parent.0 as int).kind
                        == LaneKind::Parking,
                forall|jj: int|
                    0 <= jj < j ==> new_lane_is(
                        *self,
                        #[trigger] lane_ids@[jj],
                        rid,
                        pattern.forward@[jj],
                        LaneDirection::Forward,
                        gp@,
                    ) && !m1.lanes.valid(lane_ids@[jj].0 as int),
                forall|jj: int|
                    0 <= jj < j && pattern.forward@[jj] == LaneKind::Parking ==> exists|k: int|
                        self.parking.spots.valid(k) && (#[trigger] self.parking.spots.s_get(
                            k,
                        )).parent == lane_ids@[jj],
            decreases fl - j,
        {
            let ghost pre = *self;
            let kind = pattern.forward[j];
            let lid = LaneID(self.lanes.capacity());
            let pts = gp.clone_of();
            self.lanes.insert(
                Lane {
                    id: lid,
                    parent: rid,
                    kind,
                    direction: LaneDirection::Forward,
                    points: pts,
                    control: TrafficControl::Always,
                },
            );
            let spot_for_lane: Option<crate::handles::ParkingSpotID> = if matches!(
                kind,
                LaneKind::Parking,
            ) {
                let spos = pa.mid(pb);
                Some(self.parking.insert_spot(lid, spos))
            } else {
                None
            };
            let ghost ids0 = lane_ids@;
            lane_ids.push(lid);
            proof {
                assert forall|k: int| m1.lanes.valid(k) implies self.lanes.valid(k) && (
                self.lanes.s_get(k)) == m1.lanes.s_get(k) by {
                    assert(k < m1.lanes.slots_seq().len());
                    assert(pre.lanes.valid(k) && pre.lanes.s_get(k) == m1.lanes.s_get(k));
                    assert(k != lid.0 as int);
                };
                assert forall|k: int| m1.parking.spots.valid(k) implies self.parking.spots.valid(
                    k,
                ) && (#[trigger] self.parking.spots.s_get(k)) == m1.parking.spots.s_get(k) by {
                    assert(k < m1.parking.spots.slots_seq().len());
                    assert(pre.parking.spots.valid(k) && pre.parking.spots.s_get(k)
                        == m1.parking.spots.s_get(k));
                };
                assert forall|k: int| #[trigger] self.lanes.valid(k) implies m1.lanes.valid(k)
                    || lane_ids@.contains(LaneID(k as usize)) by {
                    if !m1.lanes.valid(k) {
                        if k == lid.0 as int {
                            assert(lane_ids@.last() == lid);
                            assert(lane_ids@.contains(lid));
                            assert(k < self.lanes.slots@.len() as int);
                            assert(self.lanes.slots@.len()
                                == vstd::std_specs::vec::spec_vec_len(&self.lanes.slots)) by {
                                vstd::std_specs::vec::axiom_spec_len(&self.lanes.slots);
                            }
                            assert(LaneID(k as usize) == lid);
                        } else {
                            assert(pre.lanes.valid(k));
                            lemma_push_contains(ids0, lid, LaneID(k as usize));
                        }
                    }
                };

                assert forall|jj: int| 0 <= jj < j + 1 implies new_lane_is(
                    *self,
                    #[trigger] lane_ids@[jj],
                    rid,
                    pattern.forward@[jj],
                    LaneDirection::Forward,
                    gp@,
                ) && !m1.lanes.valid(lane_ids@[jj].0 as int) by {
                    if jj < j {
                        assert(lane_ids@[jj] == ids0[jj]);
                    }
                };
                assert forall|jj: int|
                    0 <= jj < j + 1 && pattern.forward@[jj] == LaneKind::Parking implies exists|
                    k: int,
                |
                    self.parking.spots.valid(k) && (#[trigger] self.parking.spots.s_get(
                        k,
                    )).parent == lane_ids@[jj] by {
                    if jj < j {
                        let k0 = choose|k0: int|
                            pre.parking.spots.valid(k0) && (#[trigger] pre.parking.spots.s_get(
                                k0,
                            )).parent == ids0[jj];
                        assert(self.parking.spots.valid(k0) && self.parking.spots.s_get(
                            k0,
                        ).parent == lane_ids@[jj]);
                    } else {
                        let sp = spot_for_lane.unwrap();
                        assert(self.parking.spots.valid(sp.0 as int)
                            && self.parking.spots.s_get(sp.0 as int).parent == lid);
                    }
                };
            }
            j = j + 1;
        }
        let ghost fwd_ids = lane_ids@;
        proof {
            assert(lane_ids@.take(fl as int) =~= lane_ids@);
        }
        let mut j2: usize = 0;
        while j2 < bl
            invariant
                0 <= j2 <= bl,
                fl == pattern.forward@.len(),
                bl == pattern.backward@.len(),
                fl + bl <= 8,
                lane_ids@.len() == fl + j2,
                lane_ids@.take(fl as int) == fwd_ids,
                gp.in_bounds(),
                2 <= gp@.len() <= 3,
                pa.in_bounds(),
                pb.in_bounds(),
                self.roads == m1.roads,
                self.intersections == m1.intersections,
                self.lots == m1.lots,
                self.buildings == m1.buildings,
                self.spatial_map == m1.spatial_map,
                self.dirty == m1.dirty,
                self.lanes.wf(),
                self.parking.wf(),
                m1.lanes.slots_seq().len() + 8 <= usize::MAX,
                m1.parking.spots.slots_seq().len() + 8 <= usize::MAX,
                self.lanes.slots_seq().len() == m1.lanes.slots_seq().len() + fl + j2,
                self.parking.spots.slots_seq().len() <= m1.parking.spots.slots_seq().len() + fl
                    + j2,
                forall|k: int|
                    #[trigger] m1.lanes.valid(k) ==> self.lanes.valid(k) && self.lanes.s_get(k)
                        == m1.lanes.s_get(k),
                forall|k: int|
                    #[trigger] self.lanes.valid(k) ==> m1.lanes.valid(k) || lane_ids@.contains(
                        LaneID(k as usize),
                    ),
                forall|k: int|
                    #[trigger] m1.parking.spots.valid(k) ==> self.parking.spots.valid(k)
                        && self.parking.spots.s_get(k) == m1.parking.spots.s_get(k),
                forall|k: int|
                    #[trigger] self.parking.spots.valid(k) && !m1.parking.spots.valid(k)
                        ==> self.parking.spots.s_get(k).state == crate::parking::SpotState::Free
                        && self.lanes.valid(self.parking.spots.s_get(k).parent.0 as int)
                        && self.lanes.s_get(self.parking.spots.s_get(k).parent.0 as int).kind
                        == LaneKind::Parking,
                forall|jj: int|
                    0 <= jj < fl ==> new_lane_is(
                        *self,
                        #[trigger] lane_ids@[jj],
                        rid,
                        pattern.forward@[jj],
                        LaneDirection::Forward,
                        gp@,
                    ) && !m1.lanes.valid(lane_ids@[jj].0 as int),
                forall|jj: int|
                    0 <= jj < j2 ==> new_lane_is(
                        *self,
                        #[trigger] lane_ids@[fl + jj],
                        rid,
                        pattern.backward@[jj],
                        LaneDirection::Backward,
                        gp@.reverse(),
                    ) && !m1.lanes.valid(lane_ids@[fl + jj].0 as int),
                forall|jj: int|
                    0 <= jj < fl && pattern.forward@[jj] == LaneKind::Parking ==> exists|k: int|
                        self.parking.spots.valid(k) && (#[trigger] self.parking.spots.s_get(
                            k,
                        )).parent == lane_ids@[jj],
                forall|jj: int|
                    0 <= jj < j2 && pattern.backward@[jj] == LaneKind::Parking ==> exists|k: int|
                        self.parking.spots.valid(k) && (#[trigger] self.parking.spots.s_get(
                            k,
                        )).parent == lane_ids@[fl + jj],
            decreases bl - j2,
        {
            let ghost pre = *self;
            let kind = pattern.backward[j2];
            let lid = LaneID(self.lanes.capacity());
            let pts = gp.reversed();
            self.lanes.insert(
                Lane {
                    id: lid,
                    parent: rid,
                    kind,
                    direction: LaneDirection::Backward,
                    points: pts,
                    control: TrafficControl::Always,
                },
            );
            let spot_for_lane: Option<crate::handles::ParkingSpotID> = if matches!(
                kind,
                LaneKind::Parking,
            ) {
                let spos = pa.mid(pb);
                Some(self.parking.insert_spot(lid, spos))
            } else {
                None
            };
            let ghost ids0 = lane_ids@;
            lane_ids.push(lid);
            proof {
                assert(lane_ids@.take(fl as int) =~= ids0.take(fl as int));
                assert forall|k: int| m1.lanes.valid(k) implies self.lanes.valid(k) && (
                #[trigger] self.lanes.s_get(k)) == m1.lanes.s_get(k) by {
                    assert(k < m1.lanes.slots_seq().len());
                    assert(pre.lanes.valid(k) && pre.lanes.s_get(k) == m1.lanes.s_get(k));
                    assert(k != lid.0 as int);
                };
                assert forall|k: int| m1.parking.spots.valid(k) implies self.parking.spots.valid(
                    k,
                ) && (#[trigger] self.parking.spots.s_get(k)) == m1.parking.spots.s_get(k) by {
                    assert(k < m1.parking.spots.slots_seq().len());
                    assert(pre.parking.spots.valid(k) && pre.parking.spots.s_get(k)
                        == m1.parking.spots.s_get(k));
                };
                assert forall|k: int| #[trigger] self.lanes.valid(k) implies m1.lanes.valid(k)
                    || lane_ids@.contains(LaneID(k as usize)) by {
                    if !m1.lanes.valid(k) {
                        if k == lid.0 as int {
                            assert(lane_ids@.last() == lid);
                            assert(lane_ids@.contains(lid));
                            assert(k < self.lanes.slots@.len() as int);
                            assert(self.lanes.slots@.len()
                                == vstd::std_specs::vec::spec_vec_len(&self.lanes.slots)) by {
                                vstd::std_specs::vec::axiom_spec_len(&self.lanes.slots);
                            }
                            assert(LaneID(k as usize) == lid);
                        } else {
                            lemma_push_contains(ids0, lid, LaneID(k as usize));
                        }
                    }
                };

                assert forall|jj: int| 0 <= jj < fl implies new_lane_is(
                    *self,
                    #[trigger] lane_ids@[jj],
                    rid,
                    pattern.forward@[jj],
                    LaneDirection::Forward,
                    gp@,
                ) && !m1.lanes.valid(lane_ids@[jj].0 as int) by {
                    assert(lane_ids@[jj] == ids0[jj]);
                };
                assert forall|jj: int| 0 <= jj < j2 + 1 implies new_lane_is(
                    *self,
                    #[trigger] lane_ids@[fl + jj],
                    rid,
                    pattern.backward@[jj],
                    LaneDirection::Backward,
                    gp@.reverse(),
                ) && !m1.lanes.valid(lane_ids@[fl + jj].0 as int) by {
                    if jj < j2 {
                        assert(lane_ids@[fl + jj] == ids0[fl + jj]);
                    } else {
                        assert(lane_ids@[fl + jj] == lid);
                    }
                };
                assert forall|jj: int|
                    0 <= jj < fl && pattern.forward@[jj] == LaneKind::Parking implies exists|
                    k: int,
                |
                    self.parking.spots.valid(k) && (#[trigger] self.parking.spots.s_get(
                        k,
                    )).parent == lane_ids@[jj] by {
                    let k0 = choose|k0: int|
                        pre.parking.spots.valid(k0) && (#[trigger] pre.parking.spots.s_get(
                            k0,
                        )).parent == ids0[jj];
                    assert(self.parking.spots.valid(k0) && self.parking.spots.s_get(k0).parent
                        == lane_ids@[jj]);
                };
                assert forall|jj: int|
                    0 <= jj < j2 + 1 && pattern.backward@[jj] == LaneKind::Parking implies exists|
                    k: int,
                |
                    self.parking.spots.valid(k) && (#[trigger] self.parking.spots.s_get(
                        k,
                    )).parent == lane_ids@[fl + jj] by {
                    if jj < j2 {
                        let k0 = choose|k0: int|
                            pre.parking.spots.valid(k0) && (#[trigger] pre.parking.spots.s_get(
                                k0,
                            )).parent == ids0[fl + jj];
                        assert(self.parking.spots.valid(k0) && self.parking.spots.s_get(
                            k0,
                        ).parent == lane_ids@[fl + jj]);
                    } else {
                        let sp = spot_for_lane.unwrap();
                        assert(self.parking.spots.valid(sp.0 as int)
                            && self.parking.spots.s_get(sp.0 as int).parent == lid);
                    }
                };
            }
            j2 = j2 + 1;
        }
        // the road itself, wired into both endpoint intersections
        let total = lane_ids.len();
        let ghost all_ids = lane_ids@;
        let road = Road {
            id: rid,
            src,
            dst,
            segment,
            src_point: pa,
            dst_point: pb,
            generated_points: gp,
            lanes: lane_ids,
            lots: Vec::new(),
            width: 8 * (total as i64),
        };
        let got = self.roads.insert(road);
        let src_rebuilt = {
            let it = match self.intersections.get(src.0) {
                Some(it) => it,
                None => {
                    proof {
                        assert(false);
                    }
                    unreached()
                },
            };
            let mut rs = copy_vec(&it.roads);
            rs.push(rid);
            Intersection {
                id: IntersectionID(src.0),
                pos: it.pos,
                roads: rs,
                turns: Vec::new(),
                interface_radius: it.interface_radius,
                polygon: it.polygon,
            }
        };
        self.intersections.set(src.0, src_rebuilt);
        let dst_rebuilt = {
            let it = match self.intersections.get(dst.0) {
                Some(it) => it,
                None => {
                    proof {
                        assert(false);
                    }
                    unreached()
                },
            };
            let mut rs = copy_vec(&it.roads);
            rs.push(rid);
            Intersection {
                id: IntersectionID(dst.0),
                pos: it.pos,
                roads: rs,
                turns: Vec::new(),
                interface_radius: it.interface_radius,
                polygon: it.polygon,
            }
        };
        self.intersections.set(dst.0, dst_rebuilt);
        self.spatial_map.insert(ProjectKind::Road(rid), bb);
        self.dirty = true;
        proof {
            let m = *self;
            let ri = rid.0 as int;
            assert forall|k: int| m.lanes.valid(k) implies m1.lanes.valid(k) || all_ids.contains(
                LaneID(k as usize),
            ) by {};
            assert forall|j3: int| m.roads.valid(j3) implies #[trigger] m.road_ok(j3) by {
                if j3 != ri {
                    assert(m1.road_ok(j3));
                    assert(m.roads.s_get(j3) == m1.roads.s_get(j3));
                    assert forall|jj: int| 0 <= jj < m.roads.s_get(j3).lanes@.len() implies
                        m.lanes.valid((#[trigger] m.roads.s_get(j3).lanes@[jj]).0 as int)
                            && m.lanes.s_get(m.roads.s_get(j3).lanes@[jj].0 as int).parent
                            == m.roads.s_get(j3).id by {
                        let e = m.roads.s_get(j3).lanes@[jj];
                        assert(m1.lanes.valid(e.0 as int));
                    };
                    if m1.roads.s_get(j3).src == src {
                        lemma_push_contains(
                            m1.intersections.s_get(src.0 as int).roads@,
                            rid,
                            RoadID(j3 as usize),
                        );
                    }
                    if m1.roads.s_get(j3).src == dst {
                        lemma_push_contains(
                            m1.intersections.s_get(dst.0 as int).roads@,
                            rid,
                            RoadID(j3 as usize),
                        );
                    }
                    if m1.roads.s_get(j3).dst == src {
                        lemma_push_contains(
                            m1.intersections.s_get(src.0 as int).roads@,
                            rid,
                            RoadID(j3 as usize),
                        );
                    }
                    if m1.roads.s_get(j3).dst == dst {
                        lemma_push_contains(
                            m1.intersections.s_get(dst.0 as int).roads@,
                            rid,
                            RoadID(j3 as usize),
                        );
                    }
                } else {
                    assert(m.intersections.s_get(src.0 as int).roads@.last() == rid);
                    assert(m.intersections.s_get(src.0 as int).roads@.contains(rid));
                    assert(m.intersections.s_get(dst.0 as int).roads@.last() == rid);
                    assert(m.intersections.s_get(dst.0 as int).roads@.contains(rid));
                    assert forall|jj: int| 0 <= jj < m.roads.s_get(j3).lanes@.len() implies
                        m.lanes.valid((#[trigger] m.roads.s_get(j3).lanes@[jj]).0 as int)
                            && m.lanes.s_get(m.roads.s_get(j3).lanes@[jj].0 as int).parent
                            == m.roads.s_get(j3).id by {
                        let e = m.roads.s_get(j3).lanes@[jj];
                        assert(e == all_ids[jj]);
                        if jj < fl as int {
                            assert(new_lane_is(
                                m,
                                e,
                                rid,
                                pattern.forward@[jj],
                                LaneDirection::Forward,
                                gp@,
                            ));
                        } else {
                            let jb = jj - fl;
                            assert(e == all_ids[fl + jb]);
                            assert(new_lane_is(
                                m,
                                all_ids[fl + jb],
                                rid,
                                pattern.backward@[jb],
                                LaneDirection::Backward,
                                gp@.reverse(),
                            ));
                        }
                    };
                }
            };
            assert forall|k: int| m.lanes.valid(k) implies #[trigger] m.lane_ok(k) by {
                if m1.lanes.valid(k) {
                    assert(m1.lane_ok(k));
                    assert(m.lanes.s_get(k) == m1.lanes.s_get(k));
                    let l = m.lanes.s_get(k);
                    assert(m.roads.s_get(l.parent.0 as int) == m1.roads.s_get(l.parent.0 as int));
                    if l.kind == LaneKind::Parking {
                        let prd = l.parent.0 as int;
                        let jd = choose|jd: int|
                            {
                                &&& 0 <= jd < m1.roads.s_get(prd).lanes@.len()
                                &&& m1.lanes.valid(
                                    (#[trigger] m1.roads.s_get(prd).lanes@[jd]).0 as int,
                                )
                                &&& m1.lanes.s_get(
                                    m1.roads.s_get(prd).lanes@[jd].0 as int,
                                ).kind == LaneKind::Driving
                                &&& m1.lanes.s_get(
                                    m1.roads.s_get(prd).lanes@[jd].0 as int,
                                ).direction == l.direction
                            };
                        let w = m1.roads.s_get(prd).lanes@[jd];
                        assert(m.lanes.s_get(w.0 as int) == m1.lanes.s_get(w.0 as int));
                        assert(m.roads.s_get(prd).lanes@[jd] == w);
                    }
                } else {
                    assert(all_ids.contains(LaneID(k as usize)));
                    let jj = choose|jj: int|
                        0 <= jj < all_ids.len() && all_ids[jj] == LaneID(k as usize);
                    let e = all_ids[jj];
                    if jj < fl as int {
                        assert(new_lane_is(
                            m,
                            e,
                            rid,
                            pattern.forward@[jj],
                            LaneDirection::Forward,
                            gp@,
                        ));
                    } else {
                        let jb = jj - fl;
                        assert(e == all_ids[fl + jb]);
                        assert(new_lane_is(
                            m,
                            all_ids[fl + jb],
                            rid,
                            pattern.backward@[jb],
                            LaneDirection::Backward,
                            gp@.reverse(),
                        ));
                    }
                    assert(e.0 as int == k);
                    assert(m.roads.s_get(ri).lanes@[jj] == e);
                    assert(m.roads.s_get(ri).lanes@.contains(e));
                    let l = m.lanes.s_get(k);
                    assert(l.id == e);
                    assert(l.parent == rid);
                    assert(l.points@.len() >= 2);
                    assert forall|ii: int| 0 <= ii < l.points@.len() implies (
                    #[trigger] l.points@[ii]).in_bounds() by {
                        if jj < fl as int {
                            assert(l.points@[ii] == gp@[ii]);
                        } else {
                            assert(l.points@[ii] == gp@[gp@.len() - 1 - ii]);
                        }
                    };
                    if l.kind == LaneKind::Parking {
                        if l.direction == LaneDirection::Forward {
                            assert(pattern.forward@[jj] == LaneKind::Parking);
                            assert(pattern.forward@.contains(LaneKind::Parking));
                            assert(pattern.forward@.contains(LaneKind::Driving));
                            let jd = choose|jd: int|
                                0 <= jd < pattern.forward@.len() && pattern.forward@[jd]
                                    == LaneKind::Driving;
                            assert(new_lane_is(
                                m,
                                all_ids[jd],
                                rid,
                                pattern.forward@[jd],
                                LaneDirection::Forward,
                                gp@,
                            ));
                            assert(m.roads.s_get(ri).lanes@[jd] == all_ids[jd]);
                        } else {
                            assert(pattern.backward@[jj - fl] == LaneKind::Parking);
                            assert(pattern.backward@.contains(LaneKind::Parking));
                            assert(pattern.backward@.contains(LaneKind::Driving));
                            let jd0 = choose|jd0: int|
                                0 <= jd0 < pattern.backward@.len() && pattern.backward@[jd0]
                                    == LaneKind::Driving;
                            assert(new_lane_is(
                                m,
                                all_ids[fl + jd0],
                                rid,
                                pattern.backward@[jd0],
                                LaneDirection::Backward,
                                gp@.reverse(),
                            ));
                            assert(m.roads.s_get(ri).lanes@[fl + jd0] == all_ids[fl + jd0]);
                        }
                    }
                }
            };
            assert forall|k: int| m.intersections.valid(k) implies #[trigger] m.inter_ok(k) by {
                assert(m1.inter_ok(k));
                if k == src.0 as int || k == dst.0 as int {
                    assert forall|jj: int| 0 <= jj < m.intersections.s_get(k).roads@.len() implies
                        m.roads.valid(
                            (#[trigger] m.intersections.s_get(k).roads@[jj]).0 as int,
                        ) && (m.roads.s_get(m.intersections.s_get(k).roads@[jj].0 as int).src
                            == m.intersections.s_get(k).id || m.roads.s_get(
                            m.intersections.s_get(k).roads@[jj].0 as int,
                        ).dst == m.intersections.s_get(k).id) by {
                        let e = m.intersections.s_get(k).roads@[jj];
                        if jj < m.intersections.s_get(k).roads@.len() - 1 {
                            assert(e == m1.intersections.s_get(k).roads@[jj]);
                            assert(m1.roads.valid(e.0 as int));
                            assert(m1.intersections.s_get(k).id == m.intersections.s_get(k).id);
                        } else {
                            assert(e == rid);
                        }
                    };
                } else {
                    assert(m.intersections.s_get(k) == m1.intersections.s_get(k));
                    assert forall|jj: int| 0 <= jj < m.intersections.s_get(k).turns@.len() implies
                        {
                            let t = #[trigger] m.intersections.s_get(k).turns@[jj];
                            &&& m.lanes.valid(t.src.0 as int)
                            &&& m.lanes.valid(t.dst.0 as int)
                            &&& t.points.in_bounds()
                            &&& t.points@.len() >= 2
                            &&& m.lane_end_inter(t.src) == m.intersections.s_get(k).id
                            &&& m.lane_start_inter(t.dst) == m.intersections.s_get(k).id
                        } by {
                        let t = m.intersections.s_get(k).turns@[jj];
                        assert(m1.lanes.valid(t.src.0 as int));
                        assert(m1.lanes.valid(t.dst.0 as int));
                        assert(m1.lane_ok(t.src.0 as int));
                        assert(m1.lane_ok(t.dst.0 as int));
                        assert(m.lanes.s_get(t.src.0 as int) == m1.lanes.s_get(t.src.0 as int));
                        assert(m.lanes.s_get(t.dst.0 as int) == m1.lanes.s_get(t.dst.0 as int));
                        assert(m.roads.s_get(m1.lanes.s_get(t.src.0 as int).parent.0 as int)
                            == m1.roads.s_get(m1.lanes.s_get(t.src.0 as int).parent.0 as int));
                        assert(m.roads.s_get(m1.lanes.s_get(t.dst.0 as int).parent.0 as int)
                            == m1.roads.s_get(m1.lanes.s_get(t.dst.0 as int).parent.0 as int));
                    };
                    assert forall|jj: int| 0 <= jj < m.intersections.s_get(k).roads@.len() implies
                        m.roads.valid(
                            (#[trigger] m.intersections.s_get(k).roads@[jj]).0 as int,
                        ) && (m.roads.s_get(m.intersections.s_get(k).roads@[jj].0 as int).src
                            == m.intersections.s_get(k).id || m.roads.s_get(
                            m.intersections.s_get(k).roads@[jj].0 as int,
                        ).dst == m.intersections.s_get(k).id) by {
                        let e = m.intersections.s_get(k).roads@[jj];
                        assert(m1.roads.valid(e.0 as int));
                    };
                }
            };
            assert forall|k: int| m.lots.valid(k) implies #[trigger] m.lot_ok(k) by {
                assert(m1.lot_ok(k));
                let e = m1.lots.s_get(k).id;
                assert(m.spatial_map.s_contains_key(ProjectKind::Lot(e)) <==> (
                m1.spatial_map.s_contains_key(ProjectKind::Lot(e))));
                assert(crate::spatial_map::find_shape(m.spatial_map.entries@, ProjectKind::Lot(e))
                    == crate::spatial_map::find_shape(
                    m1.spatial_map.entries@,
                    ProjectKind::Lot(e),
                ));
                let pr = m1.lots.s_get(k).parent.0 as int;
                assert(m.roads.s_get(pr) == m1.roads.s_get(pr));
            };
            assert forall|k: int| m.buildings.valid(k) implies #[trigger] m.building_ok(k) by {
                assert(m1.building_ok(k));
            };
            assert forall|k: int| m.parking.spots.valid(k) implies #[trigger] m.spot_ok(k) by {
                if m1.parking.spots.valid(k) {
                    assert(m1.spot_ok(k));
                    assert(m.lanes.s_get(m1.parking.spots.s_get(k).parent.0 as int)
                        == m1.lanes.s_get(m1.parking.spots.s_get(k).parent.0 as int));
                }
            };
            assert forall|pk: ProjectKind| #[trigger] m.spatial_map.s_contains_key(pk) implies
                m.spatial_key_ok(pk) by {
                if pk != ProjectKind::Road(rid) {
                    assert(m1.spatial_map.s_contains_key(pk));
                    assert(m1.spatial_key_ok(pk));
                }
            };
            assert(m.inv());
        }
        let ghost m2 = *self;
        self.invalidate(src);
        let ghost m3 = *self;
        self.invalidate(dst);
        let ghost m4 = *self;
        self.generate_lots_along(rid);
        proof {
            let mf = *self;
            let ri = rid.0 as int;
            assert(crate::map::road_same_mod_lots(mf.roads.s_get(ri), m2.roads.s_get(ri)));
            assert forall|j: int| 0 <= j < fl implies new_lane_is(
                mf,
                #[trigger] mf.roads.s_get(ri).lanes@[j],
                rid,
                pattern.forward@[j],
                LaneDirection::Forward,
                gp@,
            ) && !old(self).lanes.valid(mf.roads.s_get(ri).lanes@[j].0 as int) by {
                let e = mf.roads.s_get(ri).lanes@[j];
                assert(e == m2.roads.s_get(ri).lanes@[j]);
                assert(e == all_ids[j]);
                assert(new_lane_is(m2, e, rid, pattern.forward@[j], LaneDirection::Forward, gp@));
                assert(crate::map::lane_same_mod_control(
                    m3.lanes.s_get(e.0 as int),
                    m2.lanes.s_get(e.0 as int),
                ));
                assert(crate::map::lane_same_mod_control(
                    m4.lanes.s_get(e.0 as int),
                    m3.lanes.s_get(e.0 as int),
                ));
                assert(mf.lanes.s_get(e.0 as int) == m4.lanes.s_get(e.0 as int));
                assert(mf.lane_ok(e.0 as int));
            };
            assert forall|j: int| 0 <= j < bl implies new_lane_is(
                mf,
                #[trigger] mf.roads.s_get(ri).lanes@[fl + j],
                rid,
                pattern.backward@[j],
                LaneDirection::Backward,
                gp@.reverse(),
            ) && !old(self).lanes.valid(mf.roads.s_get(ri).lanes@[fl + j].0 as int) by {
                let e = mf.roads.s_get(ri).lanes@[fl + j];
                assert(e == m2.roads.s_get(ri).lanes@[fl + j]);
                assert(e == all_ids[fl + j]);
                assert(new_lane_is(
                    m2,
                    e,
                    rid,
                    pattern.backward@[j],
                    LaneDirection::Backward,
                    gp@.reverse(),
                ));
                assert(crate::map::lane_same_mod_control(
                    m3.lanes.s_get(e.0 as int),
                    m2.lanes.s_get(e.0 as int),
                ));
                assert(crate::map::lane_same_mod_control(
                    m4.lanes.s_get(e.0 as int),
                    m3.lanes.s_get(e.0 as int),
                ));
                assert(mf.lanes.s_get(e.0 as int) == m4.lanes.s_get(e.0 as int));
                assert(mf.lane_ok(e.0 as int));
            };
            assert forall|j: int| 0 <= j < fl + bl implies !old(self).lanes.valid(
                (#[trigger] mf.roads.s_get(ri).lanes@[j]).0 as int,
            ) by {
                let e = mf.roads.s_get(ri).lanes@[j];
                assert(e == all_ids[j]);
                if j < fl as int {
                    assert(new_lane_is(
                        m2,
                        e,
                        rid,
                        pattern.forward@[j],
                        LaneDirection::Forward,
                        gp@,
                    ));
                } else {
                    let jb = j - fl;
                    assert(e == all_ids[fl + jb]);
                    assert(new_lane_is(
                        m2,
                        all_ids[fl + jb],
                        rid,
                        pattern.backward@[jb],
                        LaneDirection::Backward,
                        gp@.reverse(),
                    ));
                }
            };
            assert forall|k: int| old(self).lanes.valid(k) implies mf.lanes.valid(k)
                && crate::map::lane_same_mod_control(
                #[trigger] mf.lanes.s_get(k),
                old(self).lanes.s_get(k),
            ) by {
                assert(m1.lanes.valid(k));
                assert(m2.lanes.s_get(k) == m1.lanes.s_get(k));
                assert(crate::map::lane_same_mod_control(
                    m3.lanes.s_get(k),
                    m2.lanes.s_get(k),
                ));
                assert(crate::map::lane_same_mod_control(
                    m4.lanes.s_get(k),
                    m3.lanes.s_get(k),
                ));
                assert(mf.lanes.s_get(k) == m4.lanes.s_get(k));
            };
            assert forall|k: int|
                old(self).parking.spots.valid(k) implies mf.parking.spots.valid(k) && (
            #[trigger] mf.parking.spots.s_get(k)) == old(self).parking.spots.s_get(k) by {
                assert(m1.parking.spots.valid(k));
                assert(m2.parking.spots.s_get(k) == m1.parking.spots.s_get(k));
            };
            assert forall|j: int|
                0 <= j < fl + bl && mf.lanes.s_get(
                    (#[trigger] mf.roads.s_get(ri).lanes@[j]).0 as int,
                ).kind == LaneKind::Parking implies exists|k: int|
                    mf.parking.spots.valid(k) && (#[trigger] mf.parking.spots.s_get(k)).parent
                        == mf.roads.s_get(ri).lanes@[j] by {
                let e = mf.roads.s_get(ri).lanes@[j];
                assert(e == all_ids[j]);
                if j < fl as int {
                    assert(new_lane_is(
                        m2,
                        e,
                        rid,
                        pattern.forward@[j],
                        LaneDirection::Forward,
                        gp@,
                    ));
                    assert(crate::map::lane_same_mod_control(
                        mf.lanes.s_get(e.0 as int),
                        m2.lanes.s_get(e.0 as int),
                    ));
                    assert(pattern.forward@[j] == LaneKind::Parking);
                    let k0 = choose|k0: int|
                        m2.parking.spots.valid(k0) && (#[trigger] m2.parking.spots.s_get(
                            k0,
                        )).parent == all_ids[j];
                    assert(mf.parking.spots.valid(k0) && mf.parking.spots.s_get(k0).parent == e);
                } else {
                    let jb = j - fl;
                    assert(e == all_ids[fl + jb]);
                    assert(new_lane_is(
                        m2,
                        all_ids[fl + jb],
                        rid,
                        pattern.backward@[jb],
                        LaneDirection::Backward,
                        gp@.reverse(),
                    ));
                    assert(crate::map::lane_same_mod_control(
                        mf.lanes.s_get(e.0 as int),
                        m2.lanes.s_get(e.0 as int),
                    ));
                    assert(pattern.backward@[jb] == LaneKind::Parking);
                    let k0 = choose|k0: int|
                        m2.parking.spots.valid(k0) && (#[trigger] m2.parking.spots.s_get(
                            k0,
                        )).parent == all_ids[fl + jb];
                    assert(mf.parking.spots.valid(k0) && mf.parking.spots.s_get(k0).parent == e);
                }
            };
            assert forall|k: int| old(self).lots.valid(k) implies (mf.lots.valid(k) <==> !(
            #[trigger] old(self).lots.s_get(k)).shape.spec_intersects(
                spec_bbox(
                    spec_road_points(
                        segment,
                        old(self).intersections.s_get(src.0 as int).pos,
                        old(self).intersections.s_get(dst.0 as int).pos,
                    ),
                ).spec_inflate(LOT_CLEARANCE),
            )) by {
                assert(k < old(self).lots.slots_seq().len());
                assert(m4.lots.slots_seq().len() == old(self).lots.slots_seq().len());
                assert(mf.lots.valid(k) <==> m4.lots.valid(k));
                assert(m1.lots.valid(k) <==> !old(self).lots.s_get(k).shape.spec_intersects(q));
            };
            assert forall|k: int|
                old(self).lots.valid(k) && mf.lots.valid(k) implies #[trigger] mf.lots.s_get(k)
                    == old(self).lots.s_get(k) by {
                assert(k < old(self).lots.slots_seq().len());
                assert(mf.lots.valid(k) <==> m4.lots.valid(k));
                assert(m4.lots.valid(k));
                assert(mf.lots.s_get(k) == m4.lots.s_get(k));
                assert(m4.lots.s_get(k) == m1.lots.s_get(k));
            };
            assert forall|k: int|
                mf.lots.valid(k) && !old(self).lots.valid(k) implies (#[trigger] mf.lots.s_get(
                    k,
                )).parent == rid by {
                if m4.lots.valid(k) {
                    assert(m1.lots.valid(k));
                    assert(old(self).lots.valid(k));
                    assert(false);
                }
            };
            assert(mf.intersections.s_get(src.0 as int).roads@ == old(self).intersections.s_get(
                src.0 as int,
            ).roads@.push(rid));
            assert(mf.intersections.s_get(dst.0 as int).roads@ == old(self).intersections.s_get(
                dst.0 as int,
            ).roads@.push(rid));
        }
        rid
    }
}

/// A copy of `v` without every occurrence of `x`.
fn vec_without_road(v: &Vec<RoadID>, x: RoadID) -> (r: Vec<RoadID>)
    ensures
        forall|e: RoadID| r@.contains(e) <==> (v@.contains(e) && e != x),
{
    let mut r: Vec<RoadID> = Vec::new();
    let mut i: usize = 0;
    let n = v.len();
    while i < n
        invariant
            0 <= i <= n,
            n == v@.len(),
            forall|e: RoadID| r@.contains(e) <==> (v@.take(i as int).contains(e) && e != x),
        decreases n - i,
    {
        let e = v[i];
        let ghost r0 = r@;
        if e.0 != x.0 {
            r.push(e);
        }
        proof {
            assert(v@.take(i + 1) =~= v@.take(i as int).push(v@[i as int]));
            assert forall|ee: RoadID| r@.contains(ee) <==> (v@.take(i + 1).contains(ee) && ee
                != x) by {
                lemma_push_contains(v@.take(i as int), v@[i as int], ee);
                if e.0 != x.0 {
                    lemma_push_contains(r0, e, ee);
                    assert(e == v@[i as int]);
                    if ee == x {
                        assert(ee != e);
                    }
                } else {
                    assert(e == x);
                }
            };
        }
        i = i + 1;
    }
    proof {
        assert(v@.take(n as int) =~= v@);
    }
    r
}

impl CityMap {
    /// Removes a road together with its lanes, their parking spots, its
    /// abutting lots and all spatial entries, and recomputes both endpoint
    /// intersections. A stale handle is a reported no-op. The returned value
    /// is the removed road (its lot list already drained).
    pub fn remove_road(&mut self, road_id: RoadID) -> (r: Option<Road>)
        requires
            old(self).inv(),
        ensures
            final(self).inv(),
            r is Some <==> old(self).roads.valid(road_id.0 as int),
            r is Some ==> final(self).dirty,
            !final(self).roads.valid(road_id.0 as int),
            !old(self).roads.valid(road_id.0 as int) ==> *final(self) == *old(self),
            r is Some ==> crate::map::road_same_mod_lots(
                r.unwrap(),
                old(self).roads.s_get(road_id.0 as int),
            ),
            forall|k: int|
                k != road_id.0 as int ==> (final(self).roads.valid(k) <==> old(
                self).roads.valid(k)),
            forall|k: int|
                k != road_id.0 as int && old(self).roads.valid(k) ==> final(self).roads.s_get(k)
                    == old(self).roads.s_get(k),
            final(self).roads.slots_seq().len() == old(self).roads.slots_seq().len(),
            final(self).lanes.slots_seq().len() == old(self).lanes.slots_seq().len(),
            final(self).intersections.slots_seq().len() == old(
                self,
            ).intersections.slots_seq().len(),
            final(self).parking.spots.slots_seq().len() == old(
                self,
            ).parking.spots.slots_seq().len(),
            final(self).lots.slots_seq().len() == old(self).lots.slots_seq().len(),
            final(self).spatial_map.entries@.len() <= old(self).spatial_map.entries@.len(),
            old(self).roads.valid(road_id.0 as int) ==> {
                &&& forall|k: int|
                    #[trigger] final(self).lanes.valid(k) <==> old(self).lanes.valid(k) && !old(
                    self).roads.s_get(road_id.0 as int).lanes@.contains(LaneID(k as usize))
                &&& forall|k: int|
                    final(self).lanes.valid(k) ==> crate::map::lane_same_mod_control(
                        #[trigger] final(self).lanes.s_get(k),
                        old(self).lanes.s_get(k),
                    )
                &&& forall|k: int|
                    #[trigger] final(self).parking.spots.valid(k) <==> old(
                    self).parking.spots.valid(k) && !old(self).roads.s_get(
                        road_id.0 as int,
                    ).lanes@.contains(old(self).parking.spots.s_get(k).parent)
                &&& forall|k: int|
                    final(self).parking.spots.valid(k) ==> #[trigger] final(
                    self).parking.spots.s_get(k) == old(self).parking.spots.s_get(k)
                &&& forall|k: int|
                    #[trigger] final(self).lots.valid(k) <==> old(self).lots.valid(k) && old(
                    self).lots.s_get(k).parent != road_id
                &&& forall|k: int|
                    final(self).lots.valid(k) ==> #[trigger] final(self).lots.s_get(k) == old(
                    self).lots.s_get(k)
                &&& forall|k: int| final(self).intersections.valid(k) <==> old(
                    self).intersections.valid(k)
                &&& forall|k: int|
                    old(self).intersections.valid(k) ==> (#[trigger] final(
                    self).intersections.s_get(k)).pos == old(self).intersections.s_get(k).pos
                &&& !final(self).spatial_map.s_contains_key(ProjectKind::Road(road_id))
            },
    {
        if !self.roads.contains(road_id.0) {
            return None;
        }
        let ghost at_entry = *old(self);
        self.dirty = true;
        proof {
            crate::map::lemma_inv_mod_dirty(at_entry, *self);
            assert(self.road_ok(road_id.0 as int));
        }
        let ri = road_id.0;
        // take copies of everything the cascade needs, and build the value
        // handed back to the caller
        let (out, lots_copy, lanes_copy, src, dst) = {
            let rd = match self.roads.get(ri) {
                Some(rd) => rd,
                None => {
                    proof {
                        assert(false);
                    }
                    unreached()
                },
            };
            (
                Road {
                    id: rd.id,
                    src: rd.src,
                    dst: rd.dst,
                    segment: rd.segment,
                    src_point: rd.src_point,
                    dst_point: rd.dst_point,
                    generated_points: rd.generated_points.clone_of(),
                    lanes: copy_vec(&rd.lanes),
                    lots: Vec::new(),
                    width: rd.width,
                },
                copy_vec(&rd.lots),
                copy_vec(&rd.lanes),
                rd.src,
                rd.dst,
            )
        };
        // drain the road's lots first, while the whole network is intact
        let nlots = lots_copy.len();
        let mut i: usize = 0;
        proof {
            assert(lots_copy@.skip(0) =~= lots_copy@);
            assert forall|k: int|
                #[trigger] self.lots.valid(k) && old(self).lots.s_get(k).parent == road_id implies
                lots_copy@.skip(0).contains(old(self).lots.s_get(k).id) by {
                assert(self.lot_ok(k));
                assert(self.roads.s_get(road_id.0 as int).lots@.contains(self.lots.s_get(k).id));
            };
        }
        while i < nlots
            invariant
                0 <= i <= nlots,
                self.inv(),
                old(self).inv(),
                old(self).roads.valid(road_id.0 as int),
                lots_copy@ == old(self).roads.s_get(road_id.0 as int).lots@,
                nlots == lots_copy@.len(),
                self.roads.valid(road_id.0 as int),
                forall|k: int|
                    k != road_id.0 as int ==> (self.roads.valid(k) <==> old(self).roads.valid(k)),
                forall|k: int|
                    k != road_id.0 as int && old(self).roads.valid(k) ==> self.roads.s_get(k)
                        == old(self).roads.s_get(k),
                crate::map::road_same_mod_lots(
                    self.roads.s_get(road_id.0 as int),
                    old(self).roads.s_get(road_id.0 as int),
                ),
                self.lanes == old(self).lanes,
                self.intersections == old(self).intersections,
                self.buildings == old(self).buildings,
                self.parking == old(self).parking,
                forall|k: int|
                    #[trigger] self.lots.valid(k) ==> old(self).lots.valid(k) && self.lots.s_get(k)
                        == old(self).lots.s_get(k),
                forall|k: int|
                    old(self).lots.valid(k) && old(self).lots.s_get(k).parent != road_id
                        ==> self.lots.valid(k),
                forall|k: int|
                    #[trigger] self.lots.valid(k) && old(self).lots.s_get(k).parent == road_id
                        ==> lots_copy@.skip(i as int).contains(old(self).lots.s_get(k).id),
                forall|pk: ProjectKind|
                    !(pk is Lot) ==> (#[trigger] self.spatial_map.s_contains_key(pk) <==> old(
                    self).spatial_map.s_contains_key(pk)),
                self.dirty,
                self.roads.slots_seq().len() == old(self).roads.slots_seq().len(),
                self.lots.slots_seq().len() == old(self).lots.slots_seq().len(),
                self.spatial_map.entries@.len() <= old(self).spatial_map.entries@.len(),
            decreases nlots - i,
        {
            let ghost pre = *self;
            let e = lots_copy[i];
            let here = self.lots.contains(e.0);
            if here {
                self.remove_one_lot(e);
            }
            proof {
                if here {
                    assert(pre.lot_ok(e.0 as int));
                    assert(pre.lots.s_get(e.0 as int) == old(self).lots.s_get(e.0 as int));
                    assert(old(self).road_ok(road_id.0 as int));
                    assert(old(self).roads.s_get(road_id.0 as int).lots@[i as int] == e);
                    assert(old(self).lots.s_get(e.0 as int).parent == old(self).roads.s_get(
                        road_id.0 as int,
                    ).id);
                    assert(old(self).roads.s_get(road_id.0 as int).id == RoadID(road_id.0));
                }
                assert forall|k: int|
                    k != road_id.0 as int && old(self).roads.valid(k) implies self.roads.s_get(k)
                        == old(self).roads.s_get(k) by {
                    if here {
                        assert(pre.lots.s_get(e.0 as int).parent.0 as int == road_id.0 as int)
                            by {
                            assert(old(self).road_ok(road_id.0 as int));
                            assert(old(self).lots.s_get(e.0 as int).parent == road_id);
                        }
                        assert(pre.roads.s_get(k) == old(self).roads.s_get(k));
                    }
                };
                assert forall|k: int|
                    old(self).lots.valid(k) && old(self).lots.s_get(k).parent != road_id implies
                    self.lots.valid(k) by {
                    assert(pre.lots.valid(k));
                    if here && k == e.0 as int {
                        assert(pre.lots.s_get(k).parent == road_id);
                        assert(false);
                    }
                };
                assert forall|k: int|
                    #[trigger] self.lots.valid(k) && old(self).lots.s_get(k).parent == road_id
                        implies lots_copy@.skip(i + 1).contains(old(self).lots.s_get(k).id) by {
                    let key = old(self).lots.s_get(k).id;
                    assert(pre.lots.valid(k));
                    assert(lots_copy@.skip(i as int).contains(key));
                    let jj = choose|jj: int|
                        0 <= jj < lots_copy@.skip(i as int).len() && lots_copy@.skip(i as int)[jj]
                            == key;
                    if jj == 0 {
                        assert(lots_copy@[i as int] == key);
                        assert(pre.lot_ok(k));
                        assert(pre.lots.s_get(k).id == LotID(k as usize));
                        assert(old(self).lots.s_get(k).id == LotID(k as usize));
                        assert(k < pre.lots.slots@.len() as int);
                        assert(pre.lots.slots@.len() == vstd::std_specs::vec::spec_vec_len(
                            &pre.lots.slots,
                        )) by {
                            vstd::std_specs::vec::axiom_spec_len(&pre.lots.slots);
                        }
                        assert((k as usize) as int == k);
                        assert(!self.lots.valid(k));
                        assert(false);
                    } else {
                        assert(lots_copy@.skip(i + 1)[jj - 1] == key);
                    }
                };
            }
            i = i + 1;
        }
        proof {
            assert(lots_copy@.skip(nlots as int) =~= Seq::<LotID>::empty());
            assert forall|k: int|
                old(self).lots.valid(k) && (#[trigger] old(self).lots.s_get(k)).parent == road_id
                    implies !self.lots.valid(k) by {
                if self.lots.valid(k) {
                    assert(lots_copy@.skip(nlots as int).contains(old(self).lots.s_get(k).id));
                }
            };
        }
        let ghost ma = *self;
        // remove the lanes and their parking spots
        let nl = lanes_copy.len();
        let mut li: usize = 0;
        while li < nl
            invariant
                0 <= li <= nl,
                nl == lanes_copy@.len(),
                self.roads == ma.roads,
                self.intersections == ma.intersections,
                self.buildings == ma.buildings,
                self.lots == ma.lots,
                self.spatial_map == ma.spatial_map,
                self.dirty == ma.dirty,
                self.lanes.wf(),
                self.parking.wf(),
                self.lanes.slots_seq().len() == ma.lanes.slots_seq().len(),
                self.parking.spots.slots_seq().len() == ma.parking.spots.slots_seq().len(),
                forall|k: int|
                    #[trigger] self.lanes.valid(k) <==> ma.lanes.valid(k) && !lanes_copy@.take(
                        li as int,
                    ).contains(LaneID(k as usize)),
                forall|k: int|
                    self.lanes.valid(k) ==> #[trigger] self.lanes.s_get(k) == ma.lanes.s_get(k),
                forall|k: int|
                    #[trigger] self.parking.spots.valid(k) <==> ma.parking.spots.valid(k)
                        && !lanes_copy@.take(li as int).contains(ma.parking.spots.s_get(k).parent),
                forall|k: int|
                    self.parking.spots.valid(k) ==> #[trigger] self.parking.spots.s_get(k)
                        == ma.parking.spots.s_get(k),
            decreases nl - li,
        {
            let ghost pre = *self;
            let lid = lanes_copy[li];
            self.parking.remove_spots(lid);
            self.lanes.remove(lid.0);
            proof {
                assert(lanes_copy@.take(li + 1) =~= lanes_copy@.take(li as int).push(
                    lanes_copy@[li as int],
                ));
                assert forall|k: int| #[trigger] self.lanes.valid(k) <==> (ma.lanes.valid(k)
                    && !lanes_copy@.take(li + 1).contains(LaneID(k as usize))) by {
                    lemma_push_contains(
                        lanes_copy@.take(li as int),
                        lanes_copy@[li as int],
                        LaneID(k as usize),
                    );
                    if 0 <= k < self.lanes.slots@.len() as int {
                        assert(self.lanes.slots@.len() == vstd::std_specs::vec::spec_vec_len(
                            &self.lanes.slots,
                        )) by {
                            vstd::std_specs::vec::axiom_spec_len(&self.lanes.slots);
                        }
                        assert((k as usize) as int == k);
                        if k == lid.0 as int {
                            assert(LaneID(k as usize) == lid);
                        }
                    }
                };
                assert forall|k: int| #[trigger] self.parking.spots.valid(k) <==> (
                ma.parking.spots.valid(k) && !lanes_copy@.take(li + 1).contains(
                    ma.parking.spots.s_get(k).parent,
                )) by {
                    lemma_push_contains(
                        lanes_copy@.take(li as int),
                        lanes_copy@[li as int],
                        ma.parking.spots.s_get(k).parent,
                    );
                    if pre.parking.spots.valid(k) {
                        assert(pre.parking.spots.s_get(k) == ma.parking.spots.s_get(k));
                    }
                };
            }
            li = li + 1;
        }
        proof {
            assert(lanes_copy@.take(nl as int) =~= lanes_copy@);
        }
        // remove the road itself and its spatial entry, and rewire both ends
        self.roads.remove(ri);
        self.spatial_map.remove(ProjectKind::Road(road_id));
        let src_rebuilt = {
            let it = match self.intersections.get(src.0) {
                Some(it) => it,
                None => {
                    proof {
                        assert(false);
                    }
                    unreached()
                },
            };
            Intersection {
                id: IntersectionID(src.0),
                pos: it.pos,
                roads: vec_without_road(&it.roads, road_id),
                turns: Vec::new(),
                interface_radius: it.interface_radius,
                polygon: it.polygon,
            }
        };
        self.intersections.set(src.0, src_rebuilt);
        let dst_rebuilt = {
            let it = match self.intersections.get(dst.0) {
                Some(it) => it,
                None => {
                    proof {
                        assert(false);
                    }
                    unreached()
                },
            };
            Intersection {
                id: IntersectionID(dst.0),
                pos: it.pos,
                roads: vec_without_road(&it.roads, road_id),
                turns: Vec::new(),
                interface_radius: it.interface_radius,
                polygon: it.polygon,
            }
        };
        self.intersections.set(dst.0, dst_rebuilt);
        proof {
            let m = *self;
            let ghost rii = road_id.0 as int;
            assert(ma.roads.valid(rii));
            assert(ma.road_ok(rii));
            assert(crate::map::road_same_mod_lots(
                ma.roads.s_get(rii),
                old(self).roads.s_get(rii),
            ));
            assert(ma.roads.s_get(rii).lanes@ == lanes_copy@);
            assert(ma.roads.s_get(rii).id == RoadID(road_id.0));
            assert(ma.roads.s_get(rii).src == src && ma.roads.s_get(rii).dst == dst);
            assert forall|kk: int| 0 <= kk < lanes_copy@.len() implies ma.lanes.valid(
                (#[trigger] lanes_copy@[kk]).0 as int,
            ) && ma.lanes.s_get(lanes_copy@[kk].0 as int).parent == RoadID(road_id.0) by {
                assert(ma.roads.s_get(rii).lanes@[kk] == lanes_copy@[kk]);
            };
            assert forall|j: int| m.roads.valid(j) implies #[trigger] m.road_ok(j) by {
                assert(ma.road_ok(j));
                assert(m.roads.s_get(j) == ma.roads.s_get(j));
                assert forall|jj: int| 0 <= jj < m.roads.s_get(j).lanes@.len() implies
                    m.lanes.valid((#[trigger] m.roads.s_get(j).lanes@[jj]).0 as int)
                        && m.lanes.s_get(m.roads.s_get(j).lanes@[jj].0 as int).parent
                        == m.roads.s_get(j).id by {
                    let e = m.roads.s_get(j).lanes@[jj];
                    assert(ma.lanes.valid(e.0 as int));
                    assert(ma.lane_ok(e.0 as int));
                    if lanes_copy@.contains(e) {
                        let kk = choose|kk: int|
                            0 <= kk < lanes_copy@.len() && (#[trigger] lanes_copy@[kk]) == e;
                        assert(ma.lanes.s_get(e.0 as int).parent == RoadID(road_id.0));
                        assert(ma.lanes.s_get(e.0 as int).parent == ma.roads.s_get(j).id);
                        assert(ma.roads.s_get(j).id == RoadID(j as usize));
                        assert(road_id.0 == j as usize);
                        assert(j < ma.roads.slots@.len() as int);
                        assert(ma.roads.slots@.len() == vstd::std_specs::vec::spec_vec_len(
                            &ma.roads.slots,
                        )) by {
                            vstd::std_specs::vec::axiom_spec_len(&ma.roads.slots);
                        }
                        assert((j as usize) as int == j);
                        assert(j == rii);
                        assert(false);
                    }
                };
                assert forall|jj: int| 0 <= jj < m.roads.s_get(j).lots@.len() implies
                    m.lots.valid((#[trigger] m.roads.s_get(j).lots@[jj]).0 as int)
                        && m.lots.s_get(m.roads.s_get(j).lots@[jj].0 as int).parent
                        == m.roads.s_get(j).id by {
                    let e = m.roads.s_get(j).lots@[jj];
                    assert(ma.lots.valid(e.0 as int));
                    assert(ma.lot_ok(e.0 as int));
                };
                let sr = ma.roads.s_get(j).src;
                let dr = ma.roads.s_get(j).dst;
                if sr == src || sr == dst {
                    assert(ma.intersections.s_get(sr.0 as int).roads@.contains(RoadID(
                        j as usize,
                    )));
                    assert(m.intersections.s_get(sr.0 as int).roads@.contains(RoadID(j as usize))
                        <==> (ma.intersections.s_get(sr.0 as int).roads@.contains(RoadID(
                        j as usize,
                    )) && RoadID(j as usize) != road_id));
                }
                if dr == src || dr == dst {
                    assert(ma.intersections.s_get(dr.0 as int).roads@.contains(RoadID(
                        j as usize,
                    )));
                    assert(m.intersections.s_get(dr.0 as int).roads@.contains(RoadID(j as usize))
                        <==> (ma.intersections.s_get(dr.0 as int).roads@.contains(RoadID(
                        j as usize,
                    )) && RoadID(j as usize) != road_id));
                }
            };
            assert forall|k: int| m.lanes.valid(k) implies #[trigger] m.lane_ok(k) by {
                assert(ma.lane_ok(k));
                let l = m.lanes.s_get(k);
                assert(l == ma.lanes.s_get(k));
                assert(l.parent.0 as int != rii) by {
                    if l.parent.0 as int == rii {
                        assert(ma.roads.s_get(rii).lanes@.contains(l.id));
                        assert(lanes_copy@.contains(l.id));
                        assert(l.id == LaneID(k as usize));
                        assert(k < ma.lanes.slots@.len() as int);
                        assert(ma.lanes.slots@.len() == vstd::std_specs::vec::spec_vec_len(
                            &ma.lanes.slots,
                        )) by {
                            vstd::std_specs::vec::axiom_spec_len(&ma.lanes.slots);
                        }
                        assert((k as usize) as int == k);
                        assert(!m.lanes.valid(k));
                    }
                }
                assert(m.roads.valid(l.parent.0 as int));
                assert(m.roads.s_get(l.parent.0 as int) == ma.roads.s_get(l.parent.0 as int));
                if l.kind == LaneKind::Parking {
                    let prd = l.parent.0 as int;
                    let jd = choose|jd: int|
                        {
                            &&& 0 <= jd < ma.roads.s_get(prd).lanes@.len()
                            &&& ma.lanes.valid(
                                (#[trigger] ma.roads.s_get(prd).lanes@[jd]).0 as int,
                            )
                            &&& ma.lanes.s_get(
                                ma.roads.s_get(prd).lanes@[jd].0 as int,
                            ).kind == LaneKind::Driving
                            &&& ma.lanes.s_get(
                                ma.roads.s_get(prd).lanes@[jd].0 as int,
                            ).direction == l.direction
                        };
                    let w = ma.roads.s_get(prd).lanes@[jd];
                    assert(ma.lane_ok(w.0 as int));
                    assert(ma.road_ok(prd));
                    assert(ma.lanes.s_get(w.0 as int).parent == ma.roads.s_get(prd).id);
                    assert(ma.roads.s_get(prd).id == RoadID(prd as usize));
                    assert(m.lanes.valid(w.0 as int)) by {
                        if lanes_copy@.contains(w) {
                            let kk = choose|kk: int|
                                0 <= kk < lanes_copy@.len() && (#[trigger] lanes_copy@[kk]) == w;
                            assert(ma.lanes.s_get(w.0 as int).parent == RoadID(road_id.0));
                            assert(road_id.0 == prd as usize);
                            assert(prd < ma.roads.slots@.len() as int);
                            assert(ma.roads.slots@.len() == vstd::std_specs::vec::spec_vec_len(
                                &ma.roads.slots,
                            )) by {
                                vstd::std_specs::vec::axiom_spec_len(&ma.roads.slots);
                            }
                            assert((prd as usize) as int == prd);
                            assert(prd == rii);
                            assert(false);
                        }
                    }
                    assert(m.lanes.s_get(w.0 as int) == ma.lanes.s_get(w.0 as int));
                    assert(m.roads.s_get(prd).lanes@[jd] == w);
                }
            };
            assert forall|k: int| m.intersections.valid(k) implies #[trigger] m.inter_ok(k) by {
                assert(ma.inter_ok(k));
                if k == src.0 as int || k == dst.0 as int {
                    assert forall|jj: int| 0 <= jj < m.intersections.s_get(k).roads@.len() implies
                        m.roads.valid(
                            (#[trigger] m.intersections.s_get(k).roads@[jj]).0 as int,
                        ) && (m.roads.s_get(m.intersections.s_get(k).roads@[jj].0 as int).src
                            == m.intersections.s_get(k).id || m.roads.s_get(
                            m.intersections.s_get(k).roads@[jj].0 as int,
                        ).dst == m.intersections.s_get(k).id) by {
                        let e = m.intersections.s_get(k).roads@[jj];
                        assert(m.intersections.s_get(k).roads@.contains(e));
                        assert(ma.intersections.s_get(k).roads@.contains(e) && e != road_id);
                        let kk = choose|kk: int|
                            0 <= kk < ma.intersections.s_get(k).roads@.len() && (
                            #[trigger] ma.intersections.s_get(k).roads@[kk]) == e;
                        assert(ma.roads.valid(e.0 as int));
                        assert(e.0 as int != rii) by {
                            assert(ma.road_ok(e.0 as int));
                            if e.0 as int == rii {
                                assert(e == RoadID(rii as usize));
                                assert(ma.roads.s_get(rii).id == RoadID(rii as usize));
                                assert(road_id.0 as int == rii);
                                assert(e == road_id);
                            }
                        }
                        assert(m.roads.valid(e.0 as int));
                        assert(m.roads.s_get(e.0 as int) == ma.roads.s_get(e.0 as int));
                    };
                } else {
                    assert(m.intersections.s_get(k) == ma.intersections.s_get(k));
                    assert forall|jj: int| 0 <= jj < m.intersections.s_get(k).turns@.len() implies
                        {
                            let t = #[trigger] m.intersections.s_get(k).turns@[jj];
                            &&& m.lanes.valid(t.src.0 as int)
                            &&& m.lanes.valid(t.dst.0 as int)
                            &&& t.points.in_bounds()
                            &&& t.points@.len() >= 2
                            &&& m.lane_end_inter(t.src) == m.intersections.s_get(k).id
                            &&& m.lane_start_inter(t.dst) == m.intersections.s_get(k).id
                        } by {
                        let t = m.intersections.s_get(k).turns@[jj];
                        assert(ma.lanes.valid(t.src.0 as int));
                        assert(ma.lanes.valid(t.dst.0 as int));
                        assert(ma.lane_ok(t.src.0 as int));
                        assert(ma.lane_ok(t.dst.0 as int));
                        assert(ma.lane_end_inter(t.src) == ma.intersections.s_get(k).id);
                        assert(ma.lane_start_inter(t.dst) == ma.intersections.s_get(k).id);
                        assert(ma.intersections.s_get(k).id == IntersectionID(k as usize));
                        assert(m.lanes.valid(t.src.0 as int)) by {
                            if lanes_copy@.contains(t.src) {
                                let kk = choose|kk: int|
                                    0 <= kk < lanes_copy@.len() && (#[trigger] lanes_copy@[kk])
                                        == t.src;
                                assert(ma.lanes.s_get(t.src.0 as int).parent == RoadID(
                                    road_id.0,
                                ));
                                assert(ma.lane_end_inter(t.src) == ma.roads.s_get(
                                    road_id.0 as int,
                                ).dst || ma.lane_end_inter(t.src) == ma.roads.s_get(
                                    road_id.0 as int,
                                ).src);
                                assert(ma.inter_ok(src.0 as int));
                                assert(ma.inter_ok(dst.0 as int));
                                assert(IntersectionID(k as usize) == src || IntersectionID(
                                    k as usize,
                                ) == dst);
                                assert(k < ma.intersections.slots@.len() as int);
                                assert(ma.intersections.slots@.len()
                                    == vstd::std_specs::vec::spec_vec_len(
                                    &ma.intersections.slots,
                                )) by {
                                    vstd::std_specs::vec::axiom_spec_len(
                                        &ma.intersections.slots,
                                    );
                                }
                                assert((k as usize) as int == k);
                                assert(k == src.0 as int || k == dst.0 as int);
                                assert(false);
                            }
                        }
                        assert(m.lanes.valid(t.dst.0 as int)) by {
                            if lanes_copy@.contains(t.dst) {
                                let kk = choose|kk: int|
                                    0 <= kk < lanes_copy@.len() && (#[trigger] lanes_copy@[kk])
                                        == t.dst;
                                assert(ma.lanes.s_get(t.dst.0 as int).parent == RoadID(
                                    road_id.0,
                                ));
                                assert(ma.lane_start_inter(t.dst) == ma.roads.s_get(
                                    road_id.0 as int,
                                ).dst || ma.lane_start_inter(t.dst) == ma.roads.s_get(
                                    road_id.0 as int,
                                ).src);
                                assert(ma.inter_ok(src.0 as int));
                                assert(ma.inter_ok(dst.0 as int));
                                assert(IntersectionID(k as usize) == src || IntersectionID(
                                    k as usize,
                                ) == dst);
                                assert(k < ma.intersections.slots@.len() as int);
                                assert(ma.intersections.slots@.len()
                                    == vstd::std_specs::vec::spec_vec_len(
                                    &ma.intersections.slots,
                                )) by {
                                    vstd::std_specs::vec::axiom_spec_len(
                                        &ma.intersections.slots,
                                    );
                                }
                                assert((k as usize) as int == k);
                                assert(k == src.0 as int || k == dst.0 as int);
                                assert(false);
                            }
                        }
                        assert(m.lanes.s_get(t.src.0 as int) == ma.lanes.s_get(t.src.0 as int));
                        assert(m.lanes.s_get(t.dst.0 as int) == ma.lanes.s_get(t.dst.0 as int));
                        assert(m.roads.s_get(ma.lanes.s_get(t.src.0 as int).parent.0 as int)
                            == ma.roads.s_get(ma.lanes.s_get(t.src.0 as int).parent.0 as int));
                        assert(m.roads.s_get(ma.lanes.s_get(t.dst.0 as int).parent.0 as int)
                            == ma.roads.s_get(ma.lanes.s_get(t.dst.0 as int).parent.0 as int));
                    };
                }
            };
            assert forall|k: int| m.lots.valid(k) implies #[trigger] m.lot_ok(k) by {
                assert(ma.lot_ok(k));
                assert(m.lots.s_get(k) == ma.lots.s_get(k));
                let pr = ma.lots.s_get(k).parent;
                assert(old(self).lots.valid(k) && old(self).lots.s_get(k) == ma.lots.s_get(k));
                assert(pr != road_id);
                assert(pr.0 as int != rii) by {
                    if pr.0 as int == rii {
                        assert(ma.road_ok(rii));
                        assert(ma.roads.s_get(rii).id == RoadID(rii as usize));
                        assert(ma.roads.valid(pr.0 as int));
                        assert(ma.road_ok(pr.0 as int));
                        assert(ma.roads.s_get(pr.0 as int).id == RoadID(pr.0));
                        assert(RoadID(pr.0) == RoadID(rii as usize));
                        assert(pr == road_id);
                    }
                }
                assert(m.roads.valid(pr.0 as int));
                assert(m.roads.s_get(pr.0 as int) == ma.roads.s_get(pr.0 as int));
                let key = ProjectKind::Lot(ma.lots.s_get(k).id);
                assert(m.spatial_map.s_contains_key(key) <==> ma.spatial_map.s_contains_key(key));
                assert(crate::spatial_map::find_shape(m.spatial_map.entries@, key)
                    == crate::spatial_map::find_shape(ma.spatial_map.entries@, key));
            };
            assert forall|k: int| m.buildings.valid(k) implies #[trigger] m.building_ok(k) by {
                assert(ma.building_ok(k));
            };
            assert forall|k: int| m.parking.spots.valid(k) implies #[trigger] m.spot_ok(k) by {
                assert(ma.spot_ok(k));
                let p = ma.parking.spots.s_get(k).parent;
                assert(m.parking.spots.s_get(k) == ma.parking.spots.s_get(k));
                assert(!lanes_copy@.contains(p));
                assert(m.lanes.valid(p.0 as int)) by {
                    assert(ma.lanes.valid(p.0 as int));
                    assert(p == LaneID(p.0));
                    assert(!lanes_copy@.contains(LaneID((p.0 as int) as usize)));
                }
                assert(m.lanes.s_get(p.0 as int) == ma.lanes.s_get(p.0 as int));
            };
            assert forall|pk: ProjectKind| #[trigger] m.spatial_map.s_contains_key(pk) implies
                m.spatial_key_ok(pk) by {
                if pk != ProjectKind::Road(road_id) {
                    assert(ma.spatial_map.s_contains_key(pk));
                    assert(ma.spatial_key_ok(pk));
                    match pk {
                        ProjectKind::Road(rd) => {
                            assert(ma.road_ok(rd.0 as int));
                            if rd.0 as int == rii {
                                assert(ma.roads.s_get(rii).id == RoadID(rii as usize));
                                assert(rd == road_id);
                            }
                        },
                        _ => {},
                    }
                }
            };
        }
        self.invalidate(src);
        self.invalidate(dst);
        Some(out)
    }
}

/// Whether a side of a pattern contains a kind.
fn side_contains(v: &Vec<LaneKind>, kind: LaneKind) -> (r: bool)
    ensures
        r <==> v@.contains(kind),
{
    let n = v.len();
    let mut i: usize = 0;
    while i < n
        invariant
            0 <= i <= n,
            n == v@.len(),
            forall|j: int| 0 <= j < i ==> v@[j] != kind,
        decreases n - i,
    {
        if v[i] == kind {
            return true;
        }
        i = i + 1;
    }
    false
}

impl LanePattern {
    /// Runtime check of pattern well-formedness.
    pub fn check_wf(&self) -> (r: bool)
        ensures
            r <==> self.wf(),
    {
        if self.forward.len() > 8 {
            proof {
                assert(!self.wf());
            }
            return false;
        }
        if self.backward.len() > 8 - self.forward.len() {
            proof {
                assert(!self.wf());
            }
            return false;
        }
        let fd = side_contains(&self.forward, LaneKind::Driving);
        let fp = side_contains(&self.forward, LaneKind::Parking);
        let bd = side_contains(&self.backward, LaneKind::Driving);
        let bp = side_contains(&self.backward, LaneKind::Parking);
        fd && (!fp || fd) && (!bp || bd)
    }
}

impl CityMap {
    /// Removes an intersection and every road incident to it.
    pub fn remove_intersection(&mut self, src: IntersectionID)
        requires
            old(self).inv(),
        ensures
            final(self).inv(),
            final(self).dirty,
            !final(self).intersections.valid(src.0 as int),
            forall|k: int|
                k != src.0 as int ==> (final(self).intersections.valid(k) <==> old(
                self).intersections.valid(k)),
            forall|k: int|
                #[trigger] final(self).roads.valid(k) ==> old(self).roads.valid(k) && final(
                self).roads.s_get(k) == old(self).roads.s_get(k) && old(self).roads.s_get(k).src
                    != src && old(self).roads.s_get(k).dst != src,
    {
        self.dirty = true;
        proof {
            crate::map::lemma_inv_mod_dirty(*old(self), *self);
        }
        if !self.intersections.contains(src.0) {
            self.spatial_map.remove(ProjectKind::Inter(src));
            proof {
                let m = *self;
                assert forall|j: int| m.roads.valid(j) implies #[trigger] m.road_ok(j) by {
                    assert(old(self).road_ok(j));
                };
                assert forall|j: int| m.lanes.valid(j) implies #[trigger] m.lane_ok(j) by {
                    assert(old(self).lane_ok(j));
                };
                assert forall|j: int| m.intersections.valid(j) implies #[trigger] m.inter_ok(
                    j,
                ) by {
                    assert(old(self).inter_ok(j));
                };
                assert forall|j: int| m.lots.valid(j) implies #[trigger] m.lot_ok(j) by {
                    assert(old(self).lot_ok(j));
                    let lk = ProjectKind::Lot(old(self).lots.s_get(j).id);
                    assert(m.spatial_map.s_contains_key(lk) <==> old(
                        self,
                    ).spatial_map.s_contains_key(lk));
                    assert(crate::spatial_map::find_shape(m.spatial_map.entries@, lk)
                        == crate::spatial_map::find_shape(old(self).spatial_map.entries@, lk));
                };
                assert forall|j: int| m.buildings.valid(j) implies #[trigger] m.building_ok(
                    j,
                ) by {
                    assert(old(self).building_ok(j));
                };
                assert forall|j: int| m.parking.spots.valid(j) implies #[trigger] m.spot_ok(j) by {
                    assert(old(self).spot_ok(j));
                };
                assert forall|pk: ProjectKind| #[trigger] m.spatial_map.s_contains_key(pk) implies
                    m.spatial_key_ok(pk) by {
                    if pk != ProjectKind::Inter(src) {
                        assert(old(self).spatial_map.s_contains_key(pk));
                        assert(old(self).spatial_key_ok(pk));
                    }
                };
                assert forall|k: int| #[trigger] m.roads.valid(k) implies old(
                    self,
                ).roads.valid(k) && m.roads.s_get(k) == old(self).roads.s_get(k) && old(
                    self,
                ).roads.s_get(k).src != src && old(self).roads.s_get(k).dst != src by {
                    assert(old(self).road_ok(k));
                    if old(self).roads.s_get(k).src == src {
                        assert(old(self).intersections.valid(src.0 as int));
                    }
                    if old(self).roads.s_get(k).dst == src {
                        assert(old(self).intersections.valid(src.0 as int));
                    }
                };
            }
            return ;
        }
        proof {
            assert(self.inter_ok(src.0 as int));
        }
        let roads_copy = {
            let it = match self.intersections.get(src.0) {
                Some(it) => it,
                None => {
                    proof {
                        assert(false);
                    }
                    unreached()
                },
            };
            copy_vec(&it.roads)
        };
        let nr = roads_copy.len();
        let mut i: usize = 0;
        proof {
            assert(roads_copy@.skip(0) =~= roads_copy@);
            assert forall|k: int|
                #[trigger] self.roads.valid(k) && (self.roads.s_get(k).src == src
                    || self.roads.s_get(k).dst == src) implies roads_copy@.skip(0).contains(
                    RoadID(k as usize),
                ) by {
                assert(self.road_ok(k));
                assert(self.roads.s_get(k).id == RoadID(k as usize));
                if self.roads.s_get(k).src == src {
                    assert(self.intersections.s_get(src.0 as int).roads@.contains(RoadID(
                        k as usize,
                    )));
                } else {
                    assert(self.intersections.s_get(src.0 as int).roads@.contains(RoadID(
                        k as usize,
                    )));
                }
            };
        }
        while i < nr
            invariant
                0 <= i <= nr,
                self.inv(),
                old(self).inv(),
                self.dirty,
                nr == roads_copy@.len(),
                self.intersections.valid(src.0 as int),
                forall|k: int|
                    k != src.0 as int ==> (self.intersections.valid(k) <==> old(
                    self).intersections.valid(k)),
                forall|k: int|
                    #[trigger] self.roads.valid(k) ==> old(self).roads.valid(k)
                        && self.roads.s_get(k) == old(self).roads.s_get(k),
                forall|k: int|
                    #[trigger] self.roads.valid(k) && (self.roads.s_get(k).src == src
                        || self.roads.s_get(k).dst == src) ==> roads_copy@.skip(
                        i as int,
                    ).contains(RoadID(k as usize)),
            decreases nr - i,
        {
            let ghost pre = *self;
            let rid = roads_copy[i];
            self.remove_road(rid);
            proof {
                assert forall|k: int|
                    #[trigger] self.roads.valid(k) && (self.roads.s_get(k).src == src
                        || self.roads.s_get(k).dst == src) implies roads_copy@.skip(
                        i + 1,
                    ).contains(RoadID(k as usize)) by {
                    assert(pre.roads.valid(k));
                    assert(roads_copy@.skip(i as int).contains(RoadID(k as usize)));
                    let jj = choose|jj: int|
                        0 <= jj < roads_copy@.skip(i as int).len() && roads_copy@.skip(
                            i as int,
                        )[jj] == RoadID(k as usize);
                    if jj == 0 {
                        assert(roads_copy@[i as int] == RoadID(k as usize));
                        assert(k < pre.roads.slots@.len() as int);
                        assert(pre.roads.slots@.len() == vstd::std_specs::vec::spec_vec_len(
                            &pre.roads.slots,
                        )) by {
                            vstd::std_specs::vec::axiom_spec_len(&pre.roads.slots);
                        }
                        assert((k as usize) as int == k);
                        assert(rid.0 as int == k);
                        assert(!self.roads.valid(k));
                        assert(false);
                    } else {
                        assert(roads_copy@.skip(i + 1)[jj - 1] == RoadID(k as usize));
                    }
                };
            }
            i = i + 1;
        }
        proof {
            assert(roads_copy@.skip(nr as int) =~= Seq::<RoadID>::empty());
        }
        let ghost mb = *self;
        self.intersections.remove(src.0);
        self.spatial_map.remove(ProjectKind::Inter(src));
        proof {
            let m = *self;
            assert forall|j: int| m.roads.valid(j) implies #[trigger] m.road_ok(j) by {
                assert(mb.road_ok(j));
                assert(mb.roads.s_get(j).src != src && mb.roads.s_get(j).dst != src) by {
                    if mb.roads.s_get(j).src == src || mb.roads.s_get(j).dst == src {
                        assert(roads_copy@.skip(nr as int).contains(RoadID(j as usize)));
                    }
                }
                assert(m.intersections.s_get(mb.roads.s_get(j).src.0 as int)
                    == mb.intersections.s_get(mb.roads.s_get(j).src.0 as int)) by {
                    assert(mb.inter_ok(src.0 as int));
                    if mb.roads.s_get(j).src.0 as int == src.0 as int {
                        assert(mb.roads.s_get(j).src == IntersectionID(src.0));
                    }
                }
                assert(m.intersections.s_get(mb.roads.s_get(j).dst.0 as int)
                    == mb.intersections.s_get(mb.roads.s_get(j).dst.0 as int)) by {
                    if mb.roads.s_get(j).dst.0 as int == src.0 as int {
                        assert(mb.roads.s_get(j).dst == IntersectionID(src.0));
                    }
                }
            };
            assert forall|j: int| m.lanes.valid(j) implies #[trigger] m.lane_ok(j) by {
                assert(mb.lane_ok(j));
            };
            assert forall|j: int| m.intersections.valid(j) implies #[trigger] m.inter_ok(j) by {
                assert(mb.inter_ok(j));
            };
            assert forall|j: int| m.lots.valid(j) implies #[trigger] m.lot_ok(j) by {
                assert(mb.lot_ok(j));
                let lk = ProjectKind::Lot(mb.lots.s_get(j).id);
                assert(m.spatial_map.s_contains_key(lk) <==> mb.spatial_map.s_contains_key(lk));
                assert(crate::spatial_map::find_shape(m.spatial_map.entries@, lk)
                    == crate::spatial_map::find_shape(mb.spatial_map.entries@, lk));
            };
            assert forall|j: int| m.buildings.valid(j) implies #[trigger] m.building_ok(j) by {
                assert(mb.building_ok(j));
            };
            assert forall|j: int| m.parking.spots.valid(j) implies #[trigger] m.spot_ok(j) by {
                assert(mb.spot_ok(j));
            };
            assert forall|pk: ProjectKind| #[trigger] m.spatial_map.s_contains_key(pk) implies
                m.spatial_key_ok(pk) by {
                if pk != ProjectKind::Inter(src) {
                    assert(mb.spatial_map.s_contains_key(pk));
                    assert(mb.spatial_key_ok(pk));
                    match pk {
                        ProjectKind::Inter(x) => {
                            assert(mb.inter_ok(x.0 as int));
                            if x.0 as int == src.0 as int {
                                assert(x == IntersectionID(src.0));
                            }
                        },
                        _ => {},
                    }
                }
            };
        }
    }
}

impl CityMap {
    /// Splits a road at `pos`: the road is removed and exactly two new
    /// roads are built through a fresh intersection, with the lane pattern
    /// read back from the removed road's lanes (a road whose reconstructed
    /// pattern fails the well-formedness check — impossible for roads this
    /// library built — falls back to the plain two-way pattern). A curved
    /// road is divided at the sampled curve parameter nearest `pos`; both
    /// pieces keep the original endpoint derivatives exactly and share the
    /// derivative at the new intersection, so the split is
    /// derivative-continuous.
    pub fn split_road(&mut self, id: RoadID, pos: Vec2) -> (nid: IntersectionID)
        requires
            old(self).inv(),
            old(self).roads.valid(id.0 as int),
            pos.in_bounds(),
            old(self).roads.slots_seq().len() + 2 <= usize::MAX,
            old(self).lanes.slots_seq().len() + 16 <= usize::MAX,
            old(self).parking.spots.slots_seq().len() + 16 <= usize::MAX,
            old(self).lots.slots_seq().len() + 4 <= usize::MAX,
            old(self).spatial_map.entries@.len() + 7 <= usize::MAX,
            old(self).intersections.slots_seq().len() < usize::MAX,
        ensures
            final(self).inv(),
            final(self).dirty,
            final(self).intersections.valid(nid.0 as int),
            !old(self).intersections.valid(nid.0 as int),
            final(self).intersections.s_get(nid.0 as int).pos == pos,
            !final(self).roads.valid(id.0 as int),
            final(self).roads.slots_seq().len() == old(self).roads.slots_seq().len() + 2,
            forall|k: int|
                k != id.0 as int && old(self).roads.valid(k) ==> final(self).roads.valid(k)
                    && crate::map::road_same_mod_lots(
                    #[trigger] final(self).roads.s_get(k),
                    old(self).roads.s_get(k),
                ),
            forall|k: int|
                #[trigger] final(self).roads.valid(k) ==> old(self).roads.valid(k) || k
                    >= old(self).roads.slots_seq().len(),
            ({
                let r0 = old(self).roads.s_get(id.0 as int);
                match r0.segment {
                    RoadSegmentKind::Straight => exists|a: int, b: int|
                        {
                            &&& #[trigger] final(self).roads.valid(a)
                            &&& #[trigger] final(self).roads.valid(b)
                            &&& final(self).roads.s_get(a).src == r0.src
                            &&& final(self).roads.s_get(a).dst == nid
                            &&& final(self).roads.s_get(a).segment == RoadSegmentKind::Straight
                            &&& final(self).roads.s_get(b).src == nid
                            &&& final(self).roads.s_get(b).dst == r0.dst
                            &&& final(self).roads.s_get(b).segment == RoadSegmentKind::Straight
                        },
                    RoadSegmentKind::Curved(d0, d1) => {
                        let sp = Spline {
                            from: r0.src_point,
                            to: r0.dst_point,
                            from_derivative: d0,
                            to_derivative: d1,
                        };
                        let t = crate::spline::spec_project_t(sp, pos, 4);
                        let dm = crate::spline::spec_derivative_quarter(sp, t);
                        exists|a: int, b: int|
                            {
                                &&& #[trigger] final(self).roads.valid(a)
                                &&& #[trigger] final(self).roads.valid(b)
                                &&& final(self).roads.s_get(a).src == r0.src
                                &&& final(self).roads.s_get(a).dst == nid
                                &&& final(self).roads.s_get(a).segment == RoadSegmentKind::Curved(
                                    d0,
                                    dm,
                                )
                                &&& final(self).roads.s_get(b).src == nid
                                &&& final(self).roads.s_get(b).dst == r0.dst
                                &&& final(self).roads.s_get(b).segment == RoadSegmentKind::Curved(
                                    dm,
                                    d1,
                                )
                            }
                    },
                }
            }),
    {
        proof {
            assert(self.road_ok(id.0 as int));
        }
        // reconstruct the lane pattern from the live lanes
        let (src, dst, segment, a, b, pat) = {
            let rd = match self.roads.get(id.0) {
                Some(rd) => rd,
                None => {
                    proof {
                        assert(false);
                    }
                    unreached()
                },
            };
            let mut forward: Vec<LaneKind> = Vec::new();
            let mut backward: Vec<LaneKind> = Vec::new();
            let n = rd.lanes.len();
            let mut i: usize = 0;
            while i < n
                invariant
                    0 <= i <= n,
                    self.inv(),
                    self.roads.valid(id.0 as int),
                    rd == &self.roads.s_get(id.0 as int),
                    n == rd.lanes@.len(),
                decreases n - i,
            {
                proof {
                    assert(self.road_ok(id.0 as int));
                }
                let lid = rd.lanes[i];
                if let Some(l) = self.lanes.get(lid.0) {
                    match l.direction {
                        LaneDirection::Forward => forward.push(l.kind),
                        LaneDirection::Backward => backward.push(l.kind),
                    }
                }
                i = i + 1;
            }
            (
                rd.src,
                rd.dst,
                rd.segment,
                rd.src_point,
                rd.dst_point,
                LanePattern { forward, backward },
            )
        };
        let pat = if pat.check_wf() {
            pat
        } else {
            LanePattern::two_way(false)
        };
        let removed = self.remove_road(id);
        let nid = self.add_intersection(pos);
        proof {
            assert(self.intersections.valid(src.0 as int));
            assert(self.intersections.valid(dst.0 as int));
            assert(nid != src);
            assert(nid != dst);
        }
        match segment {
            RoadSegmentKind::Straight => {
                let r1 = self.connect(src, nid, &pat, RoadSegmentKind::Straight);
                let r2 = self.connect(nid, dst, &pat, RoadSegmentKind::Straight);
                proof {
                    assert(final(self).roads.valid(r1.0 as int) && final(self).roads.valid(
                        r2.0 as int,
                    ));
                    assert(id.0 as int != r1.0 as int && id.0 as int != r2.0 as int);
                    assert(!self.roads.valid(id.0 as int));
                }
                nid
            },
            RoadSegmentKind::Curved(d0, d1) => {
                let sp = Spline { from: a, to: b, from_derivative: d0, to_derivative: d1 };
                let t = sp.project_t(pos);
                let (s0, s1) = sp.split_at_quarter(t);
                let r1 = self.connect(
                    src,
                    nid,
                    &pat,
                    RoadSegmentKind::Curved(s0.from_derivative, s0.to_derivative),
                );
                let r2 = self.connect(
                    nid,
                    dst,
                    &pat,
                    RoadSegmentKind::Curved(s1.from_derivative, s1.to_derivative),
                );
                proof {
                    assert(final(self).roads.valid(r1.0 as int) && final(self).roads.valid(
                        r2.0 as int,
                    ));
                    assert(id.0 as int != r1.0 as int && id.0 as int != r2.0 as int);
                    assert(!self.roads.valid(id.0 as int));
                }
                nid
            },
        }
    }
}

impl CityMap {
    /// Reserves the free parking spot nearest `pos`: first-wins, exactly
    /// `None` when no free spot exists anywhere in the network.
    pub fn reserve_near(&mut self, pos: Vec2) -> (r: Option<crate::handles::ParkingSpotID>)
        requires
            old(self).inv(),
            pos.in_bounds(),
        ensures
            final(self).inv(),
            final(self).roads == old(self).roads,
            final(self).lanes == old(self).lanes,
            final(self).intersections == old(self).intersections,
            final(self).buildings == old(self).buildings,
            final(self).lots == old(self).lots,
            final(self).spatial_map == old(self).spatial_map,
            final(self).dirty == old(self).dirty,
            r is None ==> final(self).parking == old(self).parking && forall|j: int|
                old(self).parking.spots.valid(j) ==> (#[trigger] old(self).parking.spots.s_get(
                    j,
                )).state != crate::parking::SpotState::Free,
            r is Some ==> {
                let id = r.unwrap();
                &&& old(self).parking.s_valid(id)
                &&& old(self).parking.s_get(id).state == crate::parking::SpotState::Free
                &&& final(self).parking.s_valid(id)
                &&& final(self).parking.s_get(id) == (crate::parking::ParkingSpot {
                    state: crate::parking::SpotState::Reserved,
                    ..old(self).parking.s_get(id)
                })
                &&& final(self).parking.same_except(old(self).parking, id)
                &&& forall|j: int|
                    old(self).parking.spots.valid(j) && (#[trigger] old(
                    self).parking.spots.s_get(j)).state == crate::parking::SpotState::Free
                        ==> crate::geom::spec_dist2(pos, old(self).parking.s_get(id).pos)
                        <= crate::geom::spec_dist2(pos, old(self).parking.spots.s_get(j).pos)
            },
    {
        let ghost pre = *self;
        let r = self.parking.reserve_near(pos);
        proof {
            crate::map::lemma_inv_mod_spot_states(pre, *self);
        }
        r
    }
}

/// Relies on rand::random::<u32>: a machine-random draw. Nothing is
/// promised of the value; callers must hold for every outcome.
#[verifier::external_body]
fn random_u32() -> (r: u32) {
    rand::random::<u32>()
}

impl CityMap {
    /// Consumes every provisional lot, erecting a building on each: the
    /// lot leaves the arena, its parent road's lot list and the spatial
    /// index, and a building with a randomly drawn kind takes its footprint
    /// and position. Returns the new buildings' handles.
    #[verifier::rlimit(100)]
    pub fn build_buildings(&mut self) -> (r: Vec<BuildingID>)
        requires
            old(self).inv(),
            old(self).buildings.slots_seq().len() + old(self).lots.slots_seq().len()
                <= usize::MAX,
            old(self).spatial_map.entries@.len() + old(self).lots.slots_seq().len() <= usize::MAX,
        ensures
            final(self).inv(),
            final(self).dirty,
            forall|k: int| !final(self).lots.valid(k),
            forall|k: int|
                #[trigger] old(self).buildings.valid(k) ==> final(self).buildings.valid(k)
                    && final(self).buildings.s_get(k) == old(self).buildings.s_get(k),
            forall|j: int|
                0 <= j < r@.len() ==> final(self).buildings.valid((#[trigger] r@[j]).0 as int)
                    && !old(self).buildings.valid(r@[j].0 as int),
            // one building per consumed lot, on the lot's ground
            r@.len() == old(self).lots.s_len(),
            exists|srcs: Seq<int>|
                {
                    &&& #[trigger] srcs.len() == r@.len()
                    &&& forall|j: int|
                        0 <= j < r@.len() ==> old(self).lots.valid(#[trigger] srcs[j])
                            && final(self).buildings.s_get(r@[j].0 as int).door_pos == old(
                            self).lots.s_get(srcs[j]).pos && final(self).buildings.s_get(
                            r@[j].0 as int,
                        ).exterior == old(self).lots.s_get(srcs[j]).shape
                },
            forall|j: int|
                0 <= j < r@.len() ==> final(self).spatial_map.s_contains_key(
                    ProjectKind::Building(#[trigger] r@[j]),
                ),
    {
        self.dirty = true;
        proof {
            crate::map::lemma_inv_mod_dirty(*old(self), *self);
        }
        let mut out: Vec<BuildingID> = Vec::new();
        let ghost mut srcs: Seq<int> = Seq::empty();
        let cap = self.lots.capacity();
        let mut k: usize = 0;
        while k < cap
            invariant
                0 <= k <= cap,
                self.inv(),
                self.dirty,
                cap == self.lots.slots_seq().len(),
                cap == old(self).lots.slots_seq().len(),
                self.buildings.slots_seq().len() + (cap - k) <= usize::MAX,
                self.spatial_map.entries@.len() + (cap - k) <= usize::MAX,
                old(self).buildings.slots_seq().len() <= self.buildings.slots_seq().len(),
                forall|j: int| 0 <= j < k ==> !self.lots.valid(j),
                forall|j: int|
                    #[trigger] old(self).buildings.valid(j) ==> self.buildings.valid(j)
                        && self.buildings.s_get(j) == old(self).buildings.s_get(j),
                forall|j: int|
                    0 <= j < out@.len() ==> self.buildings.valid((#[trigger] out@[j]).0 as int)
                        && !old(self).buildings.valid(out@[j].0 as int),
                out@.len() == crate::arena::live_count(
                    old(self).lots.slots_seq().take(k as int),
                ),
                srcs.len() == out@.len(),
                forall|j: int|
                    0 <= j < out@.len() ==> old(self).lots.valid(#[trigger] srcs[j])
                        && self.buildings.s_get(out@[j].0 as int).door_pos == old(
                        self).lots.s_get(srcs[j]).pos && self.buildings.s_get(
                        out@[j].0 as int,
                    ).exterior == old(self).lots.s_get(srcs[j]).shape,
                forall|j: int|
                    0 <= j < out@.len() ==> self.spatial_map.s_contains_key(
                        ProjectKind::Building(#[trigger] out@[j]),
                    ),
                forall|j: int|
                    k <= j < cap ==> (#[trigger] self.lots.valid(j) <==> old(self).lots.valid(
                        j,
                    )),
                forall|j: int|
                    k <= j < cap && old(self).lots.valid(j) ==> #[trigger] self.lots.s_get(j)
                        == old(self).lots.s_get(j),
            decreases cap - k,
        {
            let ghost ent = *self;
            proof {
                assert(old(self).lots.slots_seq().take(k + 1).drop_last() =~= old(
                    self,
                ).lots.slots_seq().take(k as int));
                assert(old(self).lots.slots_seq().take(k + 1).last() == old(
                    self,
                ).lots.slots_seq()[k as int]);
            }
            let lot_data = match self.lots.get(k) {
                Some(l) => Some((l.id, l.pos, l.shape)),
                None => None,
            };
            if lot_data.is_none() {
                proof {
                    assert(!self.lots.valid(k as int));
                    assert(!old(self).lots.valid(k as int));
                    assert(old(self).lots.slots_seq()[k as int] is None);
                    assert(crate::arena::live_count(old(self).lots.slots_seq().take(k + 1))
                        == crate::arena::live_count(old(self).lots.slots_seq().take(k as int)));
                }
            }
            if let Some((lid, pos, shape)) = lot_data {
                proof {
                    assert(self.lot_ok(k as int));
                }
                self.remove_one_lot(lid);
                let draw = random_u32();
                let kind = if draw % 10 == 0 {
                    BuildingKind::Workplace
                } else if draw % 10 == 1 {
                    BuildingKind::Supermarket
                } else {
                    BuildingKind::House
                };
                let ghost pre = *self;
                let bid = BuildingID(self.buildings.capacity());
                self.buildings.insert(
                    Building { id: bid, kind, door_pos: pos, exterior: shape },
                );
                self.spatial_map.insert(ProjectKind::Building(bid), shape);
                let ghost ob = out@;
                out.push(bid);
                proof {
                    srcs = srcs.push(k as int);
                    let m = *self;
                    assert(bid.0 == pre.buildings.slots_seq().len());
                    assert(old(self).buildings.slots_seq().len()
                        <= pre.buildings.slots_seq().len());
                    assert(pre.buildings == ent.buildings);
                    assert forall|j: int| old(self).buildings.valid(j) implies m.buildings.valid(
                        j,
                    ) && (#[trigger] m.buildings.s_get(j)) == old(self).buildings.s_get(j) by {
                        assert(j < old(self).buildings.slots_seq().len());
                        assert(j != bid.0 as int);
                        assert(ent.buildings.valid(j) && ent.buildings.s_get(j) == old(
                            self,
                        ).buildings.s_get(j));
                        assert(pre.buildings.valid(j) && pre.buildings.s_get(j) == old(
                            self,
                        ).buildings.s_get(j));
                    };
                    assert forall|j: int| m.roads.valid(j) implies #[trigger] m.road_ok(j) by {
                        assert(pre.road_ok(j));
                    };
                    assert forall|j: int| m.lanes.valid(j) implies #[trigger] m.lane_ok(j) by {
                        assert(pre.lane_ok(j));
                    };
                    assert forall|j: int| m.intersections.valid(j) implies #[trigger] m.inter_ok(
                        j,
                    ) by {
                        assert(pre.inter_ok(j));
                    };
                    assert forall|j: int| m.lots.valid(j) implies #[trigger] m.lot_ok(j) by {
                        assert(pre.lot_ok(j));
                        let e = ProjectKind::Lot(pre.lots.s_get(j).id);
                        assert(m.spatial_map.s_contains_key(e) <==> pre.spatial_map.s_contains_key(
                            e,
                        ));
                        assert(crate::spatial_map::find_shape(m.spatial_map.entries@, e)
                            == crate::spatial_map::find_shape(pre.spatial_map.entries@, e));
                    };
                    assert forall|j: int| m.buildings.valid(j) implies #[trigger] m.building_ok(
                        j,
                    ) by {
                        if j != bid.0 as int {
                            assert(pre.building_ok(j));
                        }
                    };
                    assert forall|j: int| m.parking.spots.valid(j) implies #[trigger] m.spot_ok(
                        j,
                    ) by {
                        assert(pre.spot_ok(j));
                    };
                    assert forall|pk: ProjectKind| #[trigger] m.spatial_map.s_contains_key(
                        pk,
                    ) implies m.spatial_key_ok(pk) by {
                        if pk != ProjectKind::Building(bid) {
                            assert(pre.spatial_map.s_contains_key(pk));
                            assert(pre.spatial_key_ok(pk));
                        }
                    };
                    assert forall|j: int| 0 <= j < out@.len() implies m.buildings.valid(
                        (#[trigger] out@[j]).0 as int,
                    ) && !old(self).buildings.valid(out@[j].0 as int) by {
                        if j < ob.len() {
                            assert(out@[j] == ob[j]);
                        }
                    };
                    assert(ent.lots.valid(k as int) <==> old(self).lots.valid(k as int));
                    assert(old(self).lots.valid(k as int));
                    assert(ent.lots.s_get(k as int) == old(self).lots.s_get(k as int));
                    assert(old(self).lots.s_get(k as int).pos == pos);
                    assert(old(self).lots.s_get(k as int).shape == shape);
                    assert(ent.lot_ok(k as int));
                    assert(lid == LotID(k));
                    assert(old(self).lots.slots_seq()[k as int] is Some);
                    assert(crate::arena::live_count(old(self).lots.slots_seq().take(k + 1))
                        == crate::arena::live_count(old(self).lots.slots_seq().take(k as int))
                        + 1);
                    assert forall|j: int|
                        k + 1 <= j < cap implies (#[trigger] m.lots.valid(j) <==> old(
                        self).lots.valid(j)) && (old(self).lots.valid(j) ==> m.lots.s_get(j)
                            == old(self).lots.s_get(j)) by {
                        assert(ent.lots.valid(j) <==> old(self).lots.valid(j));
                        assert(j != lid.0 as int);
                        if old(self).lots.valid(j) {
                            assert(ent.lots.s_get(j) == old(self).lots.s_get(j));
                        }
                    };
                    assert forall|j: int| 0 <= j < out@.len() implies old(self).lots.valid(
                        #[trigger] srcs[j],
                    ) && m.buildings.s_get(out@[j].0 as int).door_pos == old(self).lots.s_get(
                        srcs[j],
                    ).pos && m.buildings.s_get(out@[j].0 as int).exterior == old(
                    self).lots.s_get(srcs[j]).shape by {
                        if j < ob.len() {
                            assert(out@[j] == ob[j]);
                            assert(ent.buildings.valid(ob[j].0 as int));
                            assert(ob[j].0 as int != bid.0 as int) by {
                                assert(bid.0 == pre.buildings.slots_seq().len());
                                assert(pre.buildings == ent.buildings);
                            }
                            assert(m.buildings.s_get(ob[j].0 as int) == ent.buildings.s_get(
                                ob[j].0 as int,
                            ));
                        } else {
                            assert(out@[j] == bid && srcs[j] == k as int);
                            assert(m.buildings.s_get(bid.0 as int).door_pos == pos);
                        }
                    };
                    assert forall|j: int| 0 <= j < out@.len() implies m.spatial_map.s_contains_key(
                        ProjectKind::Building(#[trigger] out@[j]),
                    ) by {
                        if j < ob.len() {
                            assert(out@[j] == ob[j]);
                            assert(ProjectKind::Building(ob[j]) != ProjectKind::Lot(lid));
                            assert(ob[j].0 as int != bid.0 as int);
                            assert(ProjectKind::Building(ob[j]) != ProjectKind::Building(bid));
                            assert(ent.spatial_map.s_contains_key(ProjectKind::Building(ob[j])));
                        }
                    };
                }
            }
            k = k + 1;
        }
        proof {
            assert(old(self).lots.slots_seq().take(cap as int) =~= old(self).lots.slots_seq());
            assert(srcs.len() == out@.len());
        }
        out
    }
}

impl CityMap {
    /// A building of the requested kind picked at random, or `None`
    /// exactly when none of that kind exists.
    pub fn random_building(&self, filter: BuildingKind) -> (r: Option<BuildingID>)
        requires
            self.inv(),
        ensures
            r is Some ==> self.buildings.valid(r.unwrap().0 as int) && self.buildings.s_get(
                r.unwrap().0 as int,
            ).kind == filter,
            r is None ==> forall|k: int|
                self.buildings.valid(k) ==> (#[trigger] self.buildings.s_get(k)).kind != filter,
    {
        let cap = self.buildings.capacity();
        let mut matching: Vec<BuildingID> = Vec::new();
        let mut k: usize = 0;
        while k < cap
            invariant
                0 <= k <= cap,
                self.inv(),
                cap == self.buildings.slots_seq().len(),
                forall|j: int|
                    0 <= j < matching@.len() ==> self.buildings.valid(
                        (#[trigger] matching@[j]).0 as int,
                    ) && self.buildings.s_get(matching@[j].0 as int).kind == filter,
                matching@.len() == 0 ==> forall|j: int|
                    0 <= j < k && self.buildings.valid(j) ==> (#[trigger] self.buildings.s_get(
                        j,
                    )).kind != filter,
            decreases cap - k,
        {
            if let Some(b) = self.buildings.get(k) {
                if b.kind == filter {
                    matching.push(BuildingID(k));
                }
            }
            k = k + 1;
        }
        let n = matching.len();
        if n == 0 {
            return None;
        }
        let pick = (random_u32() as usize) % n;
        Some(matching[pick])
    }
}

} // verus!

//! The per-agent action state machine.
//!
//! A router turns a destination into an ordered stack of primitive steps —
//! walk, drive, park, unpark, board or leave a vehicle, enter or leave a
//! building — and hands out one world action per tick. Each step has a
//! readiness predicate; a step that is not ready yields a no-op for the
//! tick, so the simulation never blocks. Replanning releases a reserved but
//! unused parking spot; asking again for the destination already being
//! pursued never replans (and so never reserves a second spot).

use vstd::prelude::*;
use crate::geom::{Vec2, spec_dist2, spec_muldiv};
use crate::handles::{BuildingID, LaneID, ParkingSpotID, PedestrianID, SoulID, VehicleID};
use crate::itinerary::Itinerary;
use crate::map::{CityMap, LaneKind};
use crate::parking::{ParkingSpots, SpotState};
use crate::pathfinder::PathKind;
use crate::polyline::spec_project_segment;

verus! {

/// How far an agent may stand from a vehicle or a door and still board or
/// enter.
pub const INTERACT_DIST: i64 = 3;

/// How far short of a parking spot the drive target is placed, so the
/// vehicle does not overshoot into the spot.
pub const PARKING_CLEARANCE: i64 = 4;

#[derive(Copy, Clone, Debug, PartialEq, Eq, Structural)]
pub enum Location {
    Outside,
    Vehicle(VehicleID),
    Building(BuildingID),
}

#[derive(Copy, Clone, Debug, PartialEq, Eq, Structural)]
pub enum Destination {
    Outside(Vec2),
    Building(BuildingID),
}

#[derive(Copy, Clone, Debug, PartialEq, Eq, Structural)]
pub enum RoutingStep {
    WalkTo(Vec2),
    DriveTo(VehicleID, Vec2),
    Park(VehicleID, ParkingSpotID),
    Unpark(VehicleID),
    GetInVehicle(VehicleID),
    GetOutVehicle(VehicleID),
    GetInBuilding(BuildingID),
    GetOutBuilding(BuildingID),
}

/// A minimal transaction handed to the economy collaborator verbatim.
#[derive(Copy, Clone, Debug, PartialEq, Eq, Structural)]
pub struct Transaction {
    pub cost: i64,
    pub amount: i64,
}

/// Whom a navigation action steers.
#[derive(Copy, Clone, Debug, PartialEq, Eq, Structural)]
pub enum NavTarget {
    Body(PedestrianID),
    Car(VehicleID),
}

/// One world-mutating transition, applied outside the network model.
pub enum Action {
    DoNothing,
    GetOutBuilding(PedestrianID, BuildingID),
    GetInBuilding(PedestrianID, BuildingID),
    GetOutVehicle(PedestrianID, VehicleID),
    GetInVehicle(PedestrianID, VehicleID),
    Navigate(NavTarget, Itinerary),
    Park(VehicleID, ParkingSpotID),
    UnPark(VehicleID),
    Buy { buyer: SoulID, seller: SoulID, trans: Transaction },
}

/// The facts about the world the router needs for one tick: where the
/// agent stands, where its vehicle is, and what that vehicle is doing.
#[derive(Copy, Clone, Debug, PartialEq, Eq, Structural)]
pub struct RouterCtx {
    pub loc: Location,
    pub body_pos: Vec2,
    pub car_pos: Option<Vec2>,
    pub vehicle_itinerary_ended: bool,
    pub vehicle_parked: bool,
}

impl RouterCtx {
    pub open spec fn wf(self) -> bool {
        &&& self.body_pos.in_bounds()
        &&& match self.car_pos {
            Some(p) => p.in_bounds(),
            None => true,
        }
    }
}

/// What each step's readiness predicate decides from the world facts.
pub open spec fn spec_ready(step: RoutingStep, map: CityMap, ctx: RouterCtx) -> bool {
    match step {
        RoutingStep::WalkTo(_) => true,
        RoutingStep::DriveTo(_, _) => true,
        RoutingStep::Park(_, _) => ctx.vehicle_itinerary_ended,
        RoutingStep::Unpark(_) => true,
        RoutingStep::GetInVehicle(_) => match ctx.car_pos {
            Some(p) => spec_dist2(p, ctx.body_pos) <= INTERACT_DIST * INTERACT_DIST,
            None => false,
        },
        RoutingStep::GetOutVehicle(_) => ctx.vehicle_parked,
        RoutingStep::GetInBuilding(b) => map.buildings.valid(b.0 as int) && spec_dist2(
            map.buildings.s_get(b.0 as int).door_pos,
            ctx.body_pos,
        ) <= INTERACT_DIST * INTERACT_DIST,
        RoutingStep::GetOutBuilding(_) => true,
    }
}

/// What translating a step yields: an exact action for the plain steps, a
/// navigation of the right mover when a route could be planned and a no-op
/// exactly when planning failed, and a dropped park step (`None`) exactly
/// when its spot vanished.
pub open spec fn spec_translated(
    step: RoutingStep,
    body: PedestrianID,
    map: CityMap,
    ctx: RouterCtx,
    r: Option<Action>,
) -> bool {
    match step {
        RoutingStep::Park(v, spot) => if map.parking.s_valid(spot) {
            r matches Some(a) && (a matches Action::Park(v2, s2) && v2 == v && s2 == spot)
        } else {
            r is None
        },
        RoutingStep::Unpark(v) => r matches Some(a) && (a matches Action::UnPark(v2) && v2 == v),
        RoutingStep::GetInVehicle(v) => r matches Some(a) && (a matches Action::GetInVehicle(
            b2,
            v2,
        ) && b2 == body && v2 == v),
        RoutingStep::GetOutVehicle(v) => r matches Some(a) && (a matches Action::GetOutVehicle(
            b2,
            v2,
        ) && b2 == body && v2 == v),
        RoutingStep::GetInBuilding(b) => r matches Some(a) && (a matches Action::GetInBuilding(
            b2,
            bl2,
        ) && b2 == body && bl2 == b),
        RoutingStep::GetOutBuilding(b) => r matches Some(a) && (a matches Action::GetOutBuilding(
            b2,
            bl2,
        ) && b2 == body && bl2 == b),
        RoutingStep::WalkTo(p) => r matches Some(a) && if !p.in_bounds()
            || crate::pathfinder::spec_route_fails(map, ctx.body_pos, p, PathKind::Pedestrian) {
            a is DoNothing
        } else {
            a matches Action::Navigate(t, it) && t == NavTarget::Body(body) && it@.wf()
        },
        RoutingStep::DriveTo(v, p) => r matches Some(a) && match ctx.car_pos {
            None => a is DoNothing,
            Some(cp) => if !p.in_bounds() || crate::pathfinder::spec_route_fails(
                map,
                cp,
                p,
                PathKind::Vehicle,
            ) {
                a is DoNothing
            } else {
                a matches Action::Navigate(t, it) && t == NavTarget::Car(v) && it@.wf()
            },
        },
    }
}

impl RoutingStep {
    /// Whether this step can fire this tick: parking waits for the
    /// vehicle's own itinerary to end, boarding requires standing next to
    /// the vehicle, entering requires standing at the door, and the rest
    /// are always ready.
    pub fn ready(&self, map: &CityMap, ctx: &RouterCtx) -> (r: bool)
        requires
            map.inv(),
            ctx.wf(),
        ensures
            r <==> spec_ready(*self, *map, *ctx),
    {
        match self {
            RoutingStep::WalkTo(_) => true,
            RoutingStep::DriveTo(_, _) => true,
            RoutingStep::Park(_, _) => ctx.vehicle_itinerary_ended,
            RoutingStep::Unpark(_) => true,
            RoutingStep::GetInVehicle(_) => {
                match ctx.car_pos {
                    Some(p) => p.is_close(ctx.body_pos, INTERACT_DIST),
                    None => false,
                }
            },
            RoutingStep::GetOutVehicle(_) => ctx.vehicle_parked,
            RoutingStep::GetInBuilding(b) => {
                match map.buildings.get(b.0) {
                    Some(bd) => {
                        proof {
                            assert(map.building_ok(b.0 as int));
                        }
                        bd.door_pos.is_close(ctx.body_pos, INTERACT_DIST)
                    },
                    None => false,
                }
            },
            RoutingStep::GetOutBuilding(_) => true,
        }
    }

    /// Translates a popped step into a world action. Navigation steps plan
    /// a route from the mover's current position; a park step whose spot
    /// vanished is dropped (`None`), never fatal.
    pub fn action(self, body: PedestrianID, map: &CityMap, ctx: &RouterCtx) -> (r: Option<Action>)
        requires
            map.inv(),
            ctx.wf(),
        ensures
            spec_translated(self, body, *map, *ctx, r),
    {
        match self {
            RoutingStep::WalkTo(obj) => {
                if !obj.is_in_bounds() {
                    return Some(Action::DoNothing);
                }
                match Itinerary::route(ctx.body_pos, obj, map, PathKind::Pedestrian) {
                    Some(itin) => Some(Action::Navigate(NavTarget::Body(body), itin)),
                    None => Some(Action::DoNothing),
                }
            },
            RoutingStep::DriveTo(vehicle, obj) => {
                if !obj.is_in_bounds() {
                    return Some(Action::DoNothing);
                }
                match ctx.car_pos {
                    Some(vp) => {
                        match Itinerary::route(vp, obj, map, PathKind::Vehicle) {
                            Some(itin) => Some(Action::Navigate(NavTarget::Car(vehicle), itin)),
                            None => Some(Action::DoNothing),
                        }
                    },
                    None => Some(Action::DoNothing),
                }
            },
            RoutingStep::Park(vehicle, spot) => {
                if map.parking.contains(spot) {
                    Some(Action::Park(vehicle, spot))
                } else {
                    None
                }
            },
            RoutingStep::Unpark(vehicle) => Some(Action::UnPark(vehicle)),
            RoutingStep::GetInVehicle(vehicle) => Some(Action::GetInVehicle(body, vehicle)),
            RoutingStep::GetOutVehicle(vehicle) => Some(Action::GetOutVehicle(body, vehicle)),
            RoutingStep::GetInBuilding(build) => Some(Action::GetInBuilding(body, build)),
            RoutingStep::GetOutBuilding(build) => Some(Action::GetOutBuilding(body, build)),
        }
    }
}

impl Vec2 {
    /// Runtime bounds check for positions handed in from outside.
    pub fn is_in_bounds(&self) -> (r: bool)
        ensures
            r <==> self.in_bounds(),
    {
        -crate::geom::MAX_COORD <= self.x && self.x <= crate::geom::MAX_COORD
            && -crate::geom::MAX_COORD <= self.y && self.y <= crate::geom::MAX_COORD
    }
}

/// Whether some step of `steps` is a park on `spot`.
pub open spec fn spec_has_park_on(steps: Seq<RoutingStep>, spot: ParkingSpotID) -> bool {
    exists|j: int|
        0 <= j < steps.len() && (#[trigger] steps[j] matches RoutingStep::Park(_, s) && s == spot)
}

/// The drive target for a reserved spot: the spot's projection onto its
/// exit lane, backed off along the lane direction by the parking
/// clearance (kept in place on a degenerate segment).
pub open spec fn spec_parking_approach(m: CityMap, spot_pos: Vec2, l: LaneID) -> Vec2 {
    let pts = m.lanes.s_get(l.0 as int).points@;
    let pr = spec_project_segment(pts, spot_pos).unwrap();
    if pr.0 == 0 {
        pr.1
    } else {
        let a = pts[pr.0 - 1];
        let b = pts[pr.0];
        let len = crate::geom::sqrt_floor(spec_dist2(a, b));
        if len == 0 {
            pr.1
        } else {
            Vec2 {
                x: crate::spline::spec_clamp(
                    pr.1.x - spec_muldiv(b.x - a.x, PARKING_CLEARANCE as int, len),
                ) as i64,
                y: crate::spline::spec_clamp(
                    pr.1.y - spec_muldiv(b.y - a.y, PARKING_CLEARANCE as int, len),
                ) as i64,
            }
        }
    }
}

/// Leave the current building first, if the agent is inside one.
pub open spec fn spec_walk_prefix(ctx: RouterCtx) -> Seq<RoutingStep> {
    match ctx.loc {
        Location::Building(c) => seq![RoutingStep::GetOutBuilding(c)],
        _ => Seq::empty(),
    }
}

/// Walk to the vehicle, board it and unpark — skipped when already driving.
pub open spec fn spec_board_steps(ctx: RouterCtx, car: VehicleID, cpos: Vec2) -> Seq<RoutingStep> {
    match ctx.loc {
        Location::Vehicle(_) => Seq::empty(),
        _ => seq![
            RoutingStep::WalkTo(cpos),
            RoutingStep::GetInVehicle(car),
            RoutingStep::Unpark(car),
        ],
    }
}

/// The walking-only plan toward `obj`.
pub open spec fn spec_walk_plan(ctx: RouterCtx, obj: Vec2) -> Seq<RoutingStep> {
    spec_walk_prefix(ctx) + seq![RoutingStep::WalkTo(obj)]
}

/// The full drive plan toward `obj` through the reserved spot `s` and its
/// exit lane `l`.
pub open spec fn spec_drive_plan(
    m: CityMap,
    ctx: RouterCtx,
    car: VehicleID,
    cpos: Vec2,
    obj: Vec2,
    s: ParkingSpotID,
    l: LaneID,
) -> Seq<RoutingStep> {
    spec_walk_prefix(ctx) + spec_board_steps(ctx, car, cpos) + seq![
        RoutingStep::DriveTo(car, spec_parking_approach(m, m.parking.s_get(s).pos, l)),
        RoutingStep::Park(car, s),
        RoutingStep::GetOutVehicle(car),
        RoutingStep::WalkTo(obj),
    ]
}

/// Tearing a plan down returns exactly the spots its park steps held to
/// the free pool; every other spot is untouched.
pub open spec fn spec_cleared(
    before: ParkingSpots,
    after: ParkingSpots,
    steps: Seq<RoutingStep>,
) -> bool {
    &&& forall|k: int| after.spots.valid(k) <==> before.spots.valid(k)
    &&& forall|k: int|
        before.spots.valid(k) && !spec_has_park_on(steps, ParkingSpotID(k as usize))
            ==> #[trigger] after.spots.s_get(k) == before.spots.s_get(k)
    &&& forall|k: int|
        before.spots.valid(k) && spec_has_park_on(steps, ParkingSpotID(k as usize)) ==> (
        #[trigger] after.spots.s_get(k)).state == SpotState::Free && after.spots.s_get(k).parent
            == before.spots.s_get(k).parent && after.spots.s_get(k).pos == before.spots.s_get(
            k,
        ).pos
}

/// `m` with its parking lot swapped out (what a reservation pass leaves).
pub open spec fn with_parking(m: CityMap, p: ParkingSpots) -> CityMap {
    CityMap { parking: p, ..m }
}

/// `steps` is the plan `steps_to` owes toward `obj` in the network `m0`,
/// leaving the parking state `m1p`: the exact walking plan (and no touched
/// spot) when there is no vehicle or nothing free, else the exact drive
/// plan through the nearest free spot, freshly reserved.
pub open spec fn spec_plan_for(
    m0: CityMap,
    m1p: ParkingSpots,
    car: Option<VehicleID>,
    ctx: RouterCtx,
    obj: Vec2,
    steps: Seq<RoutingStep>,
) -> bool {
    if car is None || ctx.car_pos is None || (forall|j: int|
        m0.parking.spots.valid(j) ==> (#[trigger] m0.parking.spots.s_get(j)).state
            != SpotState::Free) {
        &&& m1p == m0.parking
        &&& steps == spec_walk_plan(ctx, obj)
    } else {
        exists|s: ParkingSpotID, l: LaneID|
            {
                &&& m0.parking.s_valid(s)
                &&& m0.parking.s_get(s).state == SpotState::Free
                &&& m1p.s_get(s) == (crate::parking::ParkingSpot {
                    state: SpotState::Reserved,
                    ..m0.parking.s_get(s)
                })
                &&& m1p.same_except(m0.parking, s)
                &&& (forall|j: int|
                    m0.parking.spots.valid(j) && (#[trigger] m0.parking.spots.s_get(j)).state
                        == SpotState::Free ==> spec_dist2(obj, m0.parking.s_get(s).pos)
                        <= spec_dist2(obj, m0.parking.spots.s_get(j).pos))
                &&& #[trigger] crate::map::spec_is_park_exit_lane(m0, s, l)
                &&& steps == #[trigger] spec_drive_plan(
                    m0,
                    ctx,
                    car.unwrap(),
                    ctx.car_pos.unwrap(),
                    obj,
                    s,
                    l,
                )
            }
    }
}

/// What replanning toward `obj` leaves behind: some plan owed by
/// `spec_plan_for` (with `extra` appended in execution order), stored
/// reversed; if its first step is ready it has been popped and translated
/// into the returned action, else the tick is a no-op.
pub open spec fn spec_goto_outcome(
    mid: CityMap,
    fin_map: CityMap,
    fin_steps: Seq<RoutingStep>,
    body: PedestrianID,
    car: Option<VehicleID>,
    ctx: RouterCtx,
    obj: Vec2,
    extra: Seq<RoutingStep>,
    r: Action,
) -> bool {
    exists|plan: Seq<RoutingStep>|
        {
            &&& #[trigger] spec_plan_for(mid, fin_map.parking, car, ctx, obj, plan)
            &&& plan.len() >= 1
            &&& {
                let full = plan + extra;
                if spec_ready(full[0], fin_map, ctx) {
                    &&& fin_steps == full.reverse().drop_last()
                    &&& (spec_translated(full[0], body, fin_map, ctx, Some(r))
                        || (spec_translated(full[0], body, fin_map, ctx, None::<Action>) && r
                        is DoNothing))
                } else {
                    &&& fin_steps == full.reverse()
                    &&& r is DoNothing
                }
            }
        }
}

pub struct Router {
    pub body: PedestrianID,
    pub car: Option<VehicleID>,
    pub steps: Vec<RoutingStep>,
    pub dest: Option<Destination>,
}

impl Router {
    pub open spec fn wf(self) -> bool {
        forall|j: int|
            0 <= j < self.steps@.len() ==> match #[trigger] self.steps@[j] {
                RoutingStep::WalkTo(p) => p.in_bounds(),
                RoutingStep::DriveTo(_, p) => p.in_bounds(),
                _ => true,
            }
    }

    pub fn new(body: PedestrianID, car: Option<VehicleID>) -> (r: Router)
        ensures
            r.body == body,
            r.car == car,
            r.steps@.len() == 0,
            r.dest is None,
            r.wf(),
    {
        Router { body, car, steps: Vec::new(), dest: None }
    }

    /// The plan for `destination` is finished: it is the current
    /// destination and no step remains.
    pub fn arrived(&self, destination: Destination) -> (r: bool)
        ensures
            r <==> self.dest == Some(destination) && self.steps@.len() == 0,
    {
        match self.dest {
            Some(d) => d == destination && self.steps.len() == 0,
            None => false,
        }
    }

    /// Tears the current plan down, releasing any parking spot a pending
    /// park step still holds.
    pub fn clear_steps(&mut self, map: &mut CityMap)
        requires
            old(self).wf(),
            old(map).inv(),
        ensures
            final(self).wf(),
            final(map).inv(),
            final(self).steps@.len() == 0,
            final(self).body == old(self).body,
            final(self).car == old(self).car,
            final(self).dest == old(self).dest,
            final(map).roads == old(map).roads,
            final(map).lanes == old(map).lanes,
            final(map).intersections == old(map).intersections,
            final(map).buildings == old(map).buildings,
            final(map).lots == old(map).lots,
            final(map).spatial_map == old(map).spatial_map,
            final(map).dirty == old(map).dirty,
            spec_cleared(old(map).parking, final(map).parking, old(self).steps@),
    {
        let n = self.steps.len();
        let mut i: usize = 0;
        while i < n
            invariant
                0 <= i <= n,
                n == self.steps@.len(),
                self.steps@ == old(self).steps@,
                self.body == old(self).body,
                self.car == old(self).car,
                self.dest == old(self).dest,
                self.wf(),
                map.inv(),
                map.roads == old(map).roads,
                map.lanes == old(map).lanes,
                map.intersections == old(map).intersections,
                map.buildings == old(map).buildings,
                map.lots == old(map).lots,
                map.spatial_map == old(map).spatial_map,
                map.dirty == old(map).dirty,
                forall|k: int|
                    map.parking.spots.valid(k) <==> old(map).parking.spots.valid(k),
                forall|k: int|
                    old(map).parking.spots.valid(k) ==> (#[trigger] map.parking.spots.s_get(
                        k,
                    )).parent == old(map).parking.spots.s_get(k).parent
                        && map.parking.spots.s_get(k).pos == old(map).parking.spots.s_get(k).pos,
                forall|k: int|
                    old(map).parking.spots.valid(k) && !spec_has_park_on(
                        old(self).steps@.take(i as int),
                        ParkingSpotID(k as usize),
                    ) ==> #[trigger] map.parking.spots.s_get(k) == old(map).parking.spots.s_get(
                        k,
                    ),
                forall|k: int|
                    old(map).parking.spots.valid(k) && spec_has_park_on(
                        old(self).steps@.take(i as int),
                        ParkingSpotID(k as usize),
                    ) ==> (#[trigger] map.parking.spots.s_get(k)).state == SpotState::Free,
            decreases n - i,
        {
            let ghost pre = *map;
            let step = self.steps[i];
            if let RoutingStep::Park(_, spot) = step {
                map.parking.free(spot);
                proof {
                    crate::map::lemma_inv_mod_spot_states(pre, *map);
                }
            }
            proof {
                assert(old(self).steps@.take(i + 1) =~= old(self).steps@.take(i as int).push(
                    old(self).steps@[i as int],
                ));
                assert forall|k: int|
                    old(map).parking.spots.valid(k) && spec_has_park_on(
                        old(self).steps@.take(i + 1),
                        ParkingSpotID(k as usize),
                    ) implies (#[trigger] map.parking.spots.s_get(k)).state == SpotState::Free by {
                    let jj = choose|jj: int|
                        0 <= jj < old(self).steps@.take(i + 1).len() && (#[trigger] old(
                        self).steps@.take(i + 1)[jj] matches RoutingStep::Park(_, s) && s
                            == ParkingSpotID(k as usize));
                    assert(k < old(map).parking.spots.slots@.len() as int);
                    assert(old(map).parking.spots.slots@.len()
                        == vstd::std_specs::vec::spec_vec_len(&old(map).parking.spots.slots)) by {
                        vstd::std_specs::vec::axiom_spec_len(&old(map).parking.spots.slots);
                    }
                    assert((k as usize) as int == k);
                    if jj < i {
                        assert(spec_has_park_on(
                            old(self).steps@.take(i as int),
                            ParkingSpotID(k as usize),
                        )) by {
                            assert(old(self).steps@.take(i as int)[jj] == old(
                                self,
                            ).steps@.take(i + 1)[jj]);
                        }
                        assert(pre.parking.spots.s_get(k).state == SpotState::Free);
                        match old(self).steps@[i as int] {
                            RoutingStep::Park(_, sp2) => {
                                if k == sp2.0 as int {
                                } else {
                                    assert(map.parking.spots.s_get(k) == pre.parking.spots.s_get(
                                        k,
                                    ));
                                }
                            },
                            _ => {},
                        }
                    } else {
                        assert(old(self).steps@.take(i + 1)[i as int] == old(
                            self,
                        ).steps@[i as int]);
                        match old(self).steps@[i as int] {
                            RoutingStep::Park(_, sp2) => {
                                assert(sp2 == ParkingSpotID(k as usize));
                                assert(sp2.0 as int == k);
                                assert(pre.parking.spots.valid(k));
                            },
                            _ => {
                                assert(false);
                            },
                        }
                    }
                };
                assert forall|k: int|
                    old(map).parking.spots.valid(k) && !spec_has_park_on(
                        old(self).steps@.take(i + 1),
                        ParkingSpotID(k as usize),
                    ) implies #[trigger] map.parking.spots.s_get(k) == old(
                    map).parking.spots.s_get(k) by {
                    assert(!spec_has_park_on(
                        old(self).steps@.take(i as int),
                        ParkingSpotID(k as usize),
                    )) by {
                        if spec_has_park_on(
                            old(self).steps@.take(i as int),
                            ParkingSpotID(k as usize),
                        ) {
                            let jj = choose|jj: int|
                                0 <= jj < old(self).steps@.take(i as int).len() && (#[trigger] old(
                                self).steps@.take(i as int)[jj] matches RoutingStep::Park(_, s)
                                    && s == ParkingSpotID(k as usize));
                            assert(old(self).steps@.take(i + 1)[jj] == old(
                                self,
                            ).steps@.take(i as int)[jj]);
                        }
                    }
                    match old(self).steps@[i as int] {
                        RoutingStep::Park(_, sp2) => {
                            assert(old(self).steps@.take(i + 1)[i as int] == old(
                                self,
                            ).steps@[i as int]);
                            if sp2.0 as int == k {
                                assert(k < old(map).parking.spots.slots@.len() as int);
                                assert(old(map).parking.spots.slots@.len()
                                    == vstd::std_specs::vec::spec_vec_len(
                                    &old(map).parking.spots.slots,
                                )) by {
                                    vstd::std_specs::vec::axiom_spec_len(
                                        &old(map).parking.spots.slots,
                                    );
                                }
                                assert((k as usize) as int == k);
                                assert(sp2 == ParkingSpotID(k as usize));
                                assert(false);
                            }
                        },
                        _ => {},
                    }
                };
            }
            i = i + 1;
        }
        self.steps = Vec::new();
        proof {
            assert(old(self).steps@.take(n as int) =~= old(self).steps@);
        }
    }
}

impl Router {
    /// Peeks the next step: if its readiness predicate holds it is popped
    /// and translated into a world action, otherwise the tick is a no-op.
    /// An exhausted plan also yields a no-op. `None` reports a dropped step
    /// (its referenced entity vanished).
    pub fn action(&mut self, map: &CityMap, ctx: &RouterCtx) -> (r: Option<Action>)
        requires
            old(self).wf(),
            map.inv(),
            ctx.wf(),
        ensures
            final(self).wf(),
            final(self).body == old(self).body,
            final(self).car == old(self).car,
            final(self).dest == old(self).dest,
            old(self).steps@.len() == 0 ==> *final(self) == *old(self) && (r matches Some(a)
                && a is DoNothing),
            old(self).steps@.len() > 0 && !spec_ready(old(self).steps@.last(), *map, *ctx)
                ==> *final(self) == *old(self) && (r matches Some(a) && a is DoNothing),
            old(self).steps@.len() > 0 && spec_ready(old(self).steps@.last(), *map, *ctx)
                ==> final(self).steps@ == old(self).steps@.drop_last() && spec_translated(
                old(self).steps@.last(),
                old(self).body,
                *map,
                *ctx,
                r,
            ),
    {
        let n = self.steps.len();
        if n == 0 {
            return Some(Action::DoNothing);
        }
        let top = self.steps[n - 1];
        if top.ready(map, ctx) {
            let popped = match self.steps.pop() {
                Some(st) => st,
                None => {
                    proof {
                        assert(false);
                    }
                    unreached()
                },
            };
            popped.action(self.body, map, ctx)
        } else {
            Some(Action::DoNothing)
        }
    }

    /// The execution-ordered steps to reach the open position `obj`: leave
    /// the current building if inside one; then, when the agent owns a
    /// vehicle and a parking spot near the target can be reserved, walk to
    /// the vehicle, board it, unpark, drive to a point set just short of
    /// the reserved spot, park there and get out; finally walk to `obj`.
    /// When there is no vehicle or no free spot the plan is exactly the
    /// walking steps and no reservation is held.
    fn steps_to(&self, map: &mut CityMap, ctx: &RouterCtx, obj: Vec2) -> (r: Vec<RoutingStep>)
        requires
            old(map).inv(),
            ctx.wf(),
            obj.in_bounds(),
        ensures
            final(map).inv(),
            final(map).roads == old(map).roads,
            final(map).lanes == old(map).lanes,
            final(map).intersections == old(map).intersections,
            final(map).buildings == old(map).buildings,
            final(map).lots == old(map).lots,
            final(map).spatial_map == old(map).spatial_map,
            final(map).dirty == old(map).dirty,
            forall|k: int|
                final(map).parking.spots.valid(k) <==> old(map).parking.spots.valid(k),
            forall|k: int|
                old(map).parking.spots.valid(k) ==> #[trigger] final(map).parking.spots.s_get(k)
                    == old(map).parking.spots.s_get(k) || (old(map).parking.spots.s_get(k).state
                    == SpotState::Free && final(map).parking.spots.s_get(k) == (
                crate::parking::ParkingSpot {
                    state: SpotState::Reserved,
                    ..old(map).parking.spots.s_get(k)
                })),
            forall|j: int|
                0 <= j < r@.len() ==> match #[trigger] r@[j] {
                    RoutingStep::WalkTo(p) => p.in_bounds(),
                    RoutingStep::DriveTo(_, p) => p.in_bounds(),
                    _ => true,
                },
            r@.len() >= 1,
            r@.last() == RoutingStep::WalkTo(obj),
            // the plan and the parking delta, exactly
            spec_plan_for(*old(map), final(map).parking, self.car, *ctx, obj, r@),
    {
        let mut steps: Vec<RoutingStep> = Vec::new();
        if let Location::Building(cur) = ctx.loc {
            steps.push(RoutingStep::GetOutBuilding(cur));
        }
        proof {
            assert(steps@ =~= spec_walk_prefix(*ctx));
        }
        if let Some(car) = self.car {
            if let Some(cpos) = ctx.car_pos {
                let reserved = map.reserve_near(obj);
                if let Some(spot_id) = reserved {
                    let ghost m0 = *old(map);
                    let lane_id = match map.parking_to_drive(spot_id) {
                        Some(l) => l,
                        None => {
                            proof {
                                assert(false);
                            }
                            unreached()
                        },
                    };
                    proof {
                        // the exit lane and the spot's position read the
                        // same in the pre-reservation network
                        assert(map.parking.s_get(spot_id).parent == m0.parking.s_get(
                            spot_id,
                        ).parent);
                        assert(map.parking.s_get(spot_id).pos == m0.parking.s_get(spot_id).pos);
                        assert(crate::map::spec_is_park_exit_lane(m0, spot_id, lane_id)) by {
                            assert(crate::map::spec_is_park_exit_lane(*map, spot_id, lane_id));
                            let rk = map.lanes.s_get(
                                map.parking.s_get(spot_id).parent.0 as int,
                            ).parent.0 as int;
                            let j = choose|j: int|
                                {
                                    &&& 0 <= j < map.roads.s_get(rk).lanes@.len()
                                    &&& (#[trigger] map.roads.s_get(rk).lanes@[j]) == lane_id
                                    &&& forall|jj: int|
                                        0 <= jj < j ==> !(map.lanes.s_get(
                                            (#[trigger] map.roads.s_get(rk).lanes@[jj]).0 as int,
                                        ).kind == LaneKind::Driving && map.lanes.s_get(
                                            map.roads.s_get(rk).lanes@[jj].0 as int,
                                        ).direction == map.lanes.s_get(
                                            map.parking.s_get(spot_id).parent.0 as int,
                                        ).direction)
                                };
                            assert(m0.roads.s_get(rk).lanes@[j] == lane_id);
                        }
                    }
                    let spot_pos = match map.parking.get(spot_id) {
                        Some(sp) => sp.pos,
                        None => {
                            proof {
                                assert(false);
                            }
                            unreached()
                        },
                    };
                    proof {
                        assert(map.lane_ok(lane_id.0 as int));
                        assert(map.parking.wf());
                        assert(map.parking.spots.s_get(spot_id.0 as int).pos.in_bounds());
                    }
                    let lane_pts = match map.lanes.get(lane_id.0) {
                        Some(l) => &l.points,
                        None => {
                            proof {
                                assert(false);
                            }
                            unreached()
                        },
                    };
                    let (seg, proj) = match lane_pts.project_segment(spot_pos) {
                        Some(pr) => pr,
                        None => {
                            proof {
                                assert(false);
                            }
                            unreached()
                        },
                    };
                    // back the drive target off along the lane direction so
                    // the vehicle stops short of the spot itself
                    let parking_pos = if seg == 0 {
                        proj
                    } else {
                        let pts = lane_pts.as_slice();
                        proof {
                            assert(pts@[seg - 1].in_bounds());
                            assert(pts@[seg as int].in_bounds());
                        }
                        let a = pts[seg - 1];
                        let b = pts[seg];
                        let len2 = a.dist2(b);
                        proof {
                            crate::geom::lemma_dist2_bound(a, b);
                        }
                        let len = crate::geom::isqrt(len2);
                        if len == 0 {
                            proj
                        } else {
                            let offx = crate::map_edit::small_muldiv(
                                b.x - a.x,
                                PARKING_CLEARANCE,
                                len,
                            );
                            let offy = crate::map_edit::small_muldiv(
                                b.y - a.y,
                                PARKING_CLEARANCE,
                                len,
                            );
                            Vec2 {
                                x: crate::spline::clamp(proj.x - offx),
                                y: crate::spline::clamp(proj.y - offy),
                            }
                        }
                    };
                    proof {
                        assert(map.lanes == m0.lanes);
                        assert(parking_pos == spec_parking_approach(
                            m0,
                            m0.parking.s_get(spot_id).pos,
                            lane_id,
                        ));
                    }
                    if !matches!(ctx.loc, Location::Vehicle(_)) {
                        steps.push(RoutingStep::WalkTo(cpos));
                        steps.push(RoutingStep::GetInVehicle(car));
                        steps.push(RoutingStep::Unpark(car));
                    }
                    steps.push(RoutingStep::DriveTo(car, parking_pos));
                    steps.push(RoutingStep::Park(car, spot_id));
                    steps.push(RoutingStep::GetOutVehicle(car));
                    steps.push(RoutingStep::WalkTo(obj));
                    proof {
                        assert(steps@ =~= spec_drive_plan(
                            m0,
                            *ctx,
                            car,
                            cpos,
                            obj,
                            spot_id,
                            lane_id,
                        ));
                        assert forall|c: VehicleID, cp: Vec2|
                            self.car == Some(c) && ctx.car_pos == Some(cp) implies c == car && cp
                            == cpos by {};
                    }
                    return steps;
                }
            }
        }
        steps.push(RoutingStep::WalkTo(obj));
        proof {
            assert(steps@ =~= spec_walk_plan(*ctx, obj));
        }
        steps
    }

    /// Steers toward a destination. Asking again for the destination
    /// already being pursued only advances the existing plan — the network
    /// (including every parking reservation) is left untouched. A new
    /// destination (or a pending step whose target vanished) tears the old
    /// plan down, releasing any still-held spot, and builds the exact step
    /// stack for the new goal.
    pub fn go_to(&mut self, map: &mut CityMap, ctx: &RouterCtx, dest: Destination) -> (r: Action)
        requires
            old(self).wf(),
            old(map).inv(),
            ctx.wf(),
            match dest {
                Destination::Outside(p) => p.in_bounds(),
                _ => true,
            },
        ensures
            final(self).wf(),
            final(map).inv(),
            final(self).body == old(self).body,
            final(self).car == old(self).car,
            final(self).dest == Some(dest),
            // re-invocation with the destination already pursued: the
            // network untouched, at most the one ready step popped
            old(self).dest == Some(dest) && old(self).steps@.len() == 0 ==> *final(map) == *old(
                map,
            ) && *final(self) == *old(self) && r is DoNothing,
            old(self).dest == Some(dest) && old(self).steps@.len() > 0 && !spec_ready(
                old(self).steps@.last(),
                *old(map),
                *ctx,
            ) ==> *final(map) == *old(map) && *final(self) == *old(self) && r is DoNothing,
            old(self).dest == Some(dest) && old(self).steps@.len() > 0 && spec_ready(
                old(self).steps@.last(),
                *old(map),
                *ctx,
            ) && (match old(self).steps@.last() {
                RoutingStep::Park(_, sp) => old(map).parking.s_valid(sp),
                _ => true,
            }) ==> *final(map) == *old(map) && final(self).steps@ == old(self).steps@.drop_last()
                && spec_translated(old(self).steps@.last(), old(self).body, *old(map), *ctx, Some(r)),
            // replanning: the old plan's spots freed, then the exact new plan
            (old(self).dest != Some(dest) || (old(self).steps@.len() > 0 && spec_ready(
                old(self).steps@.last(),
                *old(map),
                *ctx,
            ) && (match old(self).steps@.last() {
                RoutingStep::Park(_, sp) => !old(map).parking.s_valid(sp),
                _ => false,
            }))) ==> exists|midp: ParkingSpots|
                {
                    &&& #[trigger] spec_cleared(old(map).parking, midp, old(self).steps@)
                    &&& match dest {
                        Destination::Outside(p) => spec_goto_outcome(
                            with_parking(*old(map), midp),
                            *final(map),
                            final(self).steps@,
                            old(self).body,
                            old(self).car,
                            *ctx,
                            p,
                            Seq::empty(),
                            r,
                        ),
                        Destination::Building(b) => if (match ctx.loc {
                            Location::Building(cur) => cur == b,
                            _ => false,
                        }) || !old(map).buildings.valid(b.0 as int) {
                            &&& final(self).steps@.len() == 0
                            &&& *final(map) == with_parking(*old(map), midp)
                            &&& r is DoNothing
                        } else {
                            spec_goto_outcome(
                                with_parking(*old(map), midp),
                                *final(map),
                                final(self).steps@,
                                old(self).body,
                                old(self).car,
                                *ctx,
                                old(map).buildings.s_get(b.0 as int).door_pos,
                                seq![RoutingStep::GetInBuilding(b)],
                                r,
                            )
                        },
                    }
                },
    {
        if let Some(d) = self.dest {
            if d == dest {
                match self.action(map, ctx) {
                    Some(a) => {
                        return a;
                    },
                    None => {
                        // the pending step lost its target: replan below
                    },
                }
            }
        }
        let ghost steps_at_clear = self.steps@;
        self.dest = Some(dest);
        self.clear_steps(map);
        let ghost mid = *map;
        proof {
            assert(*map == with_parking(*old(map), map.parking));
            assert(spec_cleared(old(map).parking, map.parking, steps_at_clear));
            // a popped step on this path was a park on a vanished spot, so
            // for every live spot the two step lists hold the same parks
            assert forall|k: int| old(map).parking.spots.valid(k) implies (spec_has_park_on(
                old(self).steps@,
                ParkingSpotID(k as usize),
            ) <==> spec_has_park_on(steps_at_clear, ParkingSpotID(k as usize))) by {
                assert(k < old(map).parking.spots.slots@.len() as int);
                assert(old(map).parking.spots.slots@.len() == vstd::std_specs::vec::spec_vec_len(
                    &old(map).parking.spots.slots,
                )) by {
                    vstd::std_specs::vec::axiom_spec_len(&old(map).parking.spots.slots);
                }
                assert((k as usize) as int == k);
                if steps_at_clear == old(self).steps@ {
                } else {
                    assert(steps_at_clear == old(self).steps@.drop_last());
                    assert(spec_translated(
                        old(self).steps@.last(),
                        old(self).body,
                        *old(map),
                        *ctx,
                        None::<Action>,
                    ));
                    if spec_has_park_on(old(self).steps@, ParkingSpotID(k as usize)) {
                        let j = choose|j: int|
                            0 <= j < old(self).steps@.len() && (#[trigger] old(
                            self).steps@[j] matches RoutingStep::Park(_, s) && s == ParkingSpotID(
                                k as usize,
                            ));
                        if j == old(self).steps@.len() - 1 {
                            match old(self).steps@.last() {
                                RoutingStep::Park(_, sp) => {
                                    assert(!old(map).parking.s_valid(sp));
                                    assert(sp == ParkingSpotID(k as usize));
                                    assert(false);
                                },
                                _ => {
                                    assert(false);
                                },
                            }
                        } else {
                            assert(steps_at_clear[j] == old(self).steps@[j]);
                        }
                    }
                    if spec_has_park_on(steps_at_clear, ParkingSpotID(k as usize)) {
                        let j = choose|j: int|
                            0 <= j < steps_at_clear.len() && (#[trigger] steps_at_clear[j] matches
                                RoutingStep::Park(_, s) && s == ParkingSpotID(k as usize));
                        assert(old(self).steps@[j] == steps_at_clear[j]);
                    }
                }
            };
            assert(spec_cleared(old(map).parking, map.parking, old(self).steps@));
        }
        let obj = match dest {
            Destination::Outside(p) => p,
            Destination::Building(b) => {
                if let Location::Building(cur) = ctx.loc {
                    if cur.0 == b.0 {
                        proof {
                            assert(cur == b);
                            assert(spec_cleared(old(map).parking, map.parking, old(self).steps@));
                            assert(*map == with_parking(*old(map), map.parking));
                        }
                        return Action::DoNothing;
                    }
                }
                match map.buildings.get(b.0) {
                    Some(bd) => {
                        proof {
                            assert(map.building_ok(b.0 as int));
                        }
                        bd.door_pos
                    },
                    None => {
                        // the building is gone: nothing sensible to plan
                        proof {
                            assert(spec_cleared(old(map).parking, map.parking, old(self).steps@));
                            assert(*map == with_parking(*old(map), map.parking));
                            assert(!old(map).buildings.valid(b.0 as int));
                        }
                        return Action::DoNothing;
                    },
                }
            },
        };
        let ghost extra: Seq<RoutingStep> = match dest {
            Destination::Building(b) => seq![RoutingStep::GetInBuilding(b)],
            _ => Seq::empty(),
        };
        let mut steps = self.steps_to(map, ctx, obj);
        let ghost plan = steps@;
        if let Destination::Building(b) = dest {
            steps.push(RoutingStep::GetInBuilding(b));
        }
        proof {
            assert(steps@ =~= plan + extra);
        }
        // reversed so the next step to execute pops off the end
        let n = steps.len();
        let mut rev: Vec<RoutingStep> = Vec::new();
        let mut i: usize = 0;
        while i < n
            invariant
                0 <= i <= n,
                n == steps@.len(),
                rev@.len() == i,
                forall|x: int| 0 <= x < i ==> rev@[x] == steps@[n - 1 - x],
                forall|j: int|
                    0 <= j < steps@.len() ==> match #[trigger] steps@[j] {
                        RoutingStep::WalkTo(p) => p.in_bounds(),
                        RoutingStep::DriveTo(_, p) => p.in_bounds(),
                        _ => true,
                    },
            decreases n - i,
        {
            rev.push(steps[n - 1 - i]);
            i = i + 1;
        }
        proof {
            assert(rev@ =~= steps@.reverse());
        }
        self.steps = rev;
        proof {
            assert(self.steps@.len() > 0);
            assert(self.steps@.last() == (plan + extra)[0]) by {
                assert(self.steps@.last() == steps@.reverse()[steps@.len() - 1]);
            }
        }
        let out = match self.action(map, ctx) {
            Some(a) => a,
            None => Action::DoNothing,
        };
        proof {
            let full = plan + extra;
            if spec_ready(full[0], *map, *ctx) {
                assert(self.steps@ == full.reverse().drop_last()) by {
                    assert(self.steps@ =~= full.reverse().drop_last());
                }
            }
            assert(spec_plan_for(mid, map.parking, old(self).car, *ctx, obj, plan));
            assert(spec_goto_outcome(
                mid,
                *map,
                self.steps@,
                old(self).body,
                old(self).car,
                *ctx,
                obj,
                extra,
                out,
            ));
        }
        out
    }
}

} // verus!

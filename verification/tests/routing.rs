use map_model::{
    Action, BuildingID, CityMap, Destination, LanePattern, Location, PedestrianID,
    RoadSegmentKind, Router, RouterCtx, RoutingStep, SpotState, Vec2, VehicleID,
};

fn v(x: i64, y: i64) -> Vec2 {
    Vec2 { x, y }
}

/// A network with one parking spot, and buildings on both sides.
fn world() -> (CityMap, Vec<BuildingID>) {
    let mut map = CityMap::empty();
    let a = map.add_intersection(v(0, 0));
    let b = map.add_intersection(v(2000, 0));
    map.connect(a, b, &LanePattern::one_way(true), RoadSegmentKind::Straight);
    let buildings = map.build_buildings();
    (map, buildings)
}

#[test]
fn drive_plan_has_the_expected_step_order() {
    let (mut map, buildings) = world();
    assert!(buildings.len() >= 2);
    let home = buildings[0];
    let work = buildings[1];
    let body = PedestrianID(1);
    let car = VehicleID(7);
    let ctx = RouterCtx {
        loc: Location::Building(home),
        body_pos: v(10, 10),
        car_pos: Some(v(30, 10)),
        vehicle_itinerary_ended: true,
        vehicle_parked: true,
    };
    let mut router = Router::new(body, Some(car));
    let first = router.go_to(&mut map, &ctx, Destination::Building(work));
    // the agent is inside a building, so the first action leaves it
    assert!(matches!(first, Action::GetOutBuilding(b2, h) if b2 == body && h == home));
    // the remaining plan, in execution order (the stack stores it reversed)
    let mut order: Vec<RoutingStep> = router.steps.clone();
    order.reverse();
    assert_eq!(order.len(), 8);
    assert!(matches!(order[0], RoutingStep::WalkTo(_)));
    assert!(matches!(order[1], RoutingStep::GetInVehicle(c) if c == car));
    assert!(matches!(order[2], RoutingStep::Unpark(c) if c == car));
    assert!(matches!(order[3], RoutingStep::DriveTo(c, _) if c == car));
    assert!(matches!(order[4], RoutingStep::Park(c, _) if c == car));
    assert!(matches!(order[5], RoutingStep::GetOutVehicle(c) if c == car));
    assert!(matches!(order[6], RoutingStep::WalkTo(_)));
    assert!(matches!(order[7], RoutingStep::GetInBuilding(w) if w == work));
    // the one spot is now reserved by the plan
    let reserved = (0..map.parking.spots.capacity())
        .filter(|k| {
            map.parking.spots.get(*k).map(|s| s.state == SpotState::Reserved).unwrap_or(false)
        })
        .count();
    assert_eq!(reserved, 1);
    // asking again for the same destination advances the plan without
    // replanning: the reservation stays, nothing is re-reserved
    let steps_before = router.steps.len();
    let again = router.go_to(&mut map, &ctx, Destination::Building(work));
    assert!(!matches!(again, Action::DoNothing));
    assert_eq!(router.steps.len(), steps_before - 1);
    let reserved_after = (0..map.parking.spots.capacity())
        .filter(|k| {
            map.parking.spots.get(*k).map(|s| s.state == SpotState::Reserved).unwrap_or(false)
        })
        .count();
    assert_eq!(reserved_after, 1);
}

#[test]
fn replanning_releases_the_reserved_spot() {
    let (mut map, buildings) = world();
    let home = buildings[0];
    let body = PedestrianID(1);
    let car = VehicleID(7);
    let ctx = RouterCtx {
        loc: Location::Building(home),
        body_pos: v(10, 10),
        car_pos: Some(v(30, 10)),
        vehicle_itinerary_ended: true,
        vehicle_parked: true,
    };
    let mut router = Router::new(body, Some(car));
    router.go_to(&mut map, &ctx, Destination::Outside(v(1500, 20)));
    let reserved = (0..map.parking.spots.capacity())
        .filter(|k| {
            map.parking.spots.get(*k).map(|s| s.state == SpotState::Reserved).unwrap_or(false)
        })
        .count();
    assert_eq!(reserved, 1);
    // a new destination tears the plan down and frees the spot (it is then
    // reserved again for the new plan, so free the plan by walking only)
    let mut walker = Router::new(PedestrianID(2), None);
    let walk_ctx = RouterCtx {
        loc: Location::Outside,
        body_pos: v(10, 10),
        car_pos: None,
        vehicle_itinerary_ended: false,
        vehicle_parked: false,
    };
    let act = walker.go_to(&mut map, &walk_ctx, Destination::Outside(v(100, 20)));
    assert!(matches!(act, Action::Navigate(_, _) | Action::DoNothing));
    // replanning the driver toward a building target keeps exactly one
    // reservation alive (old one freed, new one taken)
    router.go_to(&mut map, &ctx, Destination::Outside(v(300, 20)));
    let reserved_after = (0..map.parking.spots.capacity())
        .filter(|k| {
            map.parking.spots.get(*k).map(|s| s.state == SpotState::Reserved).unwrap_or(false)
        })
        .count();
    assert_eq!(reserved_after, 1);
    assert!(!router.arrived(Destination::Outside(v(300, 20))));
}

#[test]
fn walking_agent_plans_a_plain_walk() {
    let (mut map, _buildings) = world();
    let body = PedestrianID(3);
    let ctx = RouterCtx {
        loc: Location::Outside,
        body_pos: v(10, 10),
        car_pos: None,
        vehicle_itinerary_ended: false,
        vehicle_parked: false,
    };
    let mut router = Router::new(body, None);
    let act = router.go_to(&mut map, &ctx, Destination::Outside(v(1500, 10)));
    // the only step was WalkTo, which is ready at once
    assert!(matches!(act, Action::Navigate(_, _) | Action::DoNothing));
    assert_eq!(router.steps.len(), 0);
    assert!(router.arrived(Destination::Outside(v(1500, 10))));
}

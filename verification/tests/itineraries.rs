use map_model::{
    CityMap, Itinerary, ItineraryKind, LanePattern, PathKind, RoadSegmentKind, Route,
    Traversable, TraverseDirection, TraverseKind, LaneID, Vec2,
};

fn v(x: i64, y: i64) -> Vec2 {
    Vec2 { x, y }
}

fn line_map() -> CityMap {
    let mut map = CityMap::empty();
    let a = map.add_intersection(v(0, 0));
    let b = map.add_intersection(v(1000, 0));
    let c = map.add_intersection(v(2000, 0));
    map.connect(a, b, &LanePattern::two_way(false), RoadSegmentKind::Straight);
    map.connect(b, c, &LanePattern::two_way(false), RoadSegmentKind::Straight);
    map
}

#[test]
fn simple_itinerary_drains_each_waypoint_once() {
    let map = CityMap::empty();
    let path = vec![v(0, 0), v(10, 0), v(20, 0), v(30, 0)];
    let mut it = Itinerary::simple(path.clone());
    let mut emitted = Vec::new();
    while !it.has_ended(0) {
        emitted.push(it.advance(&map).unwrap());
    }
    // every waypoint exactly once, in order: none skipped, none duplicated
    assert_eq!(emitted, path);
    assert_eq!(it.advance(&map), None);
}

#[test]
fn same_endpoint_route_short_circuits_to_simple() {
    let map = line_map();
    let p = v(500, 5);
    let it = Itinerary::route(p, p, &map, PathKind::Pedestrian).unwrap();
    assert!(matches!(it.kind, ItineraryKind::Simple));
}

#[test]
fn cross_network_route_is_incremental() {
    let map = line_map();
    let mut it = Itinerary::route(v(100, 5), v(1900, 5), &map, PathKind::Pedestrian).unwrap();
    assert!(matches!(it.kind, ItineraryKind::Route(_)));
    assert!(it.get_terminal().is_some());
    // consuming the plan terminates and visits the terminal position
    let mut guard = 0;
    while !it.has_ended(0) && guard < 1000 {
        it.advance(&map);
        guard += 1;
    }
    assert!(guard < 1000);
}

#[test]
fn update_resets_route_with_stale_edge_to_empty() {
    let map = line_map();
    // a route whose current edge names a lane that is not in the network
    let stale = Traversable {
        kind: TraverseKind::Lane(LaneID(9999)),
        dir: TraverseDirection::Forward,
    };
    let mut it = Itinerary {
        kind: ItineraryKind::Route(Route {
            reversed_route: vec![stale],
            end_pos: v(900, 0),
            cur: stale,
        }),
        local_path: vec![v(100, 0)],
    };
    // the agent stands on its waypoint, one waypoint remains, edges remain:
    // the gating check consults the stale edge and resets the plan
    it.update(v(100, 0), 0, &map);
    assert!(it.is_none());
    assert_eq!(it.remaining_points(), 0);
}

#[test]
fn update_advances_only_within_tolerance() {
    let map = CityMap::empty();
    let mut it = Itinerary::simple(vec![v(0, 0), v(100, 0)]);
    // far away: nothing happens
    it.update(v(50, 50), 0, &map);
    assert_eq!(it.remaining_points(), 2);
    // within the squared tolerance of an intermediate waypoint: advance
    it.update(v(2, 2), 0, &map);
    assert_eq!(it.remaining_points(), 1);
    // terminal waypoint needs the tight arrival check
    it.update(v(102, 1), 0, &map);
    assert_eq!(it.remaining_points(), 1);
    it.update(v(101, 0), 0, &map);
    assert_eq!(it.remaining_points(), 0);
    assert!(it.has_ended(0));
}

#[test]
fn wait_itineraries_end_when_time_passes() {
    let it = Itinerary::wait_until(50);
    assert!(!it.has_ended(50));
    assert!(it.has_ended(51));
    assert!(it.is_terminal());
    let none = Itinerary::none();
    assert!(none.is_none());
    assert!(none.has_ended(0));
    assert!(none.get_point().is_none());
    assert!(none.get_terminal().is_none());
    assert!(none.get_travers().is_none());
}

#[test]
fn prepend_splices_waypoints_in_front() {
    let map = CityMap::empty();
    let mut it = Itinerary::simple(vec![v(10, 0)]);
    it.prepend_local_path(vec![v(1, 0), v(2, 0)]);
    assert_eq!(it.remaining_points(), 3);
    assert_eq!(it.advance(&map), Some(v(1, 0)));
    assert_eq!(it.advance(&map), Some(v(2, 0)));
    assert_eq!(it.advance(&map), Some(v(10, 0)));
}

#[test]
fn advance_resets_route_when_next_edge_is_stale() {
    let map = line_map();
    let stale = Traversable {
        kind: TraverseKind::Lane(LaneID(9999)),
        dir: TraverseDirection::Forward,
    };
    let good = Traversable {
        kind: TraverseKind::Lane(LaneID(0)),
        dir: TraverseDirection::Forward,
    };
    // one waypoint left, and the NEXT edge to pop is gone from the network
    let mut it = Itinerary {
        kind: ItineraryKind::Route(Route {
            reversed_route: vec![stale],
            end_pos: v(900, 0),
            cur: good,
        }),
        local_path: vec![v(100, 0)],
    };
    let emitted = it.advance(&map);
    // the waypoint is consumed, the dependent state is dropped entirely
    assert_eq!(emitted, None);
    assert!(it.is_none());
    assert_eq!(it.remaining_points(), 0);
}

#[test]
fn route_reports_unreachable_targets() {
    // two separate roads with no turn joining them
    let mut map = CityMap::empty();
    let a = map.add_intersection(v(0, 0));
    let b = map.add_intersection(v(1000, 0));
    let c = map.add_intersection(v(0, 9000));
    let d = map.add_intersection(v(1000, 9000));
    map.connect(a, b, &LanePattern::two_way(false), RoadSegmentKind::Straight);
    map.connect(c, d, &LanePattern::two_way(false), RoadSegmentKind::Straight);
    assert!(Itinerary::route(v(100, 5), v(900, 5), &map, PathKind::Pedestrian).is_some());
    assert!(Itinerary::route(v(100, 5), v(900, 8995), &map, PathKind::Pedestrian).is_none());
    // an empty network has no lane of any kind
    let empty = CityMap::empty();
    assert!(Itinerary::route(v(0, 0), v(10, 0), &empty, PathKind::Vehicle).is_none());
}

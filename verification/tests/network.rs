use map_model::{
    CityMap, LaneKind, LanePattern, ProjectKind, RoadSegmentKind, SpatialMap, SpotState, Vec2,
    AABB,
};

fn v(x: i64, y: i64) -> Vec2 {
    Vec2 { x, y }
}

#[test]
fn connect_builds_lanes_spots_and_lots() {
    let mut map = CityMap::empty();
    assert!(map.is_empty());
    let a = map.add_intersection(v(0, 0));
    let b = map.add_intersection(v(1000, 0));
    let road = map.connect(a, b, &LanePattern::two_way(true), RoadSegmentKind::Straight);
    assert!(!map.is_empty());
    let rd = map.roads().get(road.0).unwrap();
    assert_eq!(rd.src, a);
    assert_eq!(rd.dst, b);
    // two driving, two walking and two parking lanes
    assert_eq!(rd.lanes.len(), 6);
    assert_eq!(map.find_road(a, b), Some(road));
    assert_eq!(map.find_road(b, a), None);
    // each parking lane carries a spot, and the road grew lots beside it
    assert!(map.parking.spots.len() >= 2);
    assert!(map.lots().len() >= 1);
    // a driving lane lies nearest a point beside the road
    let lane = map.nearest_lane(v(500, 10), LaneKind::Driving).unwrap();
    assert_eq!(map.lanes().get(lane.0).unwrap().kind, LaneKind::Driving);
}

#[test]
fn remove_road_drops_lanes_spots_and_lots() {
    let mut map = CityMap::empty();
    let a = map.add_intersection(v(0, 0));
    let b = map.add_intersection(v(1000, 0));
    let road = map.connect(a, b, &LanePattern::two_way(true), RoadSegmentKind::Straight);
    let lane_count = map.lanes().len();
    assert!(lane_count > 0);
    let removed = map.remove_road(road).unwrap();
    assert_eq!(removed.src, a);
    assert_eq!(removed.dst, b);
    assert_eq!(map.lanes().len(), 0);
    assert_eq!(map.parking.spots.len(), 0);
    assert_eq!(map.lots().len(), 0);
    // removing again through the stale handle is a reported no-op
    assert!(map.remove_road(road).is_none());
}

#[test]
fn split_curved_road_preserves_tangents() {
    let mut map = CityMap::empty();
    let a = map.add_intersection(v(0, 0));
    let b = map.add_intersection(v(2000, 0));
    let d0 = v(0, 300);
    let d1 = v(0, -300);
    let road = map.connect(a, b, &LanePattern::two_way(false), RoadSegmentKind::Curved(d0, d1));
    let nid = map.split_road(road, v(1000, 120));
    assert!(map.roads().get(road.0).is_none());
    // find the two replacement roads
    let mut first = None;
    let mut second = None;
    for k in 0..map.roads().capacity() {
        if let Some(rd) = map.roads().get(k) {
            if rd.src == a && rd.dst == nid {
                first = Some(rd);
            } else if rd.src == nid && rd.dst == b {
                second = Some(rd);
            }
        }
    }
    let first = first.unwrap();
    let second = second.unwrap();
    match (first.segment, second.segment) {
        (RoadSegmentKind::Curved(f0, f1), RoadSegmentKind::Curved(s0, s1)) => {
            // endpoint tangents unchanged, junction derivative shared
            assert_eq!(f0, d0);
            assert_eq!(s1, d1);
            assert_eq!(f1, s0);
        }
        _ => panic!("expected curved segments"),
    }
}

#[test]
fn reservation_of_last_spot_is_first_wins() {
    let mut map = CityMap::empty();
    let a = map.add_intersection(v(0, 0));
    let b = map.add_intersection(v(1000, 0));
    // a one-way road: exactly one parking lane, so exactly one spot
    map.connect(a, b, &LanePattern::one_way(true), RoadSegmentKind::Straight);
    assert_eq!(map.parking.spots.len(), 1);
    let first = map.reserve_near(v(500, 0));
    assert!(first.is_some());
    let spot = first.unwrap();
    assert_eq!(map.parking.get(spot).unwrap().state, SpotState::Reserved);
    // the losing request must not also succeed
    assert!(map.reserve_near(v(500, 0)).is_none());
    // release is idempotent: freeing twice is harmless
    assert!(map.parking.free(spot));
    assert!(map.parking.free(spot));
    assert_eq!(map.parking.get(spot).unwrap().state, SpotState::Free);
    // and the spot can be taken again
    assert!(map.reserve_near(v(500, 0)).is_some());
}

#[test]
fn spatial_index_queries_and_defensive_removal() {
    let mut sm = SpatialMap::new();
    let map = CityMap::empty();
    drop(map);
    let key = ProjectKind::Ground;
    let boxed = AABB { lo: v(0, 0), hi: v(10, 10) };
    sm.insert(key, boxed);
    assert!(sm.contains_key(key));
    assert_eq!(sm.query_point(v(5, 5)), vec![key]);
    assert_eq!(sm.query_point(v(50, 5)), Vec::<ProjectKind>::new());
    assert_eq!(sm.query_rect(AABB { lo: v(8, 8), hi: v(20, 20) }), vec![key]);
    assert_eq!(sm.query_around(v(30, 5), 25), vec![key]);
    assert!(sm.remove(key));
    // removing a key that is not present is a recoverable warning
    assert!(!sm.remove(key));
}

#[test]
fn build_buildings_consumes_all_lots() {
    let mut map = CityMap::empty();
    let a = map.add_intersection(v(0, 0));
    let b = map.add_intersection(v(1000, 0));
    map.connect(a, b, &LanePattern::two_way(false), RoadSegmentKind::Straight);
    let lots_before = map.lots().len();
    assert!(lots_before > 0);
    let built = map.build_buildings();
    assert_eq!(built.len(), lots_before);
    assert_eq!(map.lots().len(), 0);
    for id in &built {
        assert!(map.buildings().get(id.0).is_some());
    }
}

#[test]
fn project_prefers_exact_hits_over_road_proximity() {
    let mut map = CityMap::empty();
    let a = map.add_intersection(v(0, 0));
    let b = map.add_intersection(v(1000, 0));
    map.connect(a, b, &LanePattern::two_way(false), RoadSegmentKind::Straight);
    // inside an intersection's interface polygon: the intersection wins
    let hit = map.project(v(0, 0));
    assert!(matches!(hit.kind, ProjectKind::Inter(id) if id == a));
    // on the centerline, outside every polygon: the road is the fallback
    let near = map.project(v(500, 0));
    assert!(matches!(near.kind, ProjectKind::Road(_)));
    assert_eq!(near.pos, v(500, 0));
    // far from everything: open ground, never an error
    let ground = map.project(v(400000, 400000));
    assert!(matches!(ground.kind, ProjectKind::Ground));
    assert_eq!(ground.pos, v(400000, 400000));
}

#[test]
fn random_building_finds_each_existing_kind() {
    let mut map = CityMap::empty();
    let a = map.add_intersection(v(0, 0));
    let b = map.add_intersection(v(1000, 0));
    map.connect(a, b, &LanePattern::two_way(false), RoadSegmentKind::Straight);
    let built = map.build_buildings();
    assert!(!built.is_empty());
    let kind = map.buildings().get(built[0].0).unwrap().kind;
    let found = map.random_building(kind).unwrap();
    assert_eq!(map.buildings().get(found.0).unwrap().kind, kind);
}

#[test]
fn removing_a_stale_road_changes_nothing() {
    let mut map = CityMap::empty();
    let a = map.add_intersection(v(0, 0));
    let b = map.add_intersection(v(1000, 0));
    let road = map.connect(a, b, &LanePattern::two_way(false), RoadSegmentKind::Straight);
    map.remove_road(road).unwrap();
    // a second removal through the stale handle is a no-op: in particular
    // the dirty flag (geometry changed) is not raised
    map.dirty = false;
    assert!(map.remove_road(road).is_none());
    assert!(!map.dirty);
}

//! A verified model of a city road network and of the agents that move
//! through it: the road graph with its derived geometry and spatial index,
//! time-gated traffic controls, parking reservation, incremental
//! itineraries over graph routes, and the per-agent action router.
//!
//! All coordinates are integer fixed-point units; every public operation
//! carries a contract stating how it reads or rewrites the network.

mod arena;
mod geom;
mod handles;
mod itinerary;
mod map;
mod map_edit;
mod parking;
mod pathfinder;
mod router;
mod spatial_map;
mod spline;
mod polyline;
mod traffic_control;
mod vehicle;

pub use vehicle::{VehicleState, park_glide, park_glide_step, unpark_transition};
pub use handles::{BuildingID, IntersectionID, LaneID, LotID, ParkingSpotID, PedestrianID,
    RoadID, SoulID, VehicleID};
pub use spatial_map::{ProjectKind, SpatialMap, find_shape, lemma_query_complete,
    lemma_query_key_present, lemma_query_sound, query_spec};
pub use map::{Building, BuildingKind, CityMap, Intersection, Lane, LaneDirection, LaneKind,
    LanePattern, Lot, MapProject, Road, RoadSegmentKind, Turn, lane_same_mod_control,
    inter_same_mod_derived, lemma_inv_mod_spot_states, lemma_nearest_lane_unique, road_same_mod_lots, spec_is_nearest_lane, spec_is_park_exit_lane,
    spec_lane_dist2, spec_project_scan, spec_road_points};
pub use itinerary::{Itinerary, ItinView, ItineraryKind, KindView, OBJECTIVE_OK_DIST, Route,
    Traversable, TraverseDirection, TraverseKind, lemma_simple_drains_in_order, spec_advance,
    spec_can_pass, spec_traversable_points, spec_traversable_valid};
pub use map_edit::LOT_CLEARANCE;
pub use pathfinder::{PathKind, PathStep, find_path, spec_connected, spec_lane_path,
    spec_reachable, spec_steps_ok, seq_count_true};
pub use router::{Action, Destination, INTERACT_DIST, Location, NavTarget, PARKING_CLEARANCE,
    Router, RouterCtx, RoutingStep, Transaction, spec_has_park_on, spec_ready};
pub use parking::{ParkingSpot, ParkingSpots, SpotState, lemma_reservation_first_wins};
pub use spline::{Spline, spec_clamp, spec_derivative_quarter, spec_div_floor,
    spec_eval_quarter, spec_project_t};
pub use arena::{Arena, live_count};
pub use polyline::{PolyLine, best_seg, spec_project_segment};
pub use geom::{AABB, MAX_COORD, Vec2, coord_ok, proj_on_segment, spec_dist2, spec_muldiv,
    spec_proj_on_segment};
pub use traffic_control::{TrafficBehavior, TrafficControl, TrafficLightSchedule, spec_behavior};

use vstd::prelude::*;

verus! {

} // verus!

use map_model::{ParkingSpotID, Spline, Vec2, VehicleState, park_glide, park_glide_step,
    unpark_transition};

fn v(x: i64, y: i64) -> Vec2 {
    Vec2 { x, y }
}

#[test]
fn unparking_releases_only_a_parked_spot() {
    let spot = ParkingSpotID(3);
    let (freed, next) = unpark_transition(VehicleState::Parked(spot));
    assert_eq!(freed, Some(spot));
    assert_eq!(next, VehicleState::Driving);
    let (freed2, next2) = unpark_transition(VehicleState::Driving);
    assert_eq!(freed2, None);
    assert_eq!(next2, VehicleState::Driving);
}

#[test]
fn park_glide_joins_vehicle_and_spot_headings() {
    let glide = park_glide(v(0, 0), v(5, 0), v(40, 10), v(0, 5));
    assert_eq!(
        glide,
        Spline {
            from: v(0, 0),
            to: v(40, 10),
            from_derivative: v(10, 0),
            to_derivative: v(0, 10),
        }
    );
    // stepping the glide to its end parks the vehicle on its spot
    let spot = ParkingSpotID(1);
    let mut st = VehicleState::RoadToPark(glide, 0, spot);
    for _ in 0..5 {
        st = park_glide_step(st);
    }
    assert_eq!(st, VehicleState::Parked(spot));
    assert_eq!(park_glide_step(VehicleState::Driving), VehicleState::Driving);
}

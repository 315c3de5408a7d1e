//! Vehicle movement state and the parking transitions.
//!
//! A vehicle is parked on a spot, gliding between a spot and the road, or
//! driving. The two decisions the parking actions make on plain values are
//! verified here: what unparking releases, and the glide curve a parking
//! vehicle follows into its spot. Performing the world side effects (moving
//! the entity, freeing or occupying the spot) is the caller's job.

use vstd::prelude::*;
use crate::geom::{MAX_COORD, Vec2};
use crate::handles::ParkingSpotID;
use crate::spline::Spline;

verus! {

/// What a vehicle's motion is doing.
#[derive(Copy, Clone, Debug, PartialEq, Eq, Structural)]
pub enum VehicleState {
    Parked(ParkingSpotID),
    ParkedToRoad,
    Driving,
    RoadToPark(Spline, u32, ParkingSpotID),
}

/// The rule applied when a vehicle unparks: only a parked vehicle holds a
/// spot to release (any other state releases nothing — the mismatch is the
/// caller's to report, not fatal), and the vehicle is driving afterwards.
pub fn unpark_transition(state: VehicleState) -> (r: (Option<ParkingSpotID>, VehicleState))
    ensures
        r.1 == VehicleState::Driving,
        r.0 == match state {
            VehicleState::Parked(s) => Some(s),
            _ => None::<ParkingSpotID>,
        },
{
    match state {
        VehicleState::Parked(s) => (Some(s), VehicleState::Driving),
        _ => (None, VehicleState::Driving),
    }
}

/// The glide a parking vehicle follows: a Hermite curve from its position
/// and heading into the spot's position and heading, with both headings
/// doubled so the curve leaves and arrives decisively.
pub fn park_glide(vpos: Vec2, vdir: Vec2, spot_pos: Vec2, spot_dir: Vec2) -> (r: Spline)
    requires
        vpos.in_bounds(),
        spot_pos.in_bounds(),
        -MAX_COORD / 2 <= vdir.x <= MAX_COORD / 2,
        -MAX_COORD / 2 <= vdir.y <= MAX_COORD / 2,
        -MAX_COORD / 2 <= spot_dir.x <= MAX_COORD / 2,
        -MAX_COORD / 2 <= spot_dir.y <= MAX_COORD / 2,
    ensures
        r == (Spline {
            from: vpos,
            to: spot_pos,
            from_derivative: Vec2 { x: (2 * vdir.x) as i64, y: (2 * vdir.y) as i64 },
            to_derivative: Vec2 { x: (2 * spot_dir.x) as i64, y: (2 * spot_dir.y) as i64 },
        }),
        r.wf(),
{
    Spline {
        from: vpos,
        to: spot_pos,
        from_derivative: Vec2 { x: 2 * vdir.x, y: 2 * vdir.y },
        to_derivative: Vec2 { x: 2 * spot_dir.x, y: 2 * spot_dir.y },
    }
}

/// One tick of a parking glide: the progress counter advances toward the
/// quarter-grid end; on arrival the vehicle is parked on its spot.
pub fn park_glide_step(state: VehicleState) -> (r: VehicleState)
    ensures
        r == match state {
            VehicleState::RoadToPark(s, t, spot) => if t >= 4 {
                VehicleState::Parked(spot)
            } else {
                VehicleState::RoadToPark(s, (t + 1) as u32, spot)
            },
            _ => state,
        },
{
    match state {
        VehicleState::RoadToPark(s, t, spot) => {
            if t >= 4 {
                VehicleState::Parked(spot)
            } else {
                VehicleState::RoadToPark(s, t + 1, spot)
            }
        },
        _ => state,
    }
}

} // verus!

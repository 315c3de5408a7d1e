//! Stable handles for each kind of map entity.
//!
//! A handle is an arena slot index wrapped in a kind-specific type, so a
//! road handle can never be mistaken for a lane handle. Removal leaves the
//! slot vacant forever, so a stale handle reads as absent rather than
//! aliasing a newer entity.

use vstd::prelude::*;

verus! {

#[derive(Copy, Clone, Debug, PartialEq, Eq, Hash, Structural)]
pub struct IntersectionID(pub usize);

#[derive(Copy, Clone, Debug, PartialEq, Eq, Hash, Structural)]
pub struct RoadID(pub usize);

#[derive(Copy, Clone, Debug, PartialEq, Eq, Hash, Structural)]
pub struct LaneID(pub usize);

#[derive(Copy, Clone, Debug, PartialEq, Eq, Hash, Structural)]
pub struct BuildingID(pub usize);

#[derive(Copy, Clone, Debug, PartialEq, Eq, Hash, Structural)]
pub struct LotID(pub usize);

#[derive(Copy, Clone, Debug, PartialEq, Eq, Hash, Structural)]
pub struct ParkingSpotID(pub usize);

#[derive(Copy, Clone, Debug, PartialEq, Eq, Hash, Structural)]
pub struct VehicleID(pub usize);

#[derive(Copy, Clone, Debug, PartialEq, Eq, Hash, Structural)]
pub struct PedestrianID(pub usize);

#[derive(Copy, Clone, Debug, PartialEq, Eq, Hash, Structural)]
pub struct SoulID(pub usize);

} // verus!

//! Parking spots and their reservation.
//!
//! A spot belongs to a parking lane and is free, reserved or occupied.
//! Reservation is first-wins: only a free spot can be reserved, so two
//! requests for the last free spot can never both succeed. Freeing is
//! idempotent: freeing an already-free spot changes nothing, and freeing
//! through a stale handle is a reported no-op.

use vstd::prelude::*;
use crate::arena::Arena;
use crate::geom::{Vec2, spec_dist2};
use crate::handles::{LaneID, ParkingSpotID};

verus! {

#[derive(Copy, Clone, Debug, PartialEq, Eq, Structural)]
pub enum SpotState {
    Free,
    Reserved,
    Occupied,
}

#[derive(Copy, Clone, Debug, PartialEq, Eq, Structural)]
pub struct ParkingSpot {
    pub parent: LaneID,
    pub pos: Vec2,
    pub state: SpotState,
}

pub struct ParkingSpots {
    pub spots: Arena<ParkingSpot>,
}

impl ParkingSpots {
    pub open spec fn wf(self) -> bool {
        &&& self.spots.wf()
        &&& forall|k: int| self.spots.valid(k) ==> (#[trigger] self.spots.s_get(k)).pos.in_bounds()
    }

    pub open spec fn s_valid(self, id: ParkingSpotID) -> bool {
        self.spots.valid(id.0 as int)
    }

    pub open spec fn s_get(self, id: ParkingSpotID) -> ParkingSpot {
        self.spots.s_get(id.0 as int)
    }

    /// Spots not touched by an operation keep their value and validity.
    pub open spec fn same_except(self, other: ParkingSpots, id: ParkingSpotID) -> bool {
        &&& forall|j: int|
            j != id.0 as int ==> (#[trigger] self.spots.valid(j) <==> other.spots.valid(j))
        &&& forall|j: int|
            j != id.0 as int && other.spots.valid(j) ==> #[trigger] self.spots.s_get(j)
                == other.spots.s_get(j)
    }

    pub fn new() -> (r: Self)
        ensures
            r.wf(),
            r.spots.slots_seq() == Seq::<Option<ParkingSpot>>::empty(),
            forall|id: ParkingSpotID| !r.s_valid(id),
            r.spots.s_len() == 0,
    {
        ParkingSpots { spots: Arena::new() }
    }

    pub fn get(&self, id: ParkingSpotID) -> (r: Option<&ParkingSpot>)
        ensures
            self.s_valid(id) ==> r == Some(&self.s_get(id)),
            !self.s_valid(id) ==> r is None,
    {
        self.spots.get(id.0)
    }

    pub fn contains(&self, id: ParkingSpotID) -> (r: bool)
        ensures
            r <==> self.s_valid(id),
    {
        self.spots.contains(id.0)
    }

    /// Creates a free spot on `parent` at `pos`.
    pub fn insert_spot(&mut self, parent: LaneID, pos: Vec2) -> (id: ParkingSpotID)
        requires
            old(self).wf(),
            pos.in_bounds(),
            old(self).spots.slots_seq().len() < usize::MAX,
        ensures
            final(self).wf(),
            final(self).s_valid(id),
            final(self).s_get(id) == (ParkingSpot { parent, pos, state: SpotState::Free }),
            !old(self).s_valid(id),
            final(self).same_except(*old(self), id),
            final(self).spots.slots_seq().len() == old(self).spots.slots_seq().len() + 1,
    {
        let k = self.spots.insert(ParkingSpot { parent, pos, state: SpotState::Free });
        ParkingSpotID(k)
    }

    /// Removes every spot on `lane` (the lane is going away).
    pub fn remove_spots(&mut self, lane: LaneID)
        requires
            old(self).wf(),
        ensures
            final(self).wf(),
            final(self).spots.slots_seq().len() == old(self).spots.slots_seq().len(),
            forall|j: int|
                final(self).spots.valid(j) <==> old(self).spots.valid(j) && (#[trigger] old(
                self).spots.s_get(j)).parent != lane,
            forall|j: int|
                final(self).spots.valid(j) ==> #[trigger] final(self).spots.s_get(j) == old(
                self).spots.s_get(j),
    {
        let n = self.spots.capacity();
        let mut k: usize = 0;
        while k < n
            invariant
                0 <= k <= n,
                self.spots.wf(),
                n == self.spots.slots_seq().len(),
                self.spots.slots_seq().len() == old(self).spots.slots_seq().len(),
                forall|j: int|
                    k <= j < n ==> (#[trigger] self.spots.valid(j) <==> old(self).spots.valid(j)),
                forall|j: int|
                    k <= j < n && old(self).spots.valid(j) ==> #[trigger] self.spots.s_get(j)
                        == old(self).spots.s_get(j),
                forall|j: int|
                    0 <= j < k ==> (#[trigger] self.spots.valid(j) <==> (old(self).spots.valid(j)
                        && old(self).spots.s_get(j).parent != lane)),
                forall|j: int|
                    0 <= j < k && self.spots.valid(j) ==> #[trigger] self.spots.s_get(j) == old(
                    self).spots.s_get(j),
                forall|j: int| self.spots.valid(j) ==> (#[trigger] self.spots.s_get(
                    j,
                )).pos.in_bounds(),
            decreases n - k,
        {
            let drop_it = match self.spots.get(k) {
                Some(s) => s.parent == lane,
                None => false,
            };
            if drop_it {
                self.spots.remove(k);
            }
            k = k + 1;
        }
    }

    /// Marks a free spot reserved. Only a free spot can be taken, so of two
    /// requests for the same spot the first wins and the second fails.
    pub fn reserve(&mut self, id: ParkingSpotID) -> (ok: bool)
        requires
            old(self).wf(),
        ensures
            final(self).wf(),
            ok <==> old(self).s_valid(id) && old(self).s_get(id).state == SpotState::Free,
            ok ==> final(self).s_valid(id) && final(self).s_get(id) == (ParkingSpot {
                state: SpotState::Reserved,
                ..old(self).s_get(id)
            }),
            !ok ==> *final(self) == *old(self),
            final(self).same_except(*old(self), id),
    {
        let spot = match self.spots.get(id.0) {
            Some(s) => *s,
            None => {
                return false;
            },
        };
        if matches!(spot.state, SpotState::Free) {
            self.spots.set(id.0, ParkingSpot { state: SpotState::Reserved, ..spot });
            proof {
                assert(self.spots.slots_seq() =~= old(self).spots.slots_seq().update(
                    id.0 as int,
                    Some(self.s_get(id)),
                ));
            }
            true
        } else {
            false
        }
    }

    /// Marks a reserved spot occupied (a vehicle finished parking on it).
    pub fn occupy(&mut self, id: ParkingSpotID) -> (ok: bool)
        requires
            old(self).wf(),
        ensures
            final(self).wf(),
            ok <==> old(self).s_valid(id),
            ok ==> final(self).s_valid(id) && final(self).s_get(id) == (ParkingSpot {
                state: SpotState::Occupied,
                ..old(self).s_get(id)
            }),
            !ok ==> *final(self) == *old(self),
            final(self).same_except(*old(self), id),
    {
        let spot = match self.spots.get(id.0) {
            Some(s) => *s,
            None => {
                return false;
            },
        };
        self.spots.set(id.0, ParkingSpot { state: SpotState::Occupied, ..spot });
        true
    }

    /// Returns a spot to the free pool. Freeing an already-free spot is a
    /// no-op by value, and a stale handle is reported, not fatal.
    pub fn free(&mut self, id: ParkingSpotID) -> (was_present: bool)
        requires
            old(self).wf(),
        ensures
            final(self).wf(),
            was_present <==> old(self).s_valid(id),
            old(self).s_valid(id) ==> final(self).s_valid(id) && final(self).s_get(id) == (
            ParkingSpot { state: SpotState::Free, ..old(self).s_get(id) }),
            !old(self).s_valid(id) ==> *final(self) == *old(self),
            final(self).same_except(*old(self), id),
    {
        let spot = match self.spots.get(id.0) {
            Some(s) => *s,
            None => {
                return false;
            },
        };
        self.spots.set(id.0, ParkingSpot { state: SpotState::Free, ..spot });
        true
    }

    /// Reserves the free spot nearest to `pos` (lowest handle on a tie);
    /// fails exactly when no free spot exists.
    pub fn reserve_near(&mut self, pos: Vec2) -> (r: Option<ParkingSpotID>)
        requires
            old(self).wf(),
            pos.in_bounds(),
        ensures
            final(self).wf(),
            r is None ==> *final(self) == *old(self) && forall|j: int|
                old(self).spots.valid(j) ==> (#[trigger] old(self).spots.s_get(j)).state
                    != SpotState::Free,
            r is Some ==> {
                let id = r.unwrap();
                &&& old(self).s_valid(id)
                &&& old(self).s_get(id).state == SpotState::Free
                &&& final(self).s_valid(id)
                &&& final(self).s_get(id) == (ParkingSpot {
                    state: SpotState::Reserved,
                    ..old(self).s_get(id)
                })
                &&& final(self).same_except(*old(self), id)
                &&& forall|j: int|
                    old(self).spots.valid(j) && (#[trigger] old(self).spots.s_get(j)).state
                        == SpotState::Free ==> spec_dist2(pos, old(self).s_get(id).pos)
                        <= spec_dist2(pos, old(self).spots.s_get(j).pos)
            },
    {
        let n = self.spots.capacity();
        let mut found: bool = false;
        let mut best: usize = 0;
        let mut best_d: i64 = 0;
        let mut k: usize = 0;
        while k < n
            invariant
                0 <= k <= n,
                self.wf(),
                pos.in_bounds(),
                *self == *old(self),
                n == self.spots.slots_seq().len(),
                !found ==> forall|j: int|
                    0 <= j < k && self.spots.valid(j) ==> (#[trigger] self.spots.s_get(j)).state
                        != SpotState::Free,
                found ==> {
                    &&& best < k
                    &&& self.spots.valid(best as int)
                    &&& self.spots.s_get(best as int).state == SpotState::Free
                    &&& best_d == spec_dist2(pos, self.spots.s_get(best as int).pos)
                    &&& forall|j: int|
                        0 <= j < k && self.spots.valid(j) && (#[trigger] self.spots.s_get(
                            j,
                        )).state == SpotState::Free ==> best_d <= spec_dist2(
                            pos,
                            self.spots.s_get(j).pos,
                        )
                },
            decreases n - k,
        {
            let cand = match self.spots.get(k) {
                Some(s) => {
                    if matches!(s.state, SpotState::Free) {
                        Some(s.pos)
                    } else {
                        None
                    }
                },
                None => None,
            };
            if let Some(sp) = cand {
                let d = pos.dist2(sp);
                if !found || d < best_d {
                    found = true;
                    best = k;
                    best_d = d;
                }
            }
            k = k + 1;
        }
        if found {
            let ok = self.reserve(ParkingSpotID(best));
            Some(ParkingSpotID(best))
        } else {
            None
        }
    }
}

/// Reservation is linearizable: after one request has taken the only free
/// spot, a second request finds no free spot at all, so the two can never
/// both succeed.
pub proof fn lemma_reservation_first_wins(before: ParkingSpots, after: ParkingSpots, id: ParkingSpotID)
    requires
        before.s_valid(id),
        before.s_get(id).state == SpotState::Free,
        forall|j: int|
            before.spots.valid(j) && j != id.0 as int ==> (#[trigger] before.spots.s_get(
                j,
            )).state != SpotState::Free,
        after.s_valid(id),
        after.s_get(id) == (ParkingSpot { state: SpotState::Reserved, ..before.s_get(id) }),
        after.same_except(before, id),
    ensures
        forall|j: int|
            after.spots.valid(j) ==> (#[trigger] after.spots.s_get(j)).state != SpotState::Free,
        !(after.s_get(id).state == SpotState::Free),
{
    assert forall|j: int| after.spots.valid(j) implies (#[trigger] after.spots.s_get(j)).state
        != SpotState::Free by {
        if j != id.0 as int {
            assert(before.spots.valid(j));
            assert(after.spots.s_get(j) == before.spots.s_get(j));
        }
    };
}

} // verus!

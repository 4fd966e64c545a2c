use vstd::prelude::*;
use crate::agents::{ParkingSpot, Vehicle};
use crate::ids::Position;

verus! {

/// A parking spot, where it meets the sidewalk, and the car parked there, if any.
#[derive(Clone, Copy, Debug)]
pub struct SpotState {
    pub spot: ParkingSpot,
    pub sidewalk_pos: Position,
    pub car: Option<Vehicle>,
}

/// The parking spots of the map and the cars in them.
pub struct ParkingSimState {
    pub spots: Vec<SpotState>,
}

impl ParkingSimState {
    /// No spot is listed twice.
    pub open spec fn well_formed(&self) -> bool {
        forall|i: int, j: int|
            0 <= i < self.spots@.len() && 0 <= j < self.spots@.len() && i != j
                ==> #[trigger] self.spots@[i].spot != #[trigger] self.spots@[j].spot
    }

    pub open spec fn spot_state(&self, spot: ParkingSpot) -> Option<SpotState> {
        if exists|i: int| 0 <= i < self.spots@.len() && #[trigger] self.spots@[i].spot == spot {
            Some(self.spots@[choose|i: int| 0 <= i < self.spots@.len() && #[trigger] self.spots@[i].spot == spot])
        } else {
            None
        }
    }

    /// The car parked at `spot`, if any.
    pub open spec fn car_at(&self, spot: ParkingSpot) -> Option<Vehicle> {
        match self.spot_state(spot) {
            Some(s) => s.car,
            None => None,
        }
    }

    pub fn get_spot(&self, spot: ParkingSpot) -> (r: Option<SpotState>)
        requires
            self.well_formed(),
        ensures
            r == self.spot_state(spot),
    {
        let mut i: usize = 0;
        while i < self.spots.len()
            invariant
                self.well_formed(),
                i <= self.spots@.len(),
                forall|k: int| 0 <= k < i ==> self.spots@[k].spot != spot,
            decreases self.spots.len() - i,
        {
            if self.spots[i].spot == spot {
                let ghost c = choose|c: int| 0 <= c < self.spots@.len() && #[trigger] self.spots@[c].spot == spot;
                assert(self.spots@[c].spot == self.spots@[i as int].spot);
                return Some(self.spots[i]);
            }
            i += 1;
        }
        None
    }

    pub fn get_car_at_spot(&self, spot: ParkingSpot) -> (r: Option<Vehicle>)
        requires
            self.well_formed(),
        ensures
            r == self.car_at(spot),
    {
        match self.get_spot(spot) {
            Some(s) => s.car,
            None => None,
        }
    }
}

} // verus!

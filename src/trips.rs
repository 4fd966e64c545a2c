use vstd::prelude::*;
use crate::agents::{DrivingGoal, SidewalkSpot, Vehicle};
use crate::ids::{BusRouteID, BusStopID, Duration, PedestrianID, Speed, TripID};

verus! {

/// One stage of a trip.
#[derive(Clone, Copy, Debug, PartialEq, Eq, Structural)]
pub enum TripLeg {
    Walk(PedestrianID, Speed, SidewalkSpot),
    Drive(Vehicle, DrivingGoal),
    RideBus(PedestrianID, BusRouteID, BusStopID),
}

/// A trip in progress: its legs, and the index of the one being done.
#[derive(Clone, Debug)]
pub struct Trip {
    pub id: TripID,
    pub spawned_at: Duration,
    pub legs: Vec<TripLeg>,
    pub current_leg: usize,
    pub finished: bool,
}

/// Tracks every trip's progress through its legs. Trip `i` has identifier `TripID(i)`.
pub struct TripManager {
    pub trips: Vec<Trip>,
}

impl TripManager {
    pub open spec fn well_formed(&self) -> bool {
        forall|i: int|
            0 <= i < self.trips@.len() ==> {
                let t = #[trigger] self.trips@[i];
                &&& t.id.0 == i
                &&& t.legs@.len() > 0
                &&& t.current_leg < t.legs@.len()
            }
    }

    pub fn new() -> (r: TripManager)
        ensures
            r.well_formed(),
            r.trips@.len() == 0,
    {
        TripManager { trips: Vec::new() }
    }

    /// Starts a trip of the given legs, at its first leg.
    pub fn new_trip(&mut self, spawned_at: Duration, legs: Vec<TripLeg>) -> (r: TripID)
        requires
            old(self).well_formed(),
            legs@.len() > 0,
        ensures
            final(self).well_formed(),
            r.0 == old(self).trips@.len(),
            final(self).trips@.len() == old(self).trips@.len() + 1,
            forall|i: int| 0 <= i < old(self).trips@.len() ==> #[trigger] final(self).trips@[i] == old(self).trips@[i],
            final(self).trips@[r.0 as int].id == r,
            final(self).trips@[r.0 as int].spawned_at == spawned_at,
            final(self).trips@[r.0 as int].legs@ == legs@,
            final(self).trips@[r.0 as int].current_leg == 0,
            !final(self).trips@[r.0 as int].finished,
    {
        let id = TripID(self.trips.len());
        self.trips.push(Trip { id, spawned_at, legs, current_leg: 0, finished: false });
        id
    }

    /// The trip's current leg is done. Returns the next leg, which becomes current; or `None`
    /// when that was the last leg, and the trip is finished.
    pub fn finish_leg(&mut self, id: TripID) -> (r: Option<TripLeg>)
        requires
            old(self).well_formed(),
            id.0 < old(self).trips@.len(),
            !old(self).trips@[id.0 as int].finished,
        ensures
            final(self).well_formed(),
            final(self).trips@.len() == old(self).trips@.len(),
            forall|i: int|
                0 <= i < old(self).trips@.len() && i != id.0 ==> #[trigger] final(self).trips@[i]
                    == old(self).trips@[i],
            ({
                let (o, n) = (old(self).trips@[id.0 as int], final(self).trips@[id.0 as int]);
                &&& n.id == o.id && n.spawned_at == o.spawned_at && n.legs == o.legs
                &&& if o.current_leg + 1 < o.legs@.len() {
                    &&& n.current_leg == o.current_leg + 1
                    &&& !n.finished
                    &&& r == Some(o.legs@[n.current_leg as int])
                } else {
                    &&& n.current_leg == o.current_leg
                    &&& n.finished
                    &&& r is None
                }
            }),
    {
        let mut t = self.trips.remove(id.0);
        assert(t == old(self).trips@[id.0 as int]);
        let n = t.legs.len();
        let r = if t.current_leg + 1 < n {
            t.current_leg = t.current_leg + 1;
            Some(t.legs[t.current_leg])
        } else {
            t.finished = true;
            None
        };
        self.trips.insert(id.0, t);
        proof {
            assert forall|i: int|
                0 <= i < old(self).trips@.len() && i != id.0 implies #[trigger] self.trips@[i]
                    == old(self).trips@[i] by {
                if i < id.0 {
                } else {
                }
            }
        }
        r
    }
}

/// A trip's leg index never decreases: after `finish_leg`, it grew by one or the trip finished
/// at the same leg.
pub proof fn lemma_leg_index_monotonic(o: Trip, n: Trip)
    requires
        n.legs == o.legs,
        if o.current_leg + 1 < o.legs@.len() {
            n.current_leg == o.current_leg + 1 && !n.finished
        } else {
            n.current_leg == o.current_leg && n.finished
        },
    ensures
        n.current_leg >= o.current_leg,
        n.current_leg == o.current_leg ==> n.finished,
{
}

} // verus!

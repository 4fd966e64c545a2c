use vstd::prelude::*;

verus! {

/// Simulation time, in nanoseconds since the start of the simulation.
pub type Duration = u64;

/// A distance along a lane, in millimeters.
pub type Distance = u64;

/// A speed, in millimeters per second.
pub type Speed = u64;

/// An intersection of the map; indexes `Map::intersections`.
#[derive(Clone, Copy, Debug, PartialEq, Eq, Structural, PartialOrd, Ord, Hash)]
pub struct IntersectionID(pub usize);

/// A lane of the map; indexes `Map::lanes`.
#[derive(Clone, Copy, Debug, PartialEq, Eq, Structural, PartialOrd, Ord, Hash)]
pub struct LaneID(pub usize);

/// A road of the map; indexes `Map::roads`.
#[derive(Clone, Copy, Debug, PartialEq, Eq, Structural, PartialOrd, Ord, Hash)]
pub struct RoadID(pub usize);

/// A building of the map; indexes `Map::buildings`.
#[derive(Clone, Copy, Debug, PartialEq, Eq, Structural, PartialOrd, Ord, Hash)]
pub struct BuildingID(pub usize);

/// A bus route of the map.
#[derive(Clone, Copy, Debug, PartialEq, Eq, Structural, PartialOrd, Ord, Hash)]
pub struct BusRouteID(pub usize);

/// A bus stop of the map; indexes `Map::bus_stops`.
#[derive(Clone, Copy, Debug, PartialEq, Eq, Structural, PartialOrd, Ord, Hash)]
pub struct BusStopID(pub usize);

#[derive(Clone, Copy, Debug, PartialEq, Eq, Structural, PartialOrd, Ord, Hash)]
pub struct CarID(pub usize);

#[derive(Clone, Copy, Debug, PartialEq, Eq, Structural, PartialOrd, Ord, Hash)]
pub struct PedestrianID(pub usize);

/// A trip; indexes `TripManager`'s trips.
#[derive(Clone, Copy, Debug, PartialEq, Eq, Structural, PartialOrd, Ord, Hash)]
pub struct TripID(pub usize);

/// A directed connection from lane `src` to lane `dst` through intersection `parent`.
#[derive(Clone, Copy, Debug, PartialEq, Eq, Structural, PartialOrd, Ord, Hash)]
pub struct TurnID {
    pub parent: IntersectionID,
    pub src: LaneID,
    pub dst: LaneID,
}

#[derive(Clone, Copy, Debug, PartialEq, Eq, Structural, PartialOrd, Ord, Hash)]
pub enum AgentID {
    Car(CarID),
    Pedestrian(PedestrianID),
}

/// A point on a lane: the lane and the distance along it.
#[derive(Clone, Copy, Debug, PartialEq, Eq, Structural, Hash)]
pub struct Position {
    pub lane: LaneID,
    pub dist_along: Distance,
}

} // verus!

use vstd::prelude::*;
use crate::map::StreetMap;
use crate::parking::ParkingSimState;
use crate::ids::{
    BuildingID, BusStopID, CarID, Distance, IntersectionID, LaneID, PedestrianID, Position, Speed,
    TripID, TurnID,
};

verus! {

#[derive(Clone, Copy, Debug, PartialEq, Eq, Structural, Hash)]
pub enum VehicleType {
    Car,
    Bus,
    Bike,
}

/// What a vehicle is, before it gets an identity.
#[derive(Clone, Copy, Debug, PartialEq, Eq, Structural)]
pub struct VehicleSpec {
    pub vehicle_type: VehicleType,
    pub length: Distance,
    pub max_speed: Option<Speed>,
}

#[derive(Clone, Copy, Debug, PartialEq, Eq, Structural)]
pub struct Vehicle {
    pub id: CarID,
    pub owner: Option<BuildingID>,
    pub vehicle_type: VehicleType,
    pub length: Distance,
    pub max_speed: Option<Speed>,
}

impl VehicleSpec {
    pub open spec fn spec_make(self, id: CarID, owner: Option<BuildingID>) -> Vehicle {
        Vehicle {
            id,
            owner,
            vehicle_type: self.vehicle_type,
            length: self.length,
            max_speed: self.max_speed,
        }
    }

    pub fn make(&self, id: CarID, owner: Option<BuildingID>) -> (r: Vehicle)
        ensures
            r == self.spec_make(id, owner),
    {
        Vehicle {
            id,
            owner,
            vehicle_type: self.vehicle_type,
            length: self.length,
            max_speed: self.max_speed,
        }
    }
}

/// Where a driving trip ends: parked near a building, or leaving the map at a border.
#[derive(Clone, Copy, Debug, PartialEq, Eq, Structural)]
pub enum DrivingGoal {
    ParkNear(BuildingID),
    Border(IntersectionID, LaneID),
}

/// A parking spot: a lane and the index of the spot along it.
#[derive(Clone, Copy, Debug, PartialEq, Eq, Structural, PartialOrd, Ord, Hash)]
pub struct ParkingSpot {
    pub lane: LaneID,
    pub idx: usize,
}

/// What a place on a sidewalk connects to.
#[derive(Clone, Copy, Debug, PartialEq, Eq, Structural)]
pub enum SidewalkPOI {
    ParkingSpot(ParkingSpot),
    Building(BuildingID),
    BusStop(BusStopID),
    Border(IntersectionID),
    /// A bike rack at this position of a biking or driving lane.
    BikeRack(Position),
}

#[derive(Clone, Copy, Debug, PartialEq, Eq, Structural)]
pub struct SidewalkSpot {
    pub connection: SidewalkPOI,
    pub sidewalk_pos: Position,
}

#[derive(Clone, Copy, Debug, PartialEq, Eq, Structural)]
pub enum PathStep {
    Lane(LaneID),
    ContraflowLane(LaneID),
    Turn(TurnID),
}

/// A route through the map, as the path-finding service returns it.
#[derive(Clone, Debug)]
pub struct Path {
    pub steps: Vec<PathStep>,
}

/// What the path-finding service is asked.
#[derive(Clone, Copy, Debug, PartialEq, Eq, Structural)]
pub struct PathRequest {
    pub start: Position,
    pub end: Position,
    pub can_use_bike_lanes: bool,
    pub can_use_bus_lanes: bool,
}

/// A car that appears on the map to start a trip.
#[derive(Clone, Debug)]
pub struct CreateCar {
    pub vehicle: Vehicle,
    pub start_pos: Position,
    pub path: Path,
    pub goal: DrivingGoal,
    pub trip: TripID,
}

/// A pedestrian who appears on a sidewalk to start a trip.
#[derive(Clone, Debug)]
pub struct CreatePedestrian {
    pub id: PedestrianID,
    pub speed: Speed,
    pub start: SidewalkSpot,
    pub goal: SidewalkSpot,
    pub path: Path,
    pub trip: TripID,
}

impl StreetMap {
    pub open spec fn lane_length(&self, l: LaneID) -> Distance {
        self.lanes@[l.0 as int].length
    }

    pub open spec fn goal_valid(&self, g: DrivingGoal) -> bool {
        match g {
            DrivingGoal::ParkNear(b) => b.0 < self.buildings@.len()
                && self.buildings@[b.0 as int].driving_lane.0 < self.lanes@.len(),
            DrivingGoal::Border(_, l) => l.0 < self.lanes@.len(),
        }
    }

    /// Where a driving goal ends: halfway along the driving lane near the building, or at the
    /// end of the border lane.
    pub open spec fn spec_goal_pos(&self, g: DrivingGoal) -> Position {
        match g {
            DrivingGoal::ParkNear(b) => {
                let l = self.buildings@[b.0 as int].driving_lane;
                Position { lane: l, dist_along: (self.lane_length(l) / 2) as Distance }
            },
            DrivingGoal::Border(_, l) => Position { lane: l, dist_along: self.lane_length(l) },
        }
    }

    /// The bike rack for a trip starting on `sidewalk`, if a biking or driving lane is nearby.
    pub open spec fn spec_bike_rack(&self, sidewalk: LaneID) -> Option<SidewalkSpot> {
        match self.lanes@[sidewalk.0 as int].bike_rack {
            Some(p) => Some(
                SidewalkSpot {
                    connection: SidewalkPOI::BikeRack(p),
                    sidewalk_pos: Position {
                        lane: sidewalk,
                        dist_along: (self.lane_length(sidewalk) / 2) as Distance,
                    },
                },
            ),
            None => None,
        }
    }

    pub open spec fn spec_building_spot(&self, b: BuildingID) -> SidewalkSpot {
        SidewalkSpot {
            connection: SidewalkPOI::Building(b),
            sidewalk_pos: self.buildings@[b.0 as int].sidewalk_pos,
        }
    }

    pub open spec fn spec_bus_stop_spot(&self, stop: BusStopID) -> SidewalkSpot {
        SidewalkSpot {
            connection: SidewalkPOI::BusStop(stop),
            sidewalk_pos: self.bus_stops@[stop.0 as int].sidewalk_pos,
        }
    }
}

impl DrivingGoal {
    pub fn goal_pos(&self, map: &StreetMap) -> (r: Position)
        requires
            map.goal_valid(*self),
        ensures
            r == map.spec_goal_pos(*self),
    {
        match self {
            DrivingGoal::ParkNear(b) => {
                let l = map.buildings[b.0].driving_lane;
                Position { lane: l, dist_along: map.lanes[l.0].length / 2 }
            },
            DrivingGoal::Border(_, l) => Position { lane: *l, dist_along: map.lanes[l.0].length },
        }
    }
}

impl SidewalkSpot {
    pub fn bike_rack(sidewalk: LaneID, map: &StreetMap) -> (r: Option<SidewalkSpot>)
        requires
            sidewalk.0 < map.lanes@.len(),
        ensures
            r == map.spec_bike_rack(sidewalk),
    {
        let lane = &map.lanes[sidewalk.0];
        match lane.bike_rack {
            Some(p) => Some(
                SidewalkSpot {
                    connection: SidewalkPOI::BikeRack(p),
                    sidewalk_pos: Position { lane: sidewalk, dist_along: lane.length / 2 },
                },
            ),
            None => None,
        }
    }

    pub fn building(b: BuildingID, map: &StreetMap) -> (r: SidewalkSpot)
        requires
            b.0 < map.buildings@.len(),
        ensures
            r == map.spec_building_spot(b),
    {
        SidewalkSpot {
            connection: SidewalkPOI::Building(b),
            sidewalk_pos: map.buildings[b.0].sidewalk_pos,
        }
    }

    pub fn bus_stop(stop: BusStopID, map: &StreetMap) -> (r: SidewalkSpot)
        requires
            stop.0 < map.bus_stops@.len(),
        ensures
            r == map.spec_bus_stop_spot(stop),
    {
        SidewalkSpot {
            connection: SidewalkPOI::BusStop(stop),
            sidewalk_pos: map.bus_stops[stop.0].sidewalk_pos,
        }
    }

    pub open spec fn spec_parking_spot(spot: ParkingSpot, parking: &ParkingSimState) -> SidewalkSpot {
        SidewalkSpot {
            connection: SidewalkPOI::ParkingSpot(spot),
            sidewalk_pos: parking.spot_state(spot).unwrap().sidewalk_pos,
        }
    }

    pub fn parking_spot(spot: ParkingSpot, parking: &ParkingSimState) -> (r: SidewalkSpot)
        requires
            parking.well_formed(),
            parking.spot_state(spot) is Some,
        ensures
            r == Self::spec_parking_spot(spot, parking),
    {
        let st = parking.get_spot(spot);
        let pos = match st {
            Some(s) => s.sidewalk_pos,
            None => {
                assert(false);
                Position { lane: spot.lane, dist_along: 0 }
            },
        };
        SidewalkSpot { connection: SidewalkPOI::ParkingSpot(spot), sidewalk_pos: pos }
    }
}

} // verus!

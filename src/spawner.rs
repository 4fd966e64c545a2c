use vstd::prelude::*;
use crate::agents::{
    CreateCar, CreatePedestrian, DrivingGoal, ParkingSpot, Path, PathRequest, SidewalkPOI,
    SidewalkSpot, VehicleSpec, VehicleType,
};
use crate::ids::{BusRouteID, BusStopID, CarID, Duration, LaneID, PedestrianID, Position, Speed, TripID};
use crate::map::StreetMap;
use crate::parking::ParkingSimState;
use crate::scheduler::{Command, Scheduler};
use crate::trips::{TripLeg, TripManager};

verus! {

/// A trip to be spawned.
#[derive(Clone, Copy, Debug, PartialEq, Eq, Structural)]
pub enum TripSpec {
    /// A car appears at a position of a lane, from a border or anywhere for debugging.
    CarAppearing { start_pos: Position, vehicle_spec: VehicleSpec, goal: DrivingGoal, ped_speed: Speed },
    UsingParkedCar { start: SidewalkSpot, spot: ParkingSpot, goal: DrivingGoal, ped_speed: Speed },
    JustWalking { start: SidewalkSpot, goal: SidewalkSpot, ped_speed: Speed },
    UsingBike { start: SidewalkSpot, vehicle: VehicleSpec, goal: DrivingGoal, ped_speed: Speed },
    UsingTransit {
        start: SidewalkSpot,
        route: BusRouteID,
        stop1: BusStopID,
        stop2: BusStopID,
        goal: SidewalkSpot,
        ped_speed: Speed,
    },
}

/// Why a trip cannot be scheduled.
#[derive(Clone, Copy, Debug, PartialEq, Eq, Structural)]
pub enum SpawnError {
    /// The car would start closer to the start of its lane than its own length.
    CarTooCloseToStart,
    /// The car would start at or beyond the end of its lane.
    CarBeyondLaneEnd,
    /// The car would start at the very end of the border lane it is headed for.
    CarAtBorderEdge,
    NoCarAtSpot(ParkingSpot),
    /// Another scheduled trip already uses this parked car.
    CarAlreadyClaimed(CarID),
    WalkingToStart,
    /// No biking or driving lane near this sidewalk to take a bike from.
    NoBikeRack(LaneID),
    /// No sidewalk next to the lane where this bike trip ends.
    NoSidewalkNearGoal(LaneID),
}

/// A scheduled trip: start time, the pedestrian and the car it may use, and what it is.
pub type ScheduledTrip = (Duration, Option<PedestrianID>, Option<CarID>, TripSpec);

/// The identifiers, lanes, buildings and stops that a trip names exist, so that scheduling and
/// spawning it can look them up.
pub open spec fn refs_valid(entry: ScheduledTrip, map: &StreetMap) -> bool {
    let (_, ped, car, spec) = entry;
    match spec {
        TripSpec::CarAppearing { start_pos, goal, .. } => start_pos.lane.0 < map.lanes@.len()
            && map.goal_valid(goal) && car is Some && (goal is ParkNear ==> ped is Some),
        TripSpec::UsingParkedCar { start, goal, .. } => map.goal_valid(goal) && ped is Some
            && start.connection is Building,
        TripSpec::JustWalking { .. } => ped is Some,
        TripSpec::UsingBike { start, goal, .. } => start.sidewalk_pos.lane.0 < map.lanes@.len()
            && map.goal_valid(goal) && ped is Some && car is Some,
        TripSpec::UsingTransit { stop1, .. } => stop1.0 < map.bus_stops@.len() && ped is Some,
    }
}

/// The check that `schedule_trip` fails with, given the parked cars already claimed.
pub open spec fn schedule_error(
    claimed: Seq<CarID>,
    spec: TripSpec,
    map: &StreetMap,
    parking: &ParkingSimState,
) -> Option<SpawnError> {
    match spec {
        TripSpec::CarAppearing { start_pos, vehicle_spec, goal, .. } => {
            if start_pos.dist_along < vehicle_spec.length {
                Some(SpawnError::CarTooCloseToStart)
            } else if start_pos.dist_along >= map.lane_length(start_pos.lane) {
                Some(SpawnError::CarBeyondLaneEnd)
            } else if goal matches DrivingGoal::Border(_, end) && start_pos.lane == end
                && start_pos.dist_along == map.lane_length(end) {
                Some(SpawnError::CarAtBorderEdge)
            } else {
                None
            }
        },
        TripSpec::UsingParkedCar { spot, .. } => match parking.car_at(spot) {
            None => Some(SpawnError::NoCarAtSpot(spot)),
            Some(v) => if claimed.contains(v.id) {
                Some(SpawnError::CarAlreadyClaimed(v.id))
            } else {
                None
            },
        },
        TripSpec::JustWalking { start, goal, .. } => if start == goal {
            Some(SpawnError::WalkingToStart)
        } else {
            None
        },
        TripSpec::UsingBike { start, goal, .. } => {
            if map.spec_bike_rack(start.sidewalk_pos.lane) is None {
                Some(SpawnError::NoBikeRack(start.sidewalk_pos.lane))
            } else if goal is ParkNear && map.lanes@[map.spec_goal_pos(goal).lane.0 as int].sidewalk is None {
                Some(SpawnError::NoSidewalkNearGoal(map.spec_goal_pos(goal).lane))
            } else {
                None
            }
        },
        TripSpec::UsingTransit { .. } => None,
    }
}

/// A scheduled trip can be spawned: what it names exists, its parked car is there and belongs
/// to the building it starts from, and its bike rack exists.
pub open spec fn spawnable(entry: ScheduledTrip, map: &StreetMap, parking: &ParkingSimState) -> bool {
    &&& refs_valid(entry, map)
    &&& match entry.3 {
        TripSpec::UsingParkedCar { start, spot, .. } => parking.car_at(spot) matches Some(v)
            && start.connection == SidewalkPOI::Building(v.owner.unwrap()) && v.owner is Some,
        TripSpec::UsingBike { start, .. } => map.spec_bike_rack(start.sidewalk_pos.lane) is Some,
        _ => true,
    }
}

/// What a trip's path request looks up exists: its goal, parking spot, bike rack or bus stop.
pub open spec fn request_possible(spec: TripSpec, map: &StreetMap, parking: &ParkingSimState) -> bool {
    match spec {
        TripSpec::CarAppearing { goal, .. } => map.goal_valid(goal),
        TripSpec::UsingParkedCar { spot, .. } => parking.spot_state(spot) is Some,
        TripSpec::JustWalking { .. } => true,
        TripSpec::UsingBike { start, .. } => start.sidewalk_pos.lane.0 < map.lanes@.len()
            && map.spec_bike_rack(start.sidewalk_pos.lane) is Some,
        TripSpec::UsingTransit { stop1, .. } => stop1.0 < map.bus_stops@.len(),
    }
}

/// What the path-finding service is asked for a trip's first leg.
pub open spec fn request_of(spec: TripSpec, map: &StreetMap, parking: &ParkingSimState) -> PathRequest {
    match spec {
        TripSpec::CarAppearing { start_pos, vehicle_spec, goal, .. } => PathRequest {
            start: start_pos,
            end: map.spec_goal_pos(goal),
            can_use_bus_lanes: vehicle_spec.vehicle_type == VehicleType::Bus,
            can_use_bike_lanes: vehicle_spec.vehicle_type == VehicleType::Bike,
        },
        TripSpec::UsingParkedCar { start, spot, .. } => PathRequest {
            start: start.sidewalk_pos,
            end: SidewalkSpot::spec_parking_spot(spot, parking).sidewalk_pos,
            can_use_bike_lanes: false,
            can_use_bus_lanes: false,
        },
        TripSpec::JustWalking { start, goal, .. } => PathRequest {
            start: start.sidewalk_pos,
            end: goal.sidewalk_pos,
            can_use_bike_lanes: false,
            can_use_bus_lanes: false,
        },
        TripSpec::UsingBike { start, .. } => PathRequest {
            start: start.sidewalk_pos,
            end: map.spec_bike_rack(start.sidewalk_pos.lane).unwrap().sidewalk_pos,
            can_use_bike_lanes: false,
            can_use_bus_lanes: false,
        },
        TripSpec::UsingTransit { start, stop1, .. } => PathRequest {
            start: start.sidewalk_pos,
            end: map.spec_bus_stop_spot(stop1).sidewalk_pos,
            can_use_bike_lanes: false,
            can_use_bus_lanes: false,
        },
    }
}

impl TripSpec {
    pub fn get_pathfinding_request(&self, map: &StreetMap, parking: &ParkingSimState) -> (r: PathRequest)
        requires
            parking.well_formed(),
            request_possible(*self, map, parking),
        ensures
            r == request_of(*self, map, parking),
    {
        match self {
            TripSpec::CarAppearing { start_pos, vehicle_spec, goal, .. } => PathRequest {
                start: *start_pos,
                end: goal.goal_pos(map),
                can_use_bus_lanes: vehicle_spec.vehicle_type == VehicleType::Bus,
                can_use_bike_lanes: vehicle_spec.vehicle_type == VehicleType::Bike,
            },
            TripSpec::UsingParkedCar { start, spot, .. } => PathRequest {
                start: start.sidewalk_pos,
                end: SidewalkSpot::parking_spot(*spot, parking).sidewalk_pos,
                can_use_bike_lanes: false,
                can_use_bus_lanes: false,
            },
            TripSpec::JustWalking { start, goal, .. } => PathRequest {
                start: start.sidewalk_pos,
                end: goal.sidewalk_pos,
                can_use_bike_lanes: false,
                can_use_bus_lanes: false,
            },
            TripSpec::UsingBike { start, .. } => {
                let end = match SidewalkSpot::bike_rack(start.sidewalk_pos.lane, map) {
                    Some(spot) => spot.sidewalk_pos,
                    None => {
                        assert(false);
                        start.sidewalk_pos
                    },
                };
                PathRequest {
                    start: start.sidewalk_pos,
                    end,
                    can_use_bike_lanes: false,
                    can_use_bus_lanes: false,
                }
            },
            TripSpec::UsingTransit { start, stop1, .. } => PathRequest {
                start: start.sidewalk_pos,
                end: SidewalkSpot::bus_stop(*stop1, map).sidewalk_pos,
                can_use_bike_lanes: false,
                can_use_bus_lanes: false,
            },
        }
    }
}

/// Collects the trips to spawn, then spawns them all at once.
pub struct TripSpawner {
    pub parked_cars_claimed: Vec<CarID>,
    pub trips: Vec<ScheduledTrip>,
}

impl TripSpawner {
    /// Every scheduled trip can be spawned, and no parked car is claimed twice.
    pub open spec fn well_formed(&self, map: &StreetMap, parking: &ParkingSimState) -> bool {
        &&& forall|k: int| 0 <= k < self.trips@.len() ==> spawnable(#[trigger] self.trips@[k], map, parking)
        &&& forall|i: int, j: int|
            0 <= i < self.parked_cars_claimed@.len() && 0 <= j < self.parked_cars_claimed@.len() && i
                != j ==> #[trigger] self.parked_cars_claimed@[i] != #[trigger] self.parked_cars_claimed@[j]
    }

    pub fn new() -> (r: TripSpawner)
        ensures
            r.parked_cars_claimed@.len() == 0,
            r.trips@.len() == 0,
    {
        TripSpawner { parked_cars_claimed: Vec::new(), trips: Vec::new() }
    }

    pub fn is_done(&self) -> (r: bool)
        ensures
            r == (self.trips@.len() == 0),
    {
        self.trips.len() == 0
    }

    /// The check that a trip fails, if any: a car placed too close to its lane's start, past
    /// its end or at its border's edge; a parked car missing or already claimed; a walk to its own
    /// start; a bike trip without a bike rack or without a sidewalk near its goal. Scheduling a
    /// trip that fails one is a fatal error, so callers run this first.
    pub fn check_trip(
        &self,
        ped_id: Option<PedestrianID>,
        car_id: Option<CarID>,
        spec: TripSpec,
        map: &StreetMap,
        parking: &ParkingSimState,
    ) -> (r: Option<SpawnError>)
        requires
            parking.well_formed(),
            refs_valid((0, ped_id, car_id, spec), map),
        ensures
            r == schedule_error(self.parked_cars_claimed@, spec, map, parking),
    {
        match &spec {
            TripSpec::CarAppearing { start_pos, vehicle_spec, goal, .. } => {
                let len = map.lanes[start_pos.lane.0].length;
                if start_pos.dist_along < vehicle_spec.length {
                    return Some(SpawnError::CarTooCloseToStart);
                }
                if start_pos.dist_along >= len {
                    return Some(SpawnError::CarBeyondLaneEnd);
                }
                match goal {
                    DrivingGoal::Border(_, end_lane) => {
                        if start_pos.lane == *end_lane && start_pos.dist_along
                            == map.lanes[end_lane.0].length {
                            return Some(SpawnError::CarAtBorderEdge);
                        }
                    },
                    DrivingGoal::ParkNear(_) => {},
                }
            },
            TripSpec::UsingParkedCar { spot, .. } => {
                let car = match parking.get_car_at_spot(*spot) {
                    Some(v) => v.id,
                    None => {
                        return Some(SpawnError::NoCarAtSpot(*spot));
                    },
                };
                if contains_car(&self.parked_cars_claimed, car) {
                    return Some(SpawnError::CarAlreadyClaimed(car));
                }
            },
            TripSpec::JustWalking { start, goal, .. } => {
                if start == goal {
                    return Some(SpawnError::WalkingToStart);
                }
            },
            TripSpec::UsingBike { start, goal, .. } => {
                let lane = start.sidewalk_pos.lane;
                if SidewalkSpot::bike_rack(lane, map).is_none() {
                    return Some(SpawnError::NoBikeRack(lane));
                }
                if let DrivingGoal::ParkNear(_) = goal {
                    let last_lane = goal.goal_pos(map).lane;
                    if map.lanes[last_lane.0].sidewalk.is_none() {
                        return Some(SpawnError::NoSidewalkNearGoal(last_lane));
                    }
                }
            },
            TripSpec::UsingTransit { .. } => {},
        }
        None
    }

    /// Queues a trip, which passes its checks, to start at `start_time`. A trip that uses a
    /// parked car claims it.
    pub fn schedule_trip(
        &mut self,
        start_time: Duration,
        ped_id: Option<PedestrianID>,
        car_id: Option<CarID>,
        spec: TripSpec,
        map: &StreetMap,
        parking: &ParkingSimState,
    )
        requires
            parking.well_formed(),
            old(self).well_formed(map, parking),
            refs_valid((start_time, ped_id, car_id, spec), map),
            spec matches TripSpec::UsingParkedCar { start, spot, .. } ==> (
            parking.car_at(spot) matches Some(v) ==> v.owner is Some && start.connection
                == SidewalkPOI::Building(v.owner.unwrap())),
            schedule_error(old(self).parked_cars_claimed@, spec, map, parking) is None,
        ensures
            final(self).well_formed(map, parking),
            final(self).trips@ == old(self).trips@.push((start_time, ped_id, car_id, spec)),
            final(self).parked_cars_claimed@ == match spec {
                TripSpec::UsingParkedCar { spot, .. } => old(self).parked_cars_claimed@.push(
                    parking.car_at(spot).unwrap().id,
                ),
                _ => old(self).parked_cars_claimed@,
            },
    {
        if let TripSpec::UsingParkedCar { spot, .. } = spec {
            match parking.get_car_at_spot(spot) {
                Some(v) => {
                    let ghost before = self.parked_cars_claimed@;
                    self.parked_cars_claimed.push(v.id);
                    proof {
                        assert forall|i: int, j: int|
                            0 <= i < self.parked_cars_claimed@.len() && 0 <= j
                                < self.parked_cars_claimed@.len() && i != j implies #[trigger] self.parked_cars_claimed@[i]
                            != #[trigger] self.parked_cars_claimed@[j] by {
                            if i < before.len() && j < before.len() {
                                assert(before[i] == self.parked_cars_claimed@[i]);
                                assert(before[j] == self.parked_cars_claimed@[j]);
                            } else if i < before.len() {
                                assert(before.contains(self.parked_cars_claimed@[i]));
                            } else {
                                assert(before.contains(self.parked_cars_claimed@[j]));
                            }
                        }
                    }
                },
                None => {
                    assert(false);
                },
            }
        }
        let ghost before = self.trips@;
        self.trips.push((start_time, ped_id, car_id, spec));
        proof {
            assert forall|k: int| 0 <= k < self.trips@.len() implies spawnable(#[trigger] self.trips@[k], map, parking) by {
                if k < before.len() {
                    assert(self.trips@[k] == before[k]);
                }
            }
        }
    }
}

fn contains_car(v: &Vec<CarID>, c: CarID) -> (r: bool)
    ensures
        r == v@.contains(c),
{
    let mut i: usize = 0;
    while i < v.len()
        invariant
            i <= v@.len(),
            forall|k: int| 0 <= k < i ==> v@[k] != c,
        decreases v.len() - i,
    {
        if v[i] == c {
            return true;
        }
        i += 1;
    }
    false
}

/// The walk from the parking spot to the building, for a driving goal that parks near one.
pub open spec fn walk_after_parking(
    goal: DrivingGoal,
    ped: Option<PedestrianID>,
    speed: Speed,
    map: &StreetMap,
) -> Seq<TripLeg> {
    match goal {
        DrivingGoal::ParkNear(b) => seq![TripLeg::Walk(ped.unwrap(), speed, map.spec_building_spot(b))],
        DrivingGoal::Border(_, _) => Seq::empty(),
    }
}

/// The legs of a scheduled trip.
pub open spec fn legs_of(entry: ScheduledTrip, map: &StreetMap, parking: &ParkingSimState) -> Seq<
    TripLeg,
> {
    let (_, ped, car, spec) = entry;
    match spec {
        TripSpec::CarAppearing { vehicle_spec, goal, ped_speed, .. } => seq![
            TripLeg::Drive(vehicle_spec.spec_make(car.unwrap(), None), goal),
        ] + walk_after_parking(goal, ped, ped_speed, map),
        TripSpec::UsingParkedCar { spot, goal, ped_speed, .. } => seq![
            TripLeg::Walk(ped.unwrap(), ped_speed, SidewalkSpot::spec_parking_spot(spot, parking)),
            TripLeg::Drive(parking.car_at(spot).unwrap(), goal),
        ] + walk_after_parking(goal, ped, ped_speed, map),
        TripSpec::JustWalking { goal, ped_speed, .. } => seq![
            TripLeg::Walk(ped.unwrap(), ped_speed, goal),
        ],
        TripSpec::UsingBike { start, vehicle, goal, ped_speed } => seq![
            TripLeg::Walk(ped.unwrap(), ped_speed, map.spec_bike_rack(start.sidewalk_pos.lane).unwrap()),
            TripLeg::Drive(vehicle.spec_make(car.unwrap(), None), goal),
        ] + walk_after_parking(goal, ped, ped_speed, map),
        TripSpec::UsingTransit { route, stop1, stop2, goal, ped_speed, .. } => seq![
            TripLeg::Walk(ped.unwrap(), ped_speed, map.spec_bus_stop_spot(stop1)),
            TripLeg::RideBus(ped.unwrap(), route, stop2),
            TripLeg::Walk(ped.unwrap(), ped_speed, goal),
        ],
    }
}

/// The command that starts a scheduled trip, along `path`, as trip `trip`.
pub open spec fn spawn_command(
    entry: ScheduledTrip,
    path: Path,
    trip: TripID,
    map: &StreetMap,
    parking: &ParkingSimState,
) -> Command {
    let (_, ped, car, spec) = entry;
    match spec {
        TripSpec::CarAppearing { start_pos, vehicle_spec, goal, .. } => Command::SpawnCar(
            CreateCar { vehicle: vehicle_spec.spec_make(car.unwrap(), None), start_pos, path, goal, trip },
        ),
        TripSpec::UsingParkedCar { start, spot, ped_speed, .. } => Command::SpawnPed(
            CreatePedestrian {
                id: ped.unwrap(),
                speed: ped_speed,
                start,
                goal: SidewalkSpot::spec_parking_spot(spot, parking),
                path,
                trip,
            },
        ),
        TripSpec::JustWalking { start, goal, ped_speed } => Command::SpawnPed(
            CreatePedestrian { id: ped.unwrap(), speed: ped_speed, start, goal, path, trip },
        ),
        TripSpec::UsingBike { start, ped_speed, .. } => Command::SpawnPed(
            CreatePedestrian {
                id: ped.unwrap(),
                speed: ped_speed,
                start,
                goal: map.spec_bike_rack(start.sidewalk_pos.lane).unwrap(),
                path,
                trip,
            },
        ),
        TripSpec::UsingTransit { start, stop1, ped_speed, .. } => Command::SpawnPed(
            CreatePedestrian {
                id: ped.unwrap(),
                speed: ped_speed,
                start,
                goal: map.spec_bus_stop_spot(stop1),
                path,
                trip,
            },
        ),
    }
}

/// The trips among the first `k` that have a path, each with its path and the identifier it
/// gets when trip identifiers continue from `first`.
pub open spec fn spawned_upto(
    entries: Seq<ScheduledTrip>,
    paths: Seq<Option<Path>>,
    first: nat,
    k: int,
) -> Seq<(ScheduledTrip, Path, TripID)>
    decreases k,
{
    if k <= 0 {
        Seq::empty()
    } else {
        let prev = spawned_upto(entries, paths, first, k - 1);
        match paths[k - 1] {
            None => prev,
            Some(p) => prev.push((entries[k - 1], p, TripID((first + prev.len()) as usize))),
        }
    }
}

/// The indices among the first `k` whose path could not be found.
pub open spec fn dropped_upto(paths: Seq<Option<Path>>, k: int) -> Seq<usize>
    decreases k,
{
    if k <= 0 {
        Seq::empty()
    } else {
        let prev = dropped_upto(paths, k - 1);
        match paths[k - 1] {
            None => prev.push((k - 1) as usize),
            Some(_) => prev,
        }
    }
}

fn walk_after_parking_legs(
    legs: &mut Vec<TripLeg>,
    goal: DrivingGoal,
    ped: PedestrianID,
    speed: Speed,
    map: &StreetMap,
)
    requires
        map.goal_valid(goal),
    ensures
        final(legs)@ == old(legs)@ + walk_after_parking(goal, Some(ped), speed, map),
{
    if let DrivingGoal::ParkNear(b) = goal {
        legs.push(TripLeg::Walk(ped, speed, SidewalkSpot::building(b, map)));
        assert(final(legs)@ =~= old(legs)@ + walk_after_parking(goal, Some(ped), speed, map));
    } else {
        assert(old(legs)@ + walk_after_parking(goal, Some(ped), speed, map) =~= old(legs)@);
    }
}

/// Starts one trip: records its legs and schedules the command that spawns its first agent.
fn spawn_trip(
    entry: ScheduledTrip,
    path: Path,
    map: &StreetMap,
    parking: &ParkingSimState,
    trips: &mut TripManager,
    scheduler: &mut Scheduler,
)
    requires
        parking.well_formed(),
        spawnable(entry, map, parking),
        old(trips).well_formed(),
        old(scheduler).well_formed(),
        entry.0 >= old(scheduler).latest_time,
    ensures
        final(trips).well_formed(),
        final(trips).trips@.len() == old(trips).trips@.len() + 1,
        forall|i: int| 0 <= i < old(trips).trips@.len() ==> #[trigger] final(trips).trips@[i] == old(trips).trips@[i],
        ({
            let t = final(trips).trips@[old(trips).trips@.len() as int];
            &&& t.id == TripID(old(trips).trips@.len() as usize)
            &&& t.spawned_at == entry.0
            &&& t.legs@ == legs_of(entry, map, parking)
            &&& t.current_leg == 0
            &&& !t.finished
        }),
        final(scheduler).well_formed(),
        final(scheduler).latest_time == old(scheduler).latest_time,
        final(scheduler).items@ == old(scheduler).items@.push(
            (
                entry.0,
                spawn_command(entry, path, TripID(old(trips).trips@.len() as usize), map, parking),
            ),
        ),
{
    let (start_time, ped_id, car_id, spec) = entry;
    let ghost legs_spec = legs_of(entry, map, parking);
    match spec {
        TripSpec::CarAppearing { start_pos, vehicle_spec, goal, ped_speed } => {
            let car = car_id.unwrap();
            let vehicle = vehicle_spec.make(car, None);
            let mut legs: Vec<TripLeg> = Vec::new();
            legs.push(TripLeg::Drive(vehicle, goal));
            if let DrivingGoal::ParkNear(b) = goal {
                legs.push(TripLeg::Walk(ped_id.unwrap(), ped_speed, SidewalkSpot::building(b, map)));
            }
            assert(legs@ =~= legs_spec);
            let trip = trips.new_trip(start_time, legs);
            scheduler.push(
                start_time,
                Command::SpawnCar(CreateCar { vehicle, start_pos, path, goal, trip }),
            );
        },
        TripSpec::UsingParkedCar { start, spot, goal, ped_speed } => {
            let vehicle = parking.get_car_at_spot(spot).unwrap();
            let ped = ped_id.unwrap();
            let parking_spot = SidewalkSpot::parking_spot(spot, parking);
            let mut legs: Vec<TripLeg> = Vec::new();
            legs.push(TripLeg::Walk(ped, ped_speed, parking_spot));
            legs.push(TripLeg::Drive(vehicle, goal));
            walk_after_parking_legs(&mut legs, goal, ped, ped_speed, map);
            assert(legs@ =~= legs_spec);
            let trip = trips.new_trip(start_time, legs);
            scheduler.push(
                start_time,
                Command::SpawnPed(
                    CreatePedestrian { id: ped, speed: ped_speed, start, goal: parking_spot, path, trip },
                ),
            );
        },
        TripSpec::JustWalking { start, goal, ped_speed } => {
            let ped = ped_id.unwrap();
            let mut legs: Vec<TripLeg> = Vec::new();
            legs.push(TripLeg::Walk(ped, ped_speed, goal));
            assert(legs@ =~= legs_spec);
            let trip = trips.new_trip(start_time, legs);
            scheduler.push(
                start_time,
                Command::SpawnPed(CreatePedestrian { id: ped, speed: ped_speed, start, goal, path, trip }),
            );
        },
        TripSpec::UsingBike { start, vehicle, goal, ped_speed } => {
            let ped = ped_id.unwrap();
            let walk_to = SidewalkSpot::bike_rack(start.sidewalk_pos.lane, map).unwrap();
            let mut legs: Vec<TripLeg> = Vec::new();
            legs.push(TripLeg::Walk(ped, ped_speed, walk_to));
            legs.push(TripLeg::Drive(vehicle.make(car_id.unwrap(), None), goal));
            walk_after_parking_legs(&mut legs, goal, ped, ped_speed, map);
            assert(legs@ =~= legs_spec);
            let trip = trips.new_trip(start_time, legs);
            scheduler.push(
                start_time,
                Command::SpawnPed(
                    CreatePedestrian { id: ped, speed: ped_speed, start, goal: walk_to, path, trip },
                ),
            );
        },
        TripSpec::UsingTransit { start, route, stop1, stop2, goal, ped_speed } => {
            let ped = ped_id.unwrap();
            let walk_to = SidewalkSpot::bus_stop(stop1, map);
            let mut legs: Vec<TripLeg> = Vec::new();
            legs.push(TripLeg::Walk(ped, ped_speed, walk_to));
            legs.push(TripLeg::RideBus(ped, route, stop2));
            legs.push(TripLeg::Walk(ped, ped_speed, goal));
            assert(legs@ =~= legs_spec);
            let trip = trips.new_trip(start_time, legs);
            scheduler.push(
                start_time,
                Command::SpawnPed(
                    CreatePedestrian { id: ped, speed: ped_speed, start, goal: walk_to, path, trip },
                ),
            );
        },
    }
}

impl TripSpawner {
    /// What the path-finding service is asked for each scheduled trip, in order.
    pub fn pathfinding_requests(&self, map: &StreetMap, parking: &ParkingSimState) -> (r: Vec<PathRequest>)
        requires
            parking.well_formed(),
            self.well_formed(map, parking),
        ensures
            r@.len() == self.trips@.len(),
            forall|k: int| 0 <= k < r@.len() ==> #[trigger] r@[k] == request_of(self.trips@[k].3, map, parking),
    {
        let mut reqs: Vec<PathRequest> = Vec::new();
        let mut k: usize = 0;
        while k < self.trips.len()
            invariant
                parking.well_formed(),
                self.well_formed(map, parking),
                k <= self.trips@.len(),
                reqs@.len() == k,
                forall|j: int| 0 <= j < k ==> #[trigger] reqs@[j] == request_of(self.trips@[j].3, map, parking),
            decreases self.trips.len() - k,
        {
            let spec = self.trips[k].3;
            assert(spawnable(self.trips@[k as int], map, parking));
            reqs.push(spec.get_pathfinding_request(map, parking));
            k += 1;
        }
        reqs
    }

    /// Spawns every scheduled trip, given the path found for each (in the order of
    /// `pathfinding_requests`). A trip without a path is dropped; the others get their legs in
    /// `trips` and a command at their start time in `scheduler`. Afterwards nothing is scheduled
    /// and no parked car is claimed. Returns the indices of the dropped trips.
    pub fn spawn_all(
        &mut self,
        map: &StreetMap,
        parking: &ParkingSimState,
        paths: Vec<Option<Path>>,
        trips: &mut TripManager,
        scheduler: &mut Scheduler,
    ) -> (dropped: Vec<usize>)
        requires
            parking.well_formed(),
            old(self).well_formed(map, parking),
            paths@.len() == old(self).trips@.len(),
            old(trips).well_formed(),
            old(scheduler).well_formed(),
            forall|k: int| 0 <= k < old(self).trips@.len() ==> (#[trigger] old(self).trips@[k]).0 >= old(scheduler).latest_time,
        ensures
            final(self).trips@.len() == 0,
            final(self).parked_cars_claimed@.len() == 0,
            dropped@ == dropped_upto(paths@, paths@.len() as int),
            final(trips).well_formed(),
            ({
                let s = spawned_upto(old(self).trips@, paths@, old(trips).trips@.len(), paths@.len() as int);
                let n0 = old(trips).trips@.len();
                &&& final(trips).trips@.len() == n0 + s.len()
                &&& forall|i: int| 0 <= i < n0 ==> #[trigger] final(trips).trips@[i] == old(trips).trips@[i]
                &&& forall|j: int|
                    0 <= j < s.len() ==> {
                        let t = #[trigger] final(trips).trips@[n0 + j];
                        &&& t.id == s[j].2
                        &&& t.spawned_at == s[j].0.0
                        &&& t.legs@ == legs_of(s[j].0, map, parking)
                        &&& t.current_leg == 0
                        &&& !t.finished
                    }
                &&& final(scheduler).items@ == old(scheduler).items@ + s.map_values(
                    |x: (ScheduledTrip, Path, TripID)| (x.0.0, spawn_command(x.0, x.1, x.2, map, parking)),
                )
            }),
            final(scheduler).well_formed(),
            final(scheduler).latest_time == old(scheduler).latest_time,
    {
        let ghost entries = self.trips@;
        let ghost all_paths = paths@;
        let ghost n0 = trips.trips@.len();
        let ghost items0 = scheduler.items@;
        let mut paths = paths;
        let mut dropped: Vec<usize> = Vec::new();
        let n = self.trips.len();
        let mut k: usize = 0;
        while k < n
            invariant
                n == entries.len(),
                all_paths.len() == n,
                k <= n,
                paths@ == all_paths.skip(k as int),
                self.trips@ == entries,
                parking.well_formed(),
                self.well_formed(map, parking),
                forall|j: int| 0 <= j < n ==> (#[trigger] entries[j]).0 >= scheduler.latest_time,
                scheduler.latest_time == old(scheduler).latest_time,
                trips.well_formed(),
                scheduler.well_formed(),
                dropped@ == dropped_upto(all_paths, k as int),
                ({
                    let s = spawned_upto(entries, all_paths, n0, k as int);
                    &&& trips.trips@.len() == n0 + s.len()
                    &&& forall|i: int| 0 <= i < n0 ==> #[trigger] trips.trips@[i] == old(trips).trips@[i]
                    &&& forall|j: int|
                        0 <= j < s.len() ==> {
                            let t = #[trigger] trips.trips@[n0 + j];
                            &&& t.id == s[j].2
                            &&& t.spawned_at == s[j].0.0
                            &&& t.legs@ == legs_of(s[j].0, map, parking)
                            &&& t.current_leg == 0
                            &&& !t.finished
                        }
                    &&& scheduler.items@ == items0 + s.map_values(
                        |x: (ScheduledTrip, Path, TripID)| (x.0.0, spawn_command(x.0, x.1, x.2, map, parking)),
                    )
                }),
            decreases n - k,
        {
            let entry = self.trips[k];
            let maybe_path = paths.remove(0);
            proof {
                assert(maybe_path == all_paths[k as int]);
                assert(paths@ =~= all_paths.skip(k as int + 1));
            }
            let ghost s = spawned_upto(entries, all_paths, n0, k as int);
            let ghost before_trips = trips.trips@;
            let ghost before_items = scheduler.items@;
            match maybe_path {
                None => {
                    dropped.push(k);
                },
                Some(path) => {
                    assert(spawnable(entries[k as int], map, parking));
                    spawn_trip(entry, path, map, parking, trips, scheduler);
                    proof {
                        let s2 = spawned_upto(entries, all_paths, n0, k as int + 1);
                        assert(s2 == s.push((entry, path, TripID((n0 + s.len()) as usize))));
                        assert forall|j: int| 0 <= j < s2.len() implies {
                            let t = #[trigger] trips.trips@[n0 + j];
                            &&& t.id == s2[j].2
                            &&& t.spawned_at == s2[j].0.0
                            &&& t.legs@ == legs_of(s2[j].0, map, parking)
                            &&& t.current_leg == 0
                            &&& !t.finished
                        } by {
                            if j < s.len() {
                                assert(trips.trips@[n0 + j] == before_trips[n0 + j]);
                                assert(s2[j] == s[j]);
                            }
                        }
                        let f = |x: (ScheduledTrip, Path, TripID)| (x.0.0, spawn_command(x.0, x.1, x.2, map, parking));
                        assert(s2.map_values(f) =~= s.map_values(f).push(f((entry, path, TripID((n0 + s.len()) as usize)))));
                        assert(scheduler.items@ =~= items0 + s2.map_values(f));
                    }
                },
            }
            k += 1;
        }
        self.trips = Vec::new();
        self.parked_cars_claimed = Vec::new();
        dropped
    }
}

} // verus!

use sim::agents::{
    DrivingGoal, ParkingSpot, Path, PathStep, SidewalkPOI, SidewalkSpot, Vehicle, VehicleSpec,
    VehicleType,
};
use sim::ids::{
    BuildingID, BusRouteID, BusStopID, CarID, IntersectionID, LaneID, PedestrianID, Position,
    RoadID, TripID,
};
use sim::map::{Building, BusStop, Lane, LaneType, Road, StreetMap};
use sim::parking::{ParkingSimState, SpotState};
use sim::scheduler::{Command, Scheduler};
use sim::spawner::{SpawnError, TripSpawner, TripSpec};
use sim::trips::{TripLeg, TripManager};

// Lane 0: a driving lane; lane 1: the sidewalk beside it; lane 2: a parking lane;
// lane 3: a sidewalk with no bike rack nearby.
fn map() -> StreetMap {
    let lane = |i: usize, lane_type: LaneType, bike_rack: Option<Position>, sidewalk: Option<LaneID>| Lane {
        id: LaneID(i),
        parent: RoadID(0),
        lane_type,
        length: 100_000,
        bike_rack,
        sidewalk,
    };
    StreetMap {
        lanes: vec![
            lane(0, LaneType::Driving, None, Some(LaneID(1))),
            lane(1, LaneType::Sidewalk, Some(Position { lane: LaneID(0), dist_along: 50_000 }), None),
            lane(2, LaneType::Parking, None, None),
            lane(3, LaneType::Sidewalk, None, None),
        ],
        roads: vec![Road {
            id: RoadID(0),
            highway: None,
            children_forwards: vec![(LaneID(0), LaneType::Driving), (LaneID(1), LaneType::Sidewalk)],
            children_backwards: vec![(LaneID(2), LaneType::Parking), (LaneID(3), LaneType::Sidewalk)],
        }],
        intersections: vec![],
        turns: vec![],
        buildings: vec![Building {
            id: BuildingID(0),
            sidewalk_pos: Position { lane: LaneID(1), dist_along: 30_000 },
            driving_lane: LaneID(0),
        }],
        bus_stops: vec![BusStop { id: BusStopID(0), sidewalk_pos: Position { lane: LaneID(1), dist_along: 70_000 } }],
        controls: vec![],
    }
}

fn spot() -> ParkingSpot {
    ParkingSpot { lane: LaneID(2), idx: 0 }
}

fn parked_car() -> Vehicle {
    Vehicle { id: CarID(5), owner: Some(BuildingID(0)), vehicle_type: VehicleType::Car, length: 4_000, max_speed: None }
}

fn parking() -> ParkingSimState {
    ParkingSimState {
        spots: vec![SpotState {
            spot: spot(),
            sidewalk_pos: Position { lane: LaneID(1), dist_along: 10_000 },
            car: Some(parked_car()),
        }],
    }
}

fn sidewalk(dist: u64) -> SidewalkSpot {
    SidewalkSpot { connection: SidewalkPOI::Building(BuildingID(0)), sidewalk_pos: Position { lane: LaneID(1), dist_along: dist } }
}

fn car_spec() -> VehicleSpec {
    VehicleSpec { vehicle_type: VehicleType::Car, length: 5_000, max_speed: None }
}

fn appearing(dist: u64, goal: DrivingGoal) -> TripSpec {
    TripSpec::CarAppearing {
        start_pos: Position { lane: LaneID(0), dist_along: dist },
        vehicle_spec: car_spec(),
        goal,
        ped_speed: 1_000,
    }
}

fn parked_trip() -> TripSpec {
    TripSpec::UsingParkedCar { start: sidewalk(30_000), spot: spot(), goal: DrivingGoal::Border(IntersectionID(0), LaneID(0)), ped_speed: 1_000 }
}

fn walking(from: u64, to: u64) -> TripSpec {
    TripSpec::JustWalking { start: sidewalk(from), goal: sidewalk(to), ped_speed: 1_000 }
}

fn path() -> Path {
    Path { steps: vec![PathStep::Lane(LaneID(1))] }
}

#[test]
fn second_claim_of_a_parked_car_fails() {
    let (map, parking) = (map(), parking());
    let mut spawner = TripSpawner::new();
    assert_eq!(spawner.check_trip(Some(PedestrianID(1)), None, parked_trip(), &map, &parking), None);
    spawner.schedule_trip(0, Some(PedestrianID(1)), None, parked_trip(), &map, &parking);
    assert_eq!(spawner.parked_cars_claimed, vec![CarID(5)]);
    assert_eq!(
        spawner.check_trip(Some(PedestrianID(2)), None, parked_trip(), &map, &parking),
        Some(SpawnError::CarAlreadyClaimed(CarID(5)))
    );
    assert_eq!(spawner.trips.len(), 1);
}

#[test]
fn schedule_checks_each_kind_of_trip() {
    let (map, parking) = (map(), parking());
    let mut s = TripSpawner::new();
    let border = DrivingGoal::Border(IntersectionID(0), LaneID(0));
    assert_eq!(s.check_trip(None, Some(CarID(1)), appearing(4_000, border), &map, &parking), Some(SpawnError::CarTooCloseToStart));
    assert_eq!(s.check_trip(None, Some(CarID(1)), appearing(100_000, border), &map, &parking), Some(SpawnError::CarBeyondLaneEnd));
    assert_eq!(s.check_trip(Some(PedestrianID(1)), None, walking(5, 5), &map, &parking), Some(SpawnError::WalkingToStart));
    let empty = ParkingSimState { spots: vec![] };
    assert_eq!(s.check_trip(Some(PedestrianID(1)), None, parked_trip(), &map, &empty), Some(SpawnError::NoCarAtSpot(spot())));
    let no_rack = TripSpec::UsingBike {
        start: SidewalkSpot { connection: SidewalkPOI::Border(IntersectionID(0)), sidewalk_pos: Position { lane: LaneID(3), dist_along: 0 } },
        vehicle: car_spec(),
        goal: border,
        ped_speed: 1_000,
    };
    assert_eq!(s.check_trip(Some(PedestrianID(1)), Some(CarID(2)), no_rack, &map, &parking), Some(SpawnError::NoBikeRack(LaneID(3))));
    let mut no_sidewalk = crate::map();
    no_sidewalk.lanes[0].sidewalk = None;
    let bike = TripSpec::UsingBike { start: sidewalk(0), vehicle: car_spec(), goal: DrivingGoal::ParkNear(BuildingID(0)), ped_speed: 1_000 };
    assert_eq!(s.check_trip(Some(PedestrianID(1)), Some(CarID(2)), bike, &no_sidewalk, &parking), Some(SpawnError::NoSidewalkNearGoal(LaneID(0))));
    assert!(s.is_done());
    assert_eq!(s.check_trip(Some(PedestrianID(1)), Some(CarID(2)), bike, &map, &parking), None);
    s.schedule_trip(0, Some(PedestrianID(1)), Some(CarID(2)), bike, &map, &parking);
    assert!(!s.is_done());
}

#[test]
fn path_requests_follow_each_trip() {
    let (map, parking) = (map(), parking());
    let mut s = TripSpawner::new();
    s.schedule_trip(0, Some(PedestrianID(1)), Some(CarID(1)), appearing(10_000, DrivingGoal::ParkNear(BuildingID(0))), &map, &parking);
    s.schedule_trip(0, Some(PedestrianID(2)), None, parked_trip(), &map, &parking);
    let transit = TripSpec::UsingTransit { start: sidewalk(0), route: BusRouteID(0), stop1: BusStopID(0), stop2: BusStopID(0), goal: sidewalk(90_000), ped_speed: 1_000 };
    s.schedule_trip(0, Some(PedestrianID(3)), None, transit, &map, &parking);
    let reqs = s.pathfinding_requests(&map, &parking);
    assert_eq!(reqs[0].start, Position { lane: LaneID(0), dist_along: 10_000 });
    assert_eq!(reqs[0].end, Position { lane: LaneID(0), dist_along: 50_000 });
    assert!(!reqs[0].can_use_bike_lanes && !reqs[0].can_use_bus_lanes);
    assert_eq!(reqs[1].end, Position { lane: LaneID(1), dist_along: 10_000 });
    assert_eq!(reqs[2].end, Position { lane: LaneID(1), dist_along: 70_000 });
}

#[test]
fn trip_without_path_is_dropped_and_others_proceed() {
    let (map, parking) = (map(), parking());
    let mut s = TripSpawner::new();
    s.schedule_trip(7, Some(PedestrianID(1)), None, walking(0, 90_000), &map, &parking);
    s.schedule_trip(8, Some(PedestrianID(2)), None, walking(10, 20), &map, &parking);
    s.schedule_trip(9, Some(PedestrianID(3)), None, parked_trip(), &map, &parking);
    let mut trips = TripManager::new();
    let mut scheduler = Scheduler::new();
    let dropped = s.spawn_all(&map, &parking, vec![None, Some(path()), Some(path())], &mut trips, &mut scheduler);
    assert_eq!(dropped, vec![0]);
    assert!(s.is_done());
    assert!(s.parked_cars_claimed.is_empty());
    assert_eq!(trips.trips.len(), 2);
    assert_eq!(trips.trips[0].legs, vec![TripLeg::Walk(PedestrianID(2), 1_000, sidewalk(20))]);
    let parking_spot = SidewalkSpot { connection: SidewalkPOI::ParkingSpot(spot()), sidewalk_pos: Position { lane: LaneID(1), dist_along: 10_000 } };
    assert_eq!(
        trips.trips[1].legs,
        vec![
            TripLeg::Walk(PedestrianID(3), 1_000, parking_spot),
            TripLeg::Drive(parked_car(), DrivingGoal::Border(IntersectionID(0), LaneID(0))),
        ]
    );
    assert_eq!(scheduler.items.len(), 2);
    match &scheduler.items[0] {
        (8, Command::SpawnPed(p)) => {
            assert_eq!(p.id, PedestrianID(2));
            assert_eq!(p.trip, TripID(0));
            assert_eq!(p.goal, sidewalk(20));
        }
        other => panic!("unexpected {:?}", other),
    }
    match &scheduler.items[1] {
        (9, Command::SpawnPed(p)) => {
            assert_eq!(p.goal, parking_spot);
            assert_eq!(p.trip, TripID(1));
        }
        other => panic!("unexpected {:?}", other),
    }
}

#[test]
fn appearing_car_spawns_at_start_time_toward_border() {
    let (map, parking) = (map(), parking());
    let mut s = TripSpawner::new();
    let goal = DrivingGoal::Border(IntersectionID(0), LaneID(0));
    s.schedule_trip(42, None, Some(CarID(3)), appearing(10_000, goal), &map, &parking);
    let mut trips = TripManager::new();
    let mut scheduler = Scheduler::new();
    assert!(s.spawn_all(&map, &parking, vec![Some(path())], &mut trips, &mut scheduler).is_empty());
    let vehicle = car_spec().make(CarID(3), None);
    assert_eq!(trips.trips[0].legs, vec![TripLeg::Drive(vehicle, goal)]);
    match &scheduler.items[0] {
        (42, Command::SpawnCar(c)) => {
            assert_eq!(c.vehicle, vehicle);
            assert_eq!(c.goal, goal);
            assert_eq!(c.start_pos, Position { lane: LaneID(0), dist_along: 10_000 });
        }
        other => panic!("unexpected {:?}", other),
    }
}

#[test]
fn bike_and_transit_trips_get_their_legs() {
    let (map, parking) = (map(), parking());
    let mut s = TripSpawner::new();
    let bike = TripSpec::UsingBike { start: sidewalk(0), vehicle: car_spec(), goal: DrivingGoal::ParkNear(BuildingID(0)), ped_speed: 1_000 };
    s.schedule_trip(0, Some(PedestrianID(1)), Some(CarID(2)), bike, &map, &parking);
    let transit = TripSpec::UsingTransit { start: sidewalk(0), route: BusRouteID(4), stop1: BusStopID(0), stop2: BusStopID(0), goal: sidewalk(90_000), ped_speed: 1_000 };
    s.schedule_trip(0, Some(PedestrianID(3)), None, transit, &map, &parking);
    let mut trips = TripManager::new();
    let mut scheduler = Scheduler::new();
    s.spawn_all(&map, &parking, vec![Some(path()), Some(path())], &mut trips, &mut scheduler);
    let rack = SidewalkSpot { connection: SidewalkPOI::BikeRack(Position { lane: LaneID(0), dist_along: 50_000 }), sidewalk_pos: Position { lane: LaneID(1), dist_along: 50_000 } };
    let building = SidewalkSpot { connection: SidewalkPOI::Building(BuildingID(0)), sidewalk_pos: Position { lane: LaneID(1), dist_along: 30_000 } };
    assert_eq!(
        trips.trips[0].legs,
        vec![
            TripLeg::Walk(PedestrianID(1), 1_000, rack),
            TripLeg::Drive(car_spec().make(CarID(2), None), DrivingGoal::ParkNear(BuildingID(0))),
            TripLeg::Walk(PedestrianID(1), 1_000, building),
        ]
    );
    let stop = SidewalkSpot { connection: SidewalkPOI::BusStop(BusStopID(0)), sidewalk_pos: Position { lane: LaneID(1), dist_along: 70_000 } };
    assert_eq!(
        trips.trips[1].legs,
        vec![
            TripLeg::Walk(PedestrianID(3), 1_000, stop),
            TripLeg::RideBus(PedestrianID(3), BusRouteID(4), BusStopID(0)),
            TripLeg::Walk(PedestrianID(3), 1_000, sidewalk(90_000)),
        ]
    );
}

#[test]
fn legs_advance_until_the_trip_finishes() {
    let mut trips = TripManager::new();
    let legs = vec![
        TripLeg::Walk(PedestrianID(1), 1_000, sidewalk(1)),
        TripLeg::RideBus(PedestrianID(1), BusRouteID(0), BusStopID(0)),
    ];
    let id = trips.new_trip(5, legs.clone());
    assert_eq!(id, TripID(0));
    assert_eq!(trips.trips[0].current_leg, 0);
    assert_eq!(trips.finish_leg(id), Some(legs[1]));
    assert_eq!(trips.trips[0].current_leg, 1);
    assert_eq!(trips.finish_leg(id), None);
    assert_eq!(trips.trips[0].current_leg, 1);
    assert!(trips.trips[0].finished);
}

use sim::ids::{AgentID, CarID, IntersectionID, LaneID, PedestrianID, RoadID, TurnID};
use sim::intersection::IntersectionSimState;
use sim::map::{
    ControlTrafficSignal, Cycle, Intersection, IntersectionControl, Lane, LaneType, Road,
    StreetMap, Turn, TurnPriority, TurnType,
};
use sim::scheduler::{Command, Scheduler};
use sim::sim::Sim;
use sim::stop_signs::{all_way_stop, ControlStopSign};

const SEC: u64 = 1_000_000_000;

fn lane(i: usize, road: usize) -> Lane {
    Lane {
        id: LaneID(i),
        parent: RoadID(road),
        lane_type: LaneType::Driving,
        length: 100_000,
        bike_rack: None,
        sidewalk: None,
    }
}

fn turn_id(src: usize, dst: usize) -> TurnID {
    TurnID { parent: IntersectionID(0), src: LaneID(src), dst: LaneID(dst) }
}

// Lanes 0-3 enter from north, south, east, west; lanes 4-7 leave to north, south, east, west.
fn north_south() -> TurnID {
    turn_id(0, 5)
}
fn south_north() -> TurnID {
    turn_id(1, 4)
}
fn east_west() -> TurnID {
    turn_id(2, 7)
}
fn west_east() -> TurnID {
    turn_id(3, 6)
}

fn four_way(control: IntersectionControl) -> StreetMap {
    let lanes = (0..8).map(|i| lane(i, i % 4)).collect();
    let roads = (0..4)
        .map(|r| Road {
            id: RoadID(r),
            highway: Some("residential".to_string()),
            children_forwards: vec![(LaneID(r), LaneType::Driving)],
            children_backwards: vec![(LaneID(r + 4), LaneType::Driving)],
        })
        .collect();
    let turns = vec![
        Turn {
            id: north_south(),
            turn_type: TurnType::Straight,
            crosses: vec![east_west(), west_east()],
        },
        Turn {
            id: south_north(),
            turn_type: TurnType::Straight,
            crosses: vec![east_west(), west_east()],
        },
        Turn { id: east_west(), turn_type: TurnType::Straight, crosses: vec![] },
        Turn { id: west_east(), turn_type: TurnType::Straight, crosses: vec![] },
    ];
    StreetMap {
        lanes,
        roads,
        intersections: vec![Intersection {
            id: IntersectionID(0),
            turns: vec![north_south(), south_north(), east_west(), west_east()],
            roads: (0..4).map(RoadID).collect(),
            incoming_lanes: (0..4).map(LaneID).collect(),
            outgoing_lanes: (4..8).map(LaneID).collect(),
        }],
        turns,
        buildings: vec![],
        bus_stops: vec![],
        controls: vec![control],
    }
}

fn stop_sign_map() -> StreetMap {
    let mut map = four_way(IntersectionControl::Freeform);
    let sign = all_way_stop(&map, IntersectionID(0));
    map.controls[0] = IntersectionControl::StopSign(sign);
    map
}

fn signal_map() -> StreetMap {
    four_way(IntersectionControl::TrafficSignal(ControlTrafficSignal {
        id: IntersectionID(0),
        cycles: vec![
            Cycle { duration: 10 * SEC, priority_turns: vec![north_south()], yield_turns: vec![] },
            Cycle { duration: 10 * SEC, priority_turns: vec![east_west()], yield_turns: vec![] },
        ],
    }))
}

fn car(i: usize) -> AgentID {
    AgentID::Car(CarID(i))
}

fn update_car_times(s: &Scheduler, id: usize) -> Vec<u64> {
    s.items
        .iter()
        .filter(|(_, c)| matches!(c, Command::UpdateCar(CarID(x)) if *x == id))
        .map(|(t, _)| *t)
        .collect()
}

#[test]
fn conflicting_turns_are_detected() {
    let map = four_way(IntersectionControl::Freeform);
    assert!(map.conflicts_between(north_south(), east_west()));
    assert!(map.conflicts_between(east_west(), north_south()));
    assert!(!map.conflicts_between(north_south(), south_north()));
    assert!(!map.conflicts_between(north_south(), north_south()));
}

#[test]
fn stop_sign_accepts_in_arrival_order_and_holds_conflicting_car() {
    let map = stop_sign_map();
    let mut scheduler = Scheduler::new();
    let mut sim = IntersectionSimState::new(&map, &mut scheduler);
    // Two cars on approaches that do not conflict, at 10.0 s and 10.1 s.
    assert!(sim.maybe_start_turn(car(1), north_south(), 10 * SEC, &map));
    assert!(sim.maybe_start_turn(car(2), south_north(), 10 * SEC + SEC / 10, &map));
    // A third, conflicting car at 10.2 s waits.
    assert!(!sim.maybe_start_turn(car(3), east_west(), 10 * SEC + 2 * SEC / 10, &map));
    assert_eq!(sim.state[0].waiting.len(), 1);
    // The first car clears; the waiting car is woken but still blocked by the second.
    sim.turn_finished(11 * SEC, car(1), north_south(), &mut scheduler);
    assert_eq!(update_car_times(&scheduler, 3), vec![11 * SEC]);
    assert!(!sim.maybe_start_turn(car(3), east_west(), 11 * SEC, &map));
    assert_eq!(sim.state[0].waiting.len(), 1);
    sim.turn_finished(12 * SEC, car(2), south_north(), &mut scheduler);
    assert!(sim.maybe_start_turn(car(3), east_west(), 12 * SEC, &map));
    assert!(sim.state[0].waiting.is_empty());
    assert_eq!(sim.get_accepted_agents(IntersectionID(0)), vec![car(3)]);
}

#[test]
fn stop_sign_serves_equal_priority_first_come_first() {
    let map = stop_sign_map();
    let mut scheduler = Scheduler::new();
    let mut sim = IntersectionSimState::new(&map, &mut scheduler);
    assert!(sim.maybe_start_turn(car(1), east_west(), 0, &map));
    // Both of these conflict with the accepted turn and queue in this order.
    assert!(!sim.maybe_start_turn(car(2), north_south(), SEC, &map));
    assert!(!sim.maybe_start_turn(car(3), south_north(), 2 * SEC, &map));
    sim.turn_finished(3 * SEC, car(1), east_west(), &mut scheduler);
    // The later request may not pass the earlier one of equal priority.
    assert!(!sim.maybe_start_turn(car(3), south_north(), 3 * SEC, &map));
    assert!(sim.maybe_start_turn(car(2), north_south(), 3 * SEC, &map));
    assert!(sim.maybe_start_turn(car(3), south_north(), 3 * SEC, &map));
}

#[test]
fn stop_sign_holds_lower_priority_while_higher_waits() {
    let mut map = four_way(IntersectionControl::Freeform);
    let sign = ControlStopSign {
        id: IntersectionID(0),
        turns: vec![
            (north_south(), TurnPriority::Priority),
            (south_north(), TurnPriority::Priority),
            (east_west(), TurnPriority::Stop),
            (west_east(), TurnPriority::Yield),
        ],
    };
    map.controls[0] = IntersectionControl::StopSign(sign);
    let mut scheduler = Scheduler::new();
    let mut sim = IntersectionSimState::new(&map, &mut scheduler);
    assert!(sim.maybe_start_turn(car(1), east_west(), 0, &map));
    assert!(!sim.maybe_start_turn(car(2), north_south(), SEC, &map));
    sim.turn_finished(2 * SEC, car(1), east_west(), &mut scheduler);
    // A Yield turn that conflicts with nothing accepted still waits for the Priority one.
    assert!(!sim.maybe_start_turn(car(3), west_east(), 2 * SEC, &map));
    assert!(sim.maybe_start_turn(car(2), north_south(), 2 * SEC, &map));
}

#[test]
fn signal_rejects_new_turns_during_overtime() {
    let map = signal_map();
    let mut scheduler = Scheduler::new();
    let mut sim = IntersectionSimState::new(&map, &mut scheduler);
    // The first cycle lets north-south go; a car enters at 9.9 s.
    assert!(sim.maybe_start_turn(car(1), north_south(), 9 * SEC + 9 * SEC / 10, &map));
    // At 10.1 s the new cycle allows east-west, but the first car is still turning.
    let later = 10 * SEC + SEC / 10;
    assert!(sim.is_in_overtime(later, IntersectionID(0), &map));
    assert!(!sim.maybe_start_turn(car(2), east_west(), later, &map));
    sim.turn_finished(10 * SEC + 2 * SEC / 10, car(1), north_south(), &mut scheduler);
    assert!(!sim.is_in_overtime(10 * SEC + 2 * SEC / 10, IntersectionID(0), &map));
    assert!(sim.maybe_start_turn(car(2), east_west(), 10 * SEC + 2 * SEC / 10, &map));
}

#[test]
fn signal_rejects_turn_banned_in_cycle() {
    let map = signal_map();
    let mut scheduler = Scheduler::new();
    let mut sim = IntersectionSimState::new(&map, &mut scheduler);
    assert!(!sim.maybe_start_turn(car(1), east_west(), SEC, &map));
    assert!(sim.maybe_start_turn(car(1), east_west(), 15 * SEC, &map));
    assert!(!sim.is_in_overtime(15 * SEC, IntersectionID(0), &map));
}

#[test]
fn signal_cycle_and_remaining_time() {
    let map = signal_map();
    let signal = map.maybe_get_traffic_signal(IntersectionID(0)).unwrap();
    assert_eq!(signal.current_cycle_and_remaining_time(0), (0, 10 * SEC));
    assert_eq!(signal.current_cycle_and_remaining_time(9 * SEC), (0, SEC));
    assert_eq!(signal.current_cycle_and_remaining_time(10 * SEC), (1, 10 * SEC));
    assert_eq!(signal.current_cycle_and_remaining_time(25 * SEC), (0, 5 * SEC));
}

#[test]
fn new_schedules_first_signal_update() {
    let map = signal_map();
    let mut scheduler = Scheduler::new();
    let _sim = IntersectionSimState::new(&map, &mut scheduler);
    assert_eq!(scheduler.items.len(), 1);
    assert_eq!(scheduler.items[0].0, 10 * SEC);
    assert!(matches!(scheduler.items[0].1, Command::UpdateIntersection(IntersectionID(0))));
}

#[test]
fn update_intersection_wakes_waiters_and_schedules_next_cycle() {
    let map = signal_map();
    let mut scheduler = Scheduler::new();
    let mut sim = IntersectionSimState::new(&map, &mut scheduler);
    assert!(!sim.maybe_start_turn(AgentID::Pedestrian(PedestrianID(4)), east_west(), SEC, &map));
    let popped = scheduler.pop().unwrap();
    assert_eq!(popped.0, 10 * SEC);
    sim.update_intersection(10 * SEC, IntersectionID(0), &map, &mut scheduler);
    assert_eq!(scheduler.items.len(), 2);
    assert!(matches!(scheduler.items[0], (t, Command::UpdatePed(PedestrianID(4))) if t == 10 * SEC));
    assert!(matches!(scheduler.items[1], (t, Command::UpdateIntersection(IntersectionID(0))) if t == 20 * SEC));
}

#[test]
fn freeform_accepts_unless_conflict() {
    let map = four_way(IntersectionControl::Freeform);
    let mut scheduler = Scheduler::new();
    let mut sim = IntersectionSimState::new(&map, &mut scheduler);
    assert!(sim.maybe_start_turn(car(1), north_south(), 0, &map));
    assert!(sim.maybe_start_turn(car(2), south_north(), 0, &map));
    assert!(!sim.maybe_start_turn(car(3), west_east(), 0, &map));
    // Asking again does not queue twice.
    assert!(!sim.maybe_start_turn(car(3), west_east(), 0, &map));
    assert_eq!(sim.state[0].waiting.len(), 1);
    assert!(!sim.nobody_headed_towards(LaneID(5), IntersectionID(0)));
    assert!(sim.nobody_headed_towards(LaneID(6), IntersectionID(0)));
    assert_eq!(sim.get_accepted_agents(IntersectionID(0)), vec![car(1), car(2)]);
}

#[test]
fn sim_step_handles_signal_updates_and_hands_out_agent_events() {
    let map = signal_map();
    let mut sim = Sim::new(&map, Some(42)).unwrap();
    assert_eq!(sim.time, 0);
    assert_eq!(sim.total_cars(), 0);
    assert!(!sim.intersections.maybe_start_turn(car(1), east_west(), SEC, &map));
    // Nothing is due in the first five seconds.
    assert!(sim.next_event(&map, 5 * SEC).is_none());
    sim.finish_step(&map, 5 * SEC);
    assert_eq!(sim.time, 5 * SEC);
    // At the end of the first cycle the signal wakes the waiting car.
    let mut seen = Vec::new();
    while let Some((t, cmd)) = sim.next_event(&map, 12 * SEC) {
        seen.push((t, cmd.key()));
    }
    sim.finish_step(&map, 12 * SEC);
    assert_eq!(seen, vec![(10 * SEC, (4, 0)), (10 * SEC, (2, 1))]);
    assert_eq!(sim.scheduler.peek_time(), Some(20 * SEC));
    assert!(sim.scheduler.items.iter().all(|(t, _)| *t >= sim.time));
}

#[test]
fn choose_roads_picks_a_permutation_prefix() {
    let map = signal_map();
    let mut sim = Sim::new(&map, Some(7)).unwrap();
    let candidates: Vec<RoadID> = (0..5).map(RoadID).collect();
    let picked = sim.choose_roads(candidates.clone(), 3);
    assert_eq!(picked.len(), 3);
    assert!(picked.iter().all(|r| candidates.contains(r)));
    let mut dedup = picked.clone();
    dedup.sort();
    dedup.dedup();
    assert_eq!(dedup.len(), 3);
    assert_eq!(sim.choose_roads(candidates.clone(), 10).len(), 5);
    assert!(sim.choose_roads(vec![], 2).is_empty());
}

#[test]
fn choose_roads_shuffles() {
    let map = signal_map();
    let mut sim = Sim::new(&map, Some(42)).unwrap();
    let candidates: Vec<RoadID> = (0..20).map(RoadID).collect();
    let picked = sim.choose_roads(candidates.clone(), 20);
    assert_ne!(picked, candidates);
    let mut sorted = picked.clone();
    sorted.sort();
    assert_eq!(sorted, candidates);
}

fn run_once() -> (Vec<(u64, (u8, usize))>, String) {
    let map = signal_map();
    let mut sim = Sim::new(&map, Some(42)).unwrap();
    let mut seen = Vec::new();
    let requests = [(1, east_west()), (2, north_south()), (3, west_east()), (4, south_north())];
    for (k, (id, turn)) in requests.iter().enumerate() {
        let now = (k as u64) * 4 * SEC;
        while let Some((t, cmd)) = sim.next_event(&map, now) {
            seen.push((t, cmd.key()));
        }
        sim.finish_step(&map, now);
        sim.intersections.maybe_start_turn(car(*id), *turn, now, &map);
    }
    while let Some((t, cmd)) = sim.next_event(&map, 60 * SEC) {
        seen.push((t, cmd.key()));
    }
    sim.finish_step(&map, 60 * SEC);
    (seen, format!("{:?}", sim.intersections))
}

#[test]
fn identical_runs_give_identical_results() {
    let (a, state_a) = run_once();
    let (b, state_b) = run_once();
    assert_eq!(a, b);
    assert_eq!(state_a, state_b);
    assert!(!a.is_empty());
}

#[test]
fn sim_without_seed_draws_from_entropy() {
    let map = signal_map();
    let sim = Sim::new(&map, None).unwrap();
    assert_eq!(sim.time, 0);
    assert_eq!(sim.scheduler.items.len(), 1);
    assert_eq!(sim.scheduler.items[0].0, 10 * SEC);
}

use sim::ids::{IntersectionID, LaneID, RoadID, TurnID};
use sim::map::{
    rank_of_highway, Intersection, IntersectionControl, Lane, LaneType, Road, StreetMap, Turn,
    TurnPriority, TurnType,
};
use sim::stop_signs::{
    all_way_stop, find_unknown_highway, for_degenerate_and_deadend, smart_assignment, ControlStopSign,
    StopSignError, StopSignWarnings,
};

fn lane(i: usize, road: usize) -> Lane {
    Lane {
        id: LaneID(i),
        parent: RoadID(road),
        lane_type: LaneType::Driving,
        length: 100_000,
        bike_rack: None,
        sidewalk: None,
    }
}

fn turn_id(src: usize, dst: usize) -> TurnID {
    TurnID { parent: IntersectionID(0), src: LaneID(src), dst: LaneID(dst) }
}

// Lanes 0-3 enter from north, south, east, west; lanes 4-7 leave to north, south, east, west.
fn north_south() -> TurnID {
    turn_id(0, 5)
}
fn south_north() -> TurnID {
    turn_id(1, 4)
}
fn east_west() -> TurnID {
    turn_id(2, 7)
}
fn west_east() -> TurnID {
    turn_id(3, 6)
}

fn four_way(control: IntersectionControl) -> StreetMap {
    let lanes = (0..8).map(|i| lane(i, i % 4)).collect();
    let roads = (0..4)
        .map(|r| Road {
            id: RoadID(r),
            highway: Some("residential".to_string()),
            children_forwards: vec![(LaneID(r), LaneType::Driving)],
            children_backwards: vec![(LaneID(r + 4), LaneType::Driving)],
        })
        .collect();
    let turns = vec![
        Turn {
            id: north_south(),
            turn_type: TurnType::Straight,
            crosses: vec![east_west(), west_east()],
        },
        Turn {
            id: south_north(),
            turn_type: TurnType::Straight,
            crosses: vec![east_west(), west_east()],
        },
        Turn { id: east_west(), turn_type: TurnType::Straight, crosses: vec![] },
        Turn { id: west_east(), turn_type: TurnType::Straight, crosses: vec![] },
    ];
    StreetMap {
        lanes,
        roads,
        intersections: vec![Intersection {
            id: IntersectionID(0),
            turns: vec![north_south(), south_north(), east_west(), west_east()],
            roads: (0..4).map(RoadID).collect(),
            incoming_lanes: (0..4).map(LaneID).collect(),
            outgoing_lanes: (4..8).map(LaneID).collect(),
        }],
        turns,
        buildings: vec![],
        bus_stops: vec![],
        controls: vec![control],
    }
}

fn with_highways(kinds: [&str; 4]) -> StreetMap {
    let mut map = four_way(IntersectionControl::Freeform);
    for (r, k) in kinds.iter().enumerate() {
        map.roads[r].highway = Some(k.to_string());
    }
    map
}

fn priorities(sign: &ControlStopSign) -> Vec<(TurnID, TurnPriority)> {
    sign.turns.clone()
}

#[test]
fn highway_ranks_follow_the_table() {
    let expected = [
        ("motorway", 20),
        ("motorway_link", 19),
        ("trunk", 17),
        ("trunk_link", 16),
        ("primary", 15),
        ("primary_link", 14),
        ("secondary", 13),
        ("secondary_link", 12),
        ("tertiary", 10),
        ("tertiary_link", 9),
        ("residential", 5),
        ("footway", 1),
        ("unclassified", 0),
        ("road", 0),
    ];
    for (name, rank) in expected {
        assert_eq!(rank_of_highway(&name.to_string()), Some(rank), "{}", name);
    }
    assert_eq!(rank_of_highway(&"cycleway".to_string()), None);
}

#[test]
fn equal_ranks_make_an_all_way_stop() {
    let map = with_highways(["residential"; 4]);
    let sign = smart_assignment(&map, IntersectionID(0)).0;
    assert_eq!(sign.id, IntersectionID(0));
    assert_eq!(
        priorities(&sign),
        vec![
            (north_south(), TurnPriority::Stop),
            (south_north(), TurnPriority::Stop),
            (east_west(), TurnPriority::Stop),
            (west_east(), TurnPriority::Stop),
        ]
    );
}

#[test]
fn major_road_gets_priority() {
    let map = with_highways(["primary", "primary", "residential", "residential"]);
    let sign = ControlStopSign::new(&map, IntersectionID(0)).0;
    assert_eq!(
        priorities(&sign),
        vec![
            (north_south(), TurnPriority::Priority),
            (south_north(), TurnPriority::Priority),
            (east_west(), TurnPriority::Stop),
            (west_east(), TurnPriority::Stop),
        ]
    );
    assert!(sign.is_priority_lane(LaneID(0)));
    assert!(!sign.is_priority_lane(LaneID(2)));
    assert_eq!(sign.get_priority(east_west()), TurnPriority::Stop);
    assert_eq!(sign.validate(&map), Ok(StopSignWarnings { missing: vec![], extra: vec![] }));
}

#[test]
fn conflicting_or_left_major_turns_yield() {
    let mut map = with_highways(["primary", "residential", "primary", "residential"]);
    map.turns[2].turn_type = TurnType::Left;
    let sign = smart_assignment(&map, IntersectionID(0)).0;
    assert_eq!(
        priorities(&sign),
        vec![
            (north_south(), TurnPriority::Priority),
            (south_north(), TurnPriority::Stop),
            (east_west(), TurnPriority::Yield),
            (west_east(), TurnPriority::Stop),
        ]
    );
    let mut map = with_highways(["primary", "residential", "primary", "residential"]);
    map.turns[2].turn_type = TurnType::Right;
    let sign = smart_assignment(&map, IntersectionID(0)).0;
    // East-west crosses north-south, which already has priority.
    assert_eq!(sign.get_priority(east_west()), TurnPriority::Yield);
}

#[test]
fn missing_highway_tag_ranks_lowest() {
    let mut map = with_highways(["secondary", "secondary", "secondary", "secondary"]);
    map.roads[3].highway = None;
    let sign = smart_assignment(&map, IntersectionID(0)).0;
    assert_eq!(sign.get_priority(north_south()), TurnPriority::Priority);
    assert_eq!(sign.get_priority(west_east()), TurnPriority::Stop);
}

#[test]
fn unknown_highway_is_an_error() {
    let map = with_highways(["primary", "residential", "bogus", "residential"]);
    assert_eq!(find_unknown_highway(&map, IntersectionID(0)), Some(RoadID(2)));
    let known = with_highways(["primary", "residential", "footway", "residential"]);
    assert_eq!(find_unknown_highway(&known, IntersectionID(0)), None);
    // Only more than two roads are ranked.
    let mut dead_end = with_highways(["bogus"; 4]);
    dead_end.intersections[0].roads = vec![RoadID(0), RoadID(1)];
    assert_eq!(find_unknown_highway(&dead_end, IntersectionID(0)), None);
}

#[test]
fn dead_end_gives_priority_except_crosswalks() {
    let mut map = four_way(IntersectionControl::Freeform);
    map.intersections[0].roads = vec![RoadID(0), RoadID(1)];
    map.intersections[0].turns = vec![north_south(), south_north(), east_west()];
    map.turns[2].turn_type = TurnType::Crosswalk;
    let (sign, fell_back) = smart_assignment(&map, IntersectionID(0));
    assert!(!fell_back);
    assert_eq!(
        priorities(&sign),
        vec![
            (north_south(), TurnPriority::Priority),
            (south_north(), TurnPriority::Priority),
            (east_west(), TurnPriority::Stop),
        ]
    );
}

#[test]
fn degenerate_conflict_falls_back_to_all_way_stop() {
    let mut map = four_way(IntersectionControl::Freeform);
    map.intersections[0].roads = vec![RoadID(0), RoadID(1)];
    let (sign, fell_back) = for_degenerate_and_deadend(&map, IntersectionID(0));
    assert!(fell_back);
    assert!(sign.turns.iter().all(|(_, p)| *p == TurnPriority::Stop));
    assert_eq!(sign.turns.len(), 4);
    assert!(smart_assignment(&map, IntersectionID(0)).1);
}

#[test]
fn validate_reports_missing_turns_and_conflicts() {
    let map = four_way(IntersectionControl::Freeform);
    let partial = ControlStopSign {
        id: IntersectionID(0),
        turns: vec![(north_south(), TurnPriority::Stop), (east_west(), TurnPriority::Stop)],
    };
    assert_eq!(
        partial.validate(&map),
        Ok(StopSignWarnings { missing: vec![south_north(), west_east()], extra: vec![] })
    );
    let mut fewer = four_way(IntersectionControl::Freeform);
    fewer.intersections[0].turns = vec![north_south(), south_north(), east_west()];
    let all = all_way_stop(&map, IntersectionID(0));
    assert_eq!(all.validate(&fewer), Ok(StopSignWarnings { missing: vec![], extra: vec![west_east()] }));
    let bad = ControlStopSign {
        id: IntersectionID(0),
        turns: vec![(north_south(), TurnPriority::Priority), (east_west(), TurnPriority::Priority)],
    };
    assert_eq!(
        bad.validate(&map),
        Err(StopSignError::ConflictingPriorityTurns(north_south(), east_west()))
    );
}

#[test]
fn could_be_priority_checks_existing_priority_turns() {
    let map = four_way(IntersectionControl::Freeform);
    let sign = ControlStopSign {
        id: IntersectionID(0),
        turns: vec![(north_south(), TurnPriority::Priority), (east_west(), TurnPriority::Yield)],
    };
    assert!(!sign.could_be_priority_turn(east_west(), &map));
    assert!(sign.could_be_priority_turn(south_north(), &map));
    let stop = all_way_stop(&map, IntersectionID(0));
    assert!(stop.could_be_priority_turn(east_west(), &map));
}

use sim::editor::{blinkers_lit, can_change_lane_type, next_type, next_valid_type, MapEdits, RoadEditor, ShowOwnerState};
use sim::ids::{LaneID, RoadID};
use sim::map::{Lane, LaneType, Road};

fn lane(i: usize, lane_type: LaneType) -> Lane {
    Lane { id: LaneID(i), parent: RoadID(0), lane_type, length: 1_000, bike_rack: None, sidewalk: None }
}

fn road(fwd: Vec<LaneType>, back: Vec<LaneType>) -> Road {
    let n = fwd.len();
    Road {
        id: RoadID(0),
        highway: None,
        children_forwards: fwd.into_iter().enumerate().map(|(i, t)| (LaneID(i), t)).collect(),
        children_backwards: back.into_iter().enumerate().map(|(i, t)| (LaneID(n + i), t)).collect(),
    }
}

#[test]
fn lane_types_cycle() {
    assert_eq!(next_type(LaneType::Driving), LaneType::Parking);
    assert_eq!(next_type(LaneType::Parking), LaneType::Biking);
    assert_eq!(next_type(LaneType::Biking), LaneType::Bus);
    assert_eq!(next_type(LaneType::Bus), LaneType::Driving);
}

#[test]
fn one_parking_lane_per_side() {
    let r = road(vec![LaneType::Driving, LaneType::Parking], vec![LaneType::Driving]);
    assert!(!can_change_lane_type(&r, &lane(0, LaneType::Driving), LaneType::Parking));
    assert!(can_change_lane_type(&r, &lane(2, LaneType::Driving), LaneType::Parking));
    // Driving cannot become parking here, so biking comes next.
    assert_eq!(next_valid_type(&r, &lane(0, LaneType::Driving)), Some(LaneType::Biking));
}

#[test]
fn no_adjacent_bike_lanes() {
    let r = road(vec![LaneType::Driving, LaneType::Biking, LaneType::Parking], vec![]);
    assert!(!can_change_lane_type(&r, &lane(0, LaneType::Driving), LaneType::Biking));
    assert!(!can_change_lane_type(&r, &lane(2, LaneType::Parking), LaneType::Biking));
    assert!(can_change_lane_type(&r, &lane(1, LaneType::Biking), LaneType::Bus));
    assert_eq!(next_valid_type(&r, &lane(2, LaneType::Parking)), Some(LaneType::Bus));
}

#[test]
fn road_editor_keeps_edits() {
    let edits = MapEdits { edits_name: "x".to_string(), lane_overrides: vec![(LaneID(3), LaneType::Bus)] };
    let editor = RoadEditor::new(edits);
    assert!(matches!(editor, RoadEditor::Inactive(_)));
    assert_eq!(editor.get_edits().edits_name, "x");
    assert_eq!(editor.get_edits().lane_overrides, vec![(LaneID(3), LaneType::Bus)]);
    assert!(matches!(ShowOwnerState::new(), ShowOwnerState::Inactive));
}

#[test]
fn blinkers_blink_every_300_ms() {
    assert!(blinkers_lit(0));
    assert!(blinkers_lit(149));
    assert!(!blinkers_lit(150));
    assert!(!blinkers_lit(299));
    assert!(blinkers_lit(300));
    assert!(!blinkers_lit(450));
    assert!(blinkers_lit(999));
}

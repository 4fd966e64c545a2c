use vstd::prelude::*;
use crate::ids::{BuildingID, CarID, LaneID, RoadID};
use crate::map::{Lane, LaneType, Road};

verus! {

#[derive(Clone, Copy, Debug, PartialEq, Eq, Structural, Hash)]
pub enum BuildingType {
    Residence,
    Business,
    Unknown,
}

/// A building as drawn.
pub struct DrawBuilding {
    pub id: BuildingID,
}

/// An extra shape drawn over the map.
#[derive(Clone, Copy, Debug, PartialEq, Eq, Structural, PartialOrd, Ord, Hash)]
pub struct ExtraShapeID(pub usize);

/// The user's changes to the map.
#[derive(Clone, Debug)]
pub struct MapEdits {
    pub edits_name: String,
    pub lane_overrides: Vec<(LaneID, LaneType)>,
}

pub enum RoadEditor {
    Inactive(MapEdits),
    Active(MapEdits),
}

impl RoadEditor {
    pub fn new(edits: MapEdits) -> (r: RoadEditor)
        ensures
            r == RoadEditor::Inactive(edits),
    {
        RoadEditor::Inactive(edits)
    }

    pub fn get_edits(&self) -> (r: &MapEdits)
        ensures
            *r == match self {
                RoadEditor::Inactive(e) => *e,
                RoadEditor::Active(e) => *e,
            },
    {
        match self {
            RoadEditor::Inactive(edits) => edits,
            RoadEditor::Active(edits) => edits,
        }
    }
}

/// What the owner view highlights: a building and the cars it owns, a car and its owner, or a
/// shape and the side of the road it belongs to.
pub enum ShowOwnerState {
    Inactive,
    BuildingSelected(BuildingID, Vec<CarID>),
    CarSelected(CarID, Option<BuildingID>),
    ShapeSelected(ExtraShapeID, Option<(RoadID, bool)>),
}

impl ShowOwnerState {
    pub fn new() -> (r: ShowOwnerState)
        ensures
            r is Inactive,
    {
        ShowOwnerState::Inactive
    }
}

/// Are blinkers lit, `millis` milliseconds into the current second? They blink with a period of
/// 300 ms, lit for the first half.
pub fn blinkers_lit(millis: u32) -> (r: bool)
    ensures
        r == (millis % 300 < 150),
{
    millis % 300 < 150
}

/// The lane type that follows `lt` when cycling a lane through the editable types.
pub open spec fn spec_next_type(lt: LaneType) -> LaneType {
    match lt {
        LaneType::Driving => LaneType::Parking,
        LaneType::Parking => LaneType::Biking,
        LaneType::Biking => LaneType::Bus,
        _ => LaneType::Driving,
    }
}

pub fn next_type(lt: LaneType) -> (r: LaneType)
    requires
        lt != LaneType::Sidewalk,
    ensures
        r == spec_next_type(lt),
        r != LaneType::Sidewalk,
{
    match lt {
        LaneType::Driving => LaneType::Parking,
        LaneType::Parking => LaneType::Biking,
        LaneType::Biking => LaneType::Bus,
        _ => LaneType::Driving,
    }
}

/// The type `n` steps after `lt` in the cycle.
pub open spec fn advance(lt: LaneType, n: nat) -> LaneType
    decreases n,
{
    if n == 0 {
        lt
    } else {
        spec_next_type(advance(lt, (n - 1) as nat))
    }
}

/// Is `l` on the forward side of the road?
pub open spec fn is_forwards(r: Road, l: LaneID) -> bool {
    exists|i: int| 0 <= i < r.children_forwards@.len() && #[trigger] r.children_forwards@[i].0 == l
}

/// The lanes on the side of the road where `l` is.
pub open spec fn side_lanes(r: Road, l: LaneID) -> Seq<(LaneID, LaneType)> {
    if is_forwards(r, l) {
        r.children_forwards@
    } else {
        r.children_backwards@
    }
}

/// The index of `l` among the lanes of its side of the road.
pub open spec fn side_index(r: Road, l: LaneID) -> int {
    choose|i: int| 0 <= i < side_lanes(r, l).len() && #[trigger] side_lanes(r, l)[i].0 == l
}

/// Each lane appears on the road at most once.
pub open spec fn road_lanes_distinct(r: Road) -> bool {
    &&& forall|i: int, j: int|
        0 <= i < r.children_forwards@.len() && 0 <= j < r.children_forwards@.len() && i != j
            ==> #[trigger] r.children_forwards@[i].0 != #[trigger] r.children_forwards@[j].0
    &&& forall|i: int, j: int|
        0 <= i < r.children_backwards@.len() && 0 <= j < r.children_backwards@.len() && i != j
            ==> #[trigger] r.children_backwards@[i].0 != #[trigger] r.children_backwards@[j].0
}

pub open spec fn on_road(r: Road, l: LaneID) -> bool {
    (exists|i: int| 0 <= i < r.children_forwards@.len() && #[trigger] r.children_forwards@[i].0 == l)
        || (exists|i: int| 0 <= i < r.children_backwards@.len() && #[trigger] r.children_backwards@[i].0 == l)
}

/// Whether lane `l` may become type `lt`: a side of a road has at most one parking lane, and
/// no two bike lanes side by side.
pub open spec fn may_change_lane_type(r: Road, l: LaneID, lt: LaneType) -> bool {
    let side = side_lanes(r, l);
    let idx = side_index(r, l);
    &&& !(lt == LaneType::Parking && exists|k: int| 0 <= k < side.len() && (#[trigger] side[k]).1 == LaneType::Parking)
    &&& !(lt == LaneType::Biking && ((idx != 0 && side[idx - 1].1 == LaneType::Biking) || (idx + 1
        < side.len() && side[idx + 1].1 == LaneType::Biking)))
}

fn find_lane(side: &Vec<(LaneID, LaneType)>, l: LaneID) -> (r: Option<usize>)
    ensures
        r matches Some(i) ==> i < side@.len() && side@[i as int].0 == l,
        r is None ==> forall|i: int| 0 <= i < side@.len() ==> side@[i].0 != l,
{
    let mut i: usize = 0;
    while i < side.len()
        invariant
            i <= side@.len(),
            forall|k: int| 0 <= k < i ==> side@[k].0 != l,
        decreases side.len() - i,
    {
        if side[i].0 == l {
            return Some(i);
        }
        i += 1;
    }
    None
}

fn has_type(side: &Vec<(LaneID, LaneType)>, lt: LaneType) -> (r: bool)
    ensures
        r == exists|k: int| 0 <= k < side@.len() && (#[trigger] side@[k]).1 == lt,
{
    let mut i: usize = 0;
    while i < side.len()
        invariant
            i <= side@.len(),
            forall|k: int| 0 <= k < i ==> side@[k].1 != lt,
        decreases side.len() - i,
    {
        if side[i].1 == lt {
            return true;
        }
        i += 1;
    }
    false
}

pub fn can_change_lane_type(r: &Road, l: &Lane, lt: LaneType) -> (b: bool)
    requires
        road_lanes_distinct(*r),
        on_road(*r, l.id),
    ensures
        b == may_change_lane_type(*r, l.id, lt),
{
    let (fwds, idx) = match find_lane(&r.children_forwards, l.id) {
        Some(i) => (true, i),
        None => match find_lane(&r.children_backwards, l.id) {
            Some(i) => (false, i),
            None => {
                assert(false);
                (false, 0)
            },
        },
    };
    let side = if fwds {
        &r.children_forwards
    } else {
        &r.children_backwards
    };
    proof {
        assert(is_forwards(*r, l.id) == fwds);
        assert(side@ == side_lanes(*r, l.id));
        let si = side_index(*r, l.id);
        assert(side@[si].0 == l.id);
        assert(si == idx as int);
    }
    // Only one parking lane per side.
    if lt == LaneType::Parking && has_type(side, LaneType::Parking) {
        return false;
    }
    // Two adjacent bike lanes is unnecessary.
    if lt == LaneType::Biking {
        if (idx != 0 && side[idx - 1].1 == LaneType::Biking) || (idx < side.len() - 1
            && side[idx + 1].1 == LaneType::Biking) {
            return false;
        }
    }
    true
}

proof fn lemma_cycle_of_four(lt: LaneType)
    requires
        lt != LaneType::Sidewalk,
    ensures
        advance(lt, 4) == lt,
        forall|n: nat| n <= 4 ==> #[trigger] advance(lt, n) != LaneType::Sidewalk,
        forall|n: nat| 1 <= n < 4 ==> #[trigger] advance(lt, n) != lt,
{
    reveal_with_fuel(advance, 5);
    assert forall|n: nat| 1 <= n < 4 implies #[trigger] advance(lt, n) != lt by {
        if n == 1 {
        } else if n == 2 {
        } else {
        }
    }
    assert forall|n: nat| n <= 4 implies #[trigger] advance(lt, n) != LaneType::Sidewalk by {
        if n == 0 {
        } else if n == 1 {
        } else if n == 2 {
        } else if n == 3 {
        } else {
        }
    }
}

/// The first type after the lane's own, in the cycle of editable types, that the lane may take.
pub fn next_valid_type(r: &Road, l: &Lane) -> (res: Option<LaneType>)
    requires
        l.lane_type != LaneType::Sidewalk,
        road_lanes_distinct(*r),
        on_road(*r, l.id),
    ensures
        res matches Some(t) ==> t != l.lane_type && may_change_lane_type(*r, l.id, t) && exists|n: nat|
            1 <= n < 4 && advance(l.lane_type, n) == t && forall|m: nat|
                1 <= m < n ==> !may_change_lane_type(*r, l.id, #[trigger] advance(l.lane_type, m)),
        res is None ==> forall|m: nat|
            1 <= m < 4 && advance(l.lane_type, m) != l.lane_type ==> !may_change_lane_type(
                *r,
                l.id,
                #[trigger] advance(l.lane_type, m),
            ),
{
    proof {
        lemma_cycle_of_four(l.lane_type);
    }
    let mut new_type = next_type(l.lane_type);
    let ghost mut n: nat = 1;
    assert(advance(l.lane_type, 1) == spec_next_type(advance(l.lane_type, 0)));
    while new_type != l.lane_type
        invariant
            1 <= n <= 4,
            new_type == advance(l.lane_type, n),
            new_type != LaneType::Sidewalk,
            advance(l.lane_type, 4) == l.lane_type,
            road_lanes_distinct(*r),
            on_road(*r, l.id),
            forall|m: nat| 1 <= m < n ==> !may_change_lane_type(*r, l.id, #[trigger] advance(l.lane_type, m)),
            forall|m: nat| m <= 4 ==> #[trigger] advance(l.lane_type, m) != LaneType::Sidewalk,
            forall|m: nat| 1 <= m < 4 ==> #[trigger] advance(l.lane_type, m) != l.lane_type,
        decreases 4 - n,
    {
        if can_change_lane_type(r, l, new_type) {
            assert(n < 4);
            return Some(new_type);
        }
        assert(n < 4);
        new_type = next_type(new_type);
        proof {
            n = n + 1;
        }
    }
    None
}

} // verus!

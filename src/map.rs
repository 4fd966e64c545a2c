use vstd::prelude::*;
use crate::ids::{
    BuildingID, BusStopID, Distance, Duration, IntersectionID, LaneID, Position, RoadID, TurnID,
};
use crate::stop_signs::ControlStopSign;

verus! {

#[derive(Clone, Copy, Debug, PartialEq, Eq, Structural, Hash)]
pub enum TurnType {
    Straight,
    Right,
    Left,
    Crosswalk,
    SharedSidewalkCorner,
}

/// Right-of-way of a turn, ordered `Banned < Stop < Yield < Priority`.
#[derive(Clone, Copy, Debug, PartialEq, Eq, Structural, Hash)]
pub enum TurnPriority {
    Banned,
    Stop,
    Yield,
    Priority,
}

impl TurnPriority {
    pub open spec fn rank(self) -> u8 {
        match self {
            TurnPriority::Banned => 0,
            TurnPriority::Stop => 1,
            TurnPriority::Yield => 2,
            TurnPriority::Priority => 3,
        }
    }

    /// Position of this priority in the order `Banned < Stop < Yield < Priority`.
    pub fn get_rank(&self) -> (r: u8)
        ensures
            r == self.rank(),
    {
        match self {
            TurnPriority::Banned => 0,
            TurnPriority::Stop => 1,
            TurnPriority::Yield => 2,
            TurnPriority::Priority => 3,
        }
    }
}

#[derive(Clone, Copy, Debug, PartialEq, Eq, Structural, Hash)]
pub enum LaneType {
    Driving,
    Parking,
    Sidewalk,
    Biking,
    Bus,
}

pub fn contains_turn(v: &Vec<TurnID>, t: TurnID) -> (r: bool)
    ensures
        r == v@.contains(t),
{
    let mut i: usize = 0;
    while i < v.len()
        invariant
            i <= v.len(),
            forall|k: int| 0 <= k < i ==> v@[k] != t,
        decreases v.len() - i,
    {
        if v[i] == t {
            return true;
        }
        i += 1;
    }
    false
}

/// A turn through an intersection. `crosses` lists the turns whose paths cross this one's.
#[derive(Clone, Debug)]
pub struct Turn {
    pub id: TurnID,
    pub turn_type: TurnType,
    pub crosses: Vec<TurnID>,
}

impl Turn {
    /// Two turns conflict when neither is a shared sidewalk corner, they are distinct, they do not
    /// leave from the same lane, and they either end on the same lane or their paths cross.
    pub open spec fn spec_conflicts(self, other: Turn) -> bool {
        &&& self.turn_type != TurnType::SharedSidewalkCorner
        &&& other.turn_type != TurnType::SharedSidewalkCorner
        &&& self.id != other.id
        &&& self.id.src != other.id.src
        &&& (self.id.dst == other.id.dst || self.crosses@.contains(other.id)
            || other.crosses@.contains(self.id))
    }

    pub fn conflicts_with(&self, other: &Turn) -> (r: bool)
        ensures
            r == self.spec_conflicts(*other),
    {
        if self.turn_type == TurnType::SharedSidewalkCorner
            || other.turn_type == TurnType::SharedSidewalkCorner {
            return false;
        }
        if self.id == other.id || self.id.src == other.id.src {
            return false;
        }
        if self.id.dst == other.id.dst {
            return true;
        }
        contains_turn(&self.crosses, other.id) || contains_turn(&other.crosses, self.id)
    }
}

pub struct Lane {
    pub id: LaneID,
    pub parent: RoadID,
    pub lane_type: LaneType,
    pub length: Distance,
    /// For a sidewalk: where a bike can be racked on the nearby biking or driving lane.
    pub bike_rack: Option<Position>,
    /// For a biking or driving lane: the sidewalk next to it.
    pub sidewalk: Option<LaneID>,
}

pub struct Road {
    pub id: RoadID,
    /// The value of the OSM `highway` tag, if the road has one.
    pub highway: Option<String>,
    pub children_forwards: Vec<(LaneID, LaneType)>,
    pub children_backwards: Vec<(LaneID, LaneType)>,
}

pub struct Intersection {
    pub id: IntersectionID,
    pub turns: Vec<TurnID>,
    pub roads: Vec<RoadID>,
    pub incoming_lanes: Vec<LaneID>,
    pub outgoing_lanes: Vec<LaneID>,
}

pub struct Building {
    pub id: BuildingID,
    /// Where the building's front path meets the sidewalk.
    pub sidewalk_pos: Position,
    /// The driving lane where cars heading to the building park nearby.
    pub driving_lane: LaneID,
}

impl Building {
    /// The sidewalk that the building's front path leads to.
    pub fn sidewalk(&self) -> (r: LaneID)
        ensures
            r == self.sidewalk_pos.lane,
    {
        self.sidewalk_pos.lane
    }
}

pub struct BusStop {
    pub id: BusStopID,
    pub sidewalk_pos: Position,
}

/// One phase of a traffic signal.
#[derive(Clone, Debug)]
pub struct Cycle {
    pub duration: Duration,
    pub priority_turns: Vec<TurnID>,
    pub yield_turns: Vec<TurnID>,
}

impl Cycle {
    pub open spec fn spec_priority(self, t: TurnID) -> TurnPriority {
        if self.priority_turns@.contains(t) {
            TurnPriority::Priority
        } else if self.yield_turns@.contains(t) {
            TurnPriority::Yield
        } else {
            TurnPriority::Banned
        }
    }

    pub fn get_priority(&self, t: TurnID) -> (r: TurnPriority)
        ensures
            r == self.spec_priority(t),
    {
        if contains_turn(&self.priority_turns, t) {
            TurnPriority::Priority
        } else if contains_turn(&self.yield_turns, t) {
            TurnPriority::Yield
        } else {
            TurnPriority::Banned
        }
    }
}

/// Total duration of the cycles from index `i` on.
pub open spec fn cycles_from(cycles: Seq<Cycle>, i: int) -> nat
    decreases cycles.len() - i,
{
    if i < 0 || i >= cycles.len() {
        0
    } else {
        cycles[i].duration as nat + cycles_from(cycles, i + 1)
    }
}

/// The cycle running `left` nanoseconds after cycle `i` began, and the time it has remaining.
pub open spec fn cycle_at(cycles: Seq<Cycle>, i: int, left: int) -> (int, int)
    decreases cycles.len() - i,
{
    if i < 0 || i >= cycles.len() {
        (i, 0)
    } else if left < cycles[i].duration {
        (i, cycles[i].duration - left)
    } else {
        cycle_at(cycles, i + 1, left - cycles[i].duration)
    }
}

#[derive(Clone, Debug)]
pub struct ControlTrafficSignal {
    pub id: IntersectionID,
    pub cycles: Vec<Cycle>,
}

impl ControlTrafficSignal {
    pub open spec fn total(self) -> nat {
        cycles_from(self.cycles@, 0)
    }

    /// At least one cycle, every cycle lasts, and one round of cycles fits in a `Duration`.
    pub open spec fn well_formed(self) -> bool {
        &&& self.cycles@.len() > 0
        &&& forall|i: int| 0 <= i < self.cycles@.len() ==> #[trigger] self.cycles@[i].duration > 0
        &&& self.total() <= u64::MAX
    }

    /// Index of the cycle running at `time`, and the time left in it.
    pub open spec fn spec_current(self, time: Duration) -> (int, int) {
        cycle_at(self.cycles@, 0, (time as int) % (self.total() as int))
    }

    pub open spec fn current_cycle(self, time: Duration) -> Cycle {
        self.cycles@[self.spec_current(time).0]
    }

    pub fn current_cycle_and_remaining_time(&self, time: Duration) -> (r: (usize, Duration))
        requires
            self.well_formed(),
        ensures
            r.0 < self.cycles@.len(),
            r.0 as int == self.spec_current(time).0,
            r.1 as int == self.spec_current(time).1,
            0 < r.1 <= self.cycles@[r.0 as int].duration,
    {
        let n = self.cycles.len();
        let mut total: u64 = 0;
        let mut i: usize = 0;
        while i < n
            invariant
                n == self.cycles@.len(),
                i <= n,
                total + cycles_from(self.cycles@, i as int) == self.total(),
                self.total() <= u64::MAX,
            decreases n - i,
        {
            total = total + self.cycles[i].duration;
            i += 1;
        }
        assert(cycles_from(self.cycles@, 0) >= self.cycles@[0].duration);
        let mut left: u64 = time % total;
        let mut j: usize = 0;
        while j < n
            invariant
                n == self.cycles@.len(),
                j <= n,
                left < cycles_from(self.cycles@, j as int),
                forall|k: int| 0 <= k < n ==> #[trigger] self.cycles@[k].duration > 0,
                cycle_at(self.cycles@, j as int, left as int) == self.spec_current(time),
            decreases n - j,
        {
            let d = self.cycles[j].duration;
            if left < d {
                return (j, d - left);
            }
            left = left - d;
            j += 1;
        }
        (0, 1)
    }
}

/// The rank of an OSM highway class; higher numbers are more important roads.
pub open spec fn highway_rank(h: Seq<char>) -> Option<u8> {
    if h == "motorway"@ {
        Some(20)
    } else if h == "motorway_link"@ {
        Some(19)
    } else if h == "trunk"@ {
        Some(17)
    } else if h == "trunk_link"@ {
        Some(16)
    } else if h == "primary"@ {
        Some(15)
    } else if h == "primary_link"@ {
        Some(14)
    } else if h == "secondary"@ {
        Some(13)
    } else if h == "secondary_link"@ {
        Some(12)
    } else if h == "tertiary"@ {
        Some(10)
    } else if h == "tertiary_link"@ {
        Some(9)
    } else if h == "residential"@ {
        Some(5)
    } else if h == "footway"@ {
        Some(1)
    } else if h == "unclassified"@ || h == "road"@ {
        Some(0)
    } else {
        None
    }
}

pub fn rank_of_highway(h: &String) -> (r: Option<u8>)
    ensures
        r == highway_rank(h@),
{
    if *h == "motorway".to_owned() {
        Some(20)
    } else if *h == "motorway_link".to_owned() {
        Some(19)
    } else if *h == "trunk".to_owned() {
        Some(17)
    } else if *h == "trunk_link".to_owned() {
        Some(16)
    } else if *h == "primary".to_owned() {
        Some(15)
    } else if *h == "primary_link".to_owned() {
        Some(14)
    } else if *h == "secondary".to_owned() {
        Some(13)
    } else if *h == "secondary_link".to_owned() {
        Some(12)
    } else if *h == "tertiary".to_owned() {
        Some(10)
    } else if *h == "tertiary_link".to_owned() {
        Some(9)
    } else if *h == "residential".to_owned() {
        Some(5)
    } else if *h == "footway".to_owned() {
        Some(1)
    } else if *h == "unclassified".to_owned() || *h == "road".to_owned() {
        Some(0)
    } else {
        None
    }
}

/// How an intersection arbitrates its turns.
pub enum IntersectionControl {
    Freeform,
    StopSign(ControlStopSign),
    TrafficSignal(ControlTrafficSignal),
}

/// The road network, read-only while a simulation runs.
pub struct StreetMap {
    pub lanes: Vec<Lane>,
    pub roads: Vec<Road>,
    pub intersections: Vec<Intersection>,
    pub turns: Vec<Turn>,
    pub buildings: Vec<Building>,
    pub bus_stops: Vec<BusStop>,
    /// The control of each intersection, indexed like `intersections`.
    pub controls: Vec<IntersectionControl>,
}

impl StreetMap {
    pub open spec fn turn_ids_unique(&self) -> bool {
        forall|i: int, j: int|
            0 <= i < self.turns@.len() && 0 <= j < self.turns@.len() && i != j
                ==> #[trigger] self.turns@[i].id != #[trigger] self.turns@[j].id
    }

    pub open spec fn has_turn(&self, t: TurnID) -> bool {
        exists|i: int| 0 <= i < self.turns@.len() && #[trigger] self.turns@[i].id == t
    }

    pub open spec fn turn_index(&self, t: TurnID) -> int {
        choose|i: int| 0 <= i < self.turns@.len() && #[trigger] self.turns@[i].id == t
    }

    pub open spec fn spec_turn(&self, t: TurnID) -> Turn {
        self.turns@[self.turn_index(t)]
    }

    /// The map's conflict predicate on turns.
    pub open spec fn conflicts(&self, a: TurnID, b: TurnID) -> bool {
        self.spec_turn(a).spec_conflicts(self.spec_turn(b))
    }

    pub open spec fn has_intersection(&self, i: IntersectionID) -> bool {
        i.0 < self.intersections@.len()
    }

    /// Every turn listed at an intersection is a turn of the map through that intersection.
    pub open spec fn turns_of_intersections_known(&self) -> bool {
        forall|i: int, k: int|
            0 <= i < self.intersections@.len() && 0 <= k
                < self.intersections@[i].turns@.len() ==> {
                let t = #[trigger] self.intersections@[i].turns@[k];
                self.has_turn(t) && t.parent.0 == i
            }
    }

    pub open spec fn spec_signal(&self, i: IntersectionID) -> Option<ControlTrafficSignal> {
        match self.controls@[i.0 as int] {
            IntersectionControl::TrafficSignal(s) => Some(s),
            _ => None,
        }
    }

    pub open spec fn spec_stop_sign(&self, i: IntersectionID) -> Option<ControlStopSign> {
        match self.controls@[i.0 as int] {
            IntersectionControl::StopSign(s) => Some(s),
            _ => None,
        }
    }

    /// Every traffic signal is well formed, and every stop sign gives a priority to each turn
    /// of the map through its intersection, with no two conflicting `Priority` turns.
    pub open spec fn controls_valid(&self) -> bool {
        &&& self.controls@.len() == self.intersections@.len()
        &&& forall|i: int|
            0 <= i < self.controls@.len() ==> match #[trigger] self.controls@[i] {
                IntersectionControl::TrafficSignal(s) => s.well_formed(),
                IntersectionControl::StopSign(s) => s.well_formed() && s.priority_turns_compatible(self)
                    && forall|t: TurnID| self.has_turn(t) && t.parent.0 == i ==> #[trigger] s.has(t),
                IntersectionControl::Freeform => true,
            }
    }

    /// Lanes, roads and intersections sit at the index of their own identifier, and refer only
    /// to items of the map; each turn of an intersection is listed once and leaves from one of
    /// its incoming lanes.
    pub open spec fn items_valid(&self) -> bool {
        &&& forall|i: int|
            0 <= i < self.lanes@.len() ==> (#[trigger] self.lanes@[i]).id.0 == i
                && self.lanes@[i].parent.0 < self.roads@.len()
        &&& forall|i: int| 0 <= i < self.roads@.len() ==> (#[trigger] self.roads@[i]).id.0 == i
        &&& forall|i: int|
            0 <= i < self.intersections@.len() ==> {
                let it = #[trigger] self.intersections@[i];
                &&& it.id.0 == i
                &&& forall|k: int|
                    0 <= k < it.incoming_lanes@.len() ==> (#[trigger] it.incoming_lanes@[k]).0
                        < self.lanes@.len()
                &&& forall|k: int|
                    0 <= k < it.outgoing_lanes@.len() ==> (#[trigger] it.outgoing_lanes@[k]).0
                        < self.lanes@.len()
                &&& forall|k: int|
                    0 <= k < it.turns@.len() ==> it.incoming_lanes@.contains(
                        (#[trigger] it.turns@[k]).src,
                    )
                &&& forall|a: int, b: int|
                    0 <= a < it.turns@.len() && 0 <= b < it.turns@.len() && a != b
                        ==> #[trigger] it.turns@[a] != #[trigger] it.turns@[b]
            }
    }

    /// What the simulation needs of the map.
    pub open spec fn well_formed(&self) -> bool {
        &&& self.turn_ids_unique()
        &&& self.turns_of_intersections_known()
        &&& self.items_valid()
        &&& self.controls_valid()
    }

    /// The rank of the road that `l` belongs to; `None` for an unknown highway class.
    pub open spec fn lane_rank(&self, l: LaneID) -> Option<u8> {
        match self.roads@[self.lanes@[l.0 as int].parent.0 as int].highway {
            Some(h) => highway_rank(h@),
            None => Some(0),
        }
    }

    pub fn get_lane_rank(&self, l: LaneID) -> (r: Option<u8>)
        requires
            self.items_valid(),
            l.0 < self.lanes@.len(),
        ensures
            r == self.lane_rank(l),
    {
        let road = &self.roads[self.lanes[l.0].parent.0];
        match &road.highway {
            Some(h) => rank_of_highway(h),
            None => Some(0),
        }
    }

    pub fn turn_idx(&self, t: TurnID) -> (r: usize)
        requires
            self.turn_ids_unique(),
            self.has_turn(t),
        ensures
            r as int == self.turn_index(t),
            r < self.turns@.len(),
    {
        let ghost gi = self.turn_index(t);
        let mut i: usize = 0;
        while i < self.turns.len()
            invariant
                i <= self.turns@.len(),
                0 <= gi < self.turns@.len(),
                self.turns@[gi].id == t,
                self.turn_ids_unique(),
                forall|k: int| 0 <= k < i ==> self.turns@[k].id != t,
            decreases self.turns.len() - i,
        {
            if self.turns[i].id == t {
                assert(self.turns@[i as int].id == self.turns@[gi].id);
                return i;
            }
            i += 1;
        }
        i
    }

    pub fn get_t(&self, t: TurnID) -> (r: &Turn)
        requires
            self.turn_ids_unique(),
            self.has_turn(t),
        ensures
            *r == self.spec_turn(t),
    {
        let i = self.turn_idx(t);
        &self.turns[i]
    }

    pub fn conflicts_between(&self, a: TurnID, b: TurnID) -> (r: bool)
        requires
            self.turn_ids_unique(),
            self.has_turn(a),
            self.has_turn(b),
        ensures
            r == self.conflicts(a, b),
    {
        self.get_t(a).conflicts_with(self.get_t(b))
    }

    pub fn maybe_get_traffic_signal(&self, i: IntersectionID) -> (r: Option<&ControlTrafficSignal>)
        requires
            i.0 < self.controls@.len(),
        ensures
            r == match self.spec_signal(i) {
                Some(s) => Some(&s),
                None => None::<&ControlTrafficSignal>,
            },
    {
        match &self.controls[i.0] {
            IntersectionControl::TrafficSignal(s) => Some(s),
            _ => None,
        }
    }

    pub fn maybe_get_stop_sign(&self, i: IntersectionID) -> (r: Option<&ControlStopSign>)
        requires
            i.0 < self.controls@.len(),
        ensures
            r == match self.spec_stop_sign(i) {
                Some(s) => Some(&s),
                None => None::<&ControlStopSign>,
            },
    {
        match &self.controls[i.0] {
            IntersectionControl::StopSign(s) => Some(s),
            _ => None,
        }
    }
}

} // verus!

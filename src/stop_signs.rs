use vstd::prelude::*;
use crate::ids::{IntersectionID, LaneID, RoadID, TurnID};
use crate::map::{StreetMap, TurnPriority, TurnType};

verus! {

#[derive(Clone, Copy, Debug, PartialEq, Eq, Structural)]
pub enum StopSignError {
    /// Two `Priority` turns of the sign conflict.
    ConflictingPriorityTurns(TurnID, TurnID),
}

/// What `validate` warns about: turns of the intersection that the sign lacks, and turns the
/// sign lists that the intersection does not have.
#[derive(Clone, Debug, PartialEq, Eq)]
pub struct StopSignWarnings {
    pub missing: Vec<TurnID>,
    pub extra: Vec<TurnID>,
}

/// The priority of each turn through a stop-sign intersection. Turns may be present as `Banned`.
#[derive(Clone, Debug)]
pub struct ControlStopSign {
    pub id: IntersectionID,
    pub turns: Vec<(TurnID, TurnPriority)>,
}

impl ControlStopSign {
    /// No turn is listed twice.
    pub open spec fn well_formed(self) -> bool {
        forall|i: int, j: int|
            0 <= i < self.turns@.len() && 0 <= j < self.turns@.len() && i != j
                ==> #[trigger] self.turns@[i].0 != #[trigger] self.turns@[j].0
    }

    pub open spec fn has(self, t: TurnID) -> bool {
        exists|i: int| 0 <= i < self.turns@.len() && #[trigger] self.turns@[i].0 == t
    }

    pub open spec fn index_of(self, t: TurnID) -> int {
        choose|i: int| 0 <= i < self.turns@.len() && #[trigger] self.turns@[i].0 == t
    }

    pub open spec fn priority(self, t: TurnID) -> TurnPriority {
        self.turns@[self.index_of(t)].1
    }

    /// No two `Priority` turns conflict.
    pub open spec fn priority_turns_compatible(self, map: &StreetMap) -> bool {
        forall|i: int, j: int|
            0 <= i < self.turns@.len() && 0 <= j < self.turns@.len()
                && self.turns@[i].1 == TurnPriority::Priority && self.turns@[j].1
                == TurnPriority::Priority ==> !map.conflicts(
                #[trigger] self.turns@[i].0,
                #[trigger] self.turns@[j].0,
            )
    }

    /// Every turn of the sign is a turn of the map.
    pub open spec fn turns_known(self, map: &StreetMap) -> bool {
        forall|i: int| 0 <= i < self.turns@.len() ==> map.has_turn(#[trigger] self.turns@[i].0)
    }

    pub fn get_priority(&self, turn: TurnID) -> (r: TurnPriority)
        requires
            self.well_formed(),
            self.has(turn),
        ensures
            r == self.priority(turn),
    {
        let ghost gi = self.index_of(turn);
        let mut i: usize = 0;
        while i < self.turns.len()
            invariant
                i <= self.turns@.len(),
                0 <= gi < self.turns@.len(),
                self.turns@[gi].0 == turn,
                self.well_formed(),
                forall|k: int| 0 <= k < i ==> self.turns@[k].0 != turn,
            decreases self.turns.len() - i,
        {
            if self.turns[i].0 == turn {
                assert(self.turns@[i as int].0 == self.turns@[gi].0);
                return self.turns[i].1;
            }
            i += 1;
        }
        TurnPriority::Banned
    }

    /// Could `id` become a `Priority` turn without conflicting with one that already is?
    pub fn could_be_priority_turn(&self, id: TurnID, map: &StreetMap) -> (r: bool)
        requires
            map.turn_ids_unique(),
            map.has_turn(id),
            self.turns_known(map),
        ensures
            r == forall|i: int|
                0 <= i < self.turns@.len() && self.turns@[i].1 == TurnPriority::Priority
                    ==> !map.conflicts(id, #[trigger] self.turns@[i].0),
    {
        let mut i: usize = 0;
        while i < self.turns.len()
            invariant
                i <= self.turns@.len(),
                map.turn_ids_unique(),
                map.has_turn(id),
                self.turns_known(map),
                forall|k: int|
                    0 <= k < i && self.turns@[k].1 == TurnPriority::Priority ==> !map.conflicts(
                        id,
                        #[trigger] self.turns@[k].0,
                    ),
            decreases self.turns.len() - i,
        {
            let (t, pri) = self.turns[i];
            if pri == TurnPriority::Priority && map.conflicts_between(id, t) {
                return false;
            }
            i += 1;
        }
        true
    }

    /// Does no turn leaving `lane` have to stop (only `Yield` and `Priority` turns leave it)?
    pub fn is_priority_lane(&self, lane: LaneID) -> (r: bool)
        ensures
            r == forall|i: int|
                0 <= i < self.turns@.len() && (#[trigger] self.turns@[i]).0.src == lane
                    ==> self.turns@[i].1.rank() > TurnPriority::Stop.rank(),
    {
        let mut i: usize = 0;
        while i < self.turns.len()
            invariant
                i <= self.turns@.len(),
                forall|k: int|
                    0 <= k < i && (#[trigger] self.turns@[k]).0.src == lane ==> self.turns@[k].1.rank()
                        > TurnPriority::Stop.rank(),
            decreases self.turns.len() - i,
        {
            let (t, pri) = self.turns[i];
            if t.src == lane && pri.get_rank() <= TurnPriority::Stop.get_rank() {
                return false;
            }
            i += 1;
        }
        true
    }
}


/// The turns of intersection `id`.
pub open spec fn turns_at(map: &StreetMap, id: IntersectionID) -> Seq<TurnID> {
    map.intersections@[id.0 as int].turns@
}

/// The lanes whose roads decide the ranks at intersection `id`: its incoming lanes.
pub open spec fn ranked_lanes(map: &StreetMap, id: IntersectionID) -> Seq<LaneID> {
    map.intersections@[id.0 as int].incoming_lanes@
}

pub open spec fn ranks_known(map: &StreetMap, lanes: Seq<LaneID>) -> bool {
    forall|k: int| 0 <= k < lanes.len() ==> (#[trigger] map.lane_rank(lanes[k])).is_some()
}

/// The highest rank among `lanes`; 0 when there are none.
pub open spec fn max_rank(map: &StreetMap, lanes: Seq<LaneID>) -> u8
    decreases lanes.len(),
{
    if lanes.len() == 0 {
        0
    } else {
        let m = max_rank(map, lanes.drop_last());
        let r = map.lane_rank(lanes.last()).unwrap();
        if r > m {
            r
        } else {
            m
        }
    }
}

/// All of `lanes` have one and the same rank.
pub open spec fn one_rank(map: &StreetMap, lanes: Seq<LaneID>) -> bool {
    lanes.len() > 0 && forall|k: int|
        0 <= k < lanes.len() ==> #[trigger] map.lane_rank(lanes[k]) == map.lane_rank(lanes[0])
}

/// The priority of a turn at a dead end or a degenerate intersection: crosswalks stop, the rest
/// have priority.
pub open spec fn degenerate_priority(map: &StreetMap, t: TurnID) -> TurnPriority {
    if map.spec_turn(t).turn_type == TurnType::Crosswalk {
        TurnPriority::Stop
    } else {
        TurnPriority::Priority
    }
}

/// No two turns that the degenerate assignment makes `Priority` conflict.
pub open spec fn degenerate_compatible(map: &StreetMap, id: IntersectionID) -> bool {
    forall|a: int, b: int|
        0 <= a < turns_at(map, id).len() && 0 <= b < turns_at(map, id).len()
            && degenerate_priority(map, turns_at(map, id)[a]) == TurnPriority::Priority
            && degenerate_priority(map, turns_at(map, id)[b]) == TurnPriority::Priority
            ==> !map.conflicts(#[trigger] turns_at(map, id)[a], #[trigger] turns_at(map, id)[b])
}

/// The priority given to turn `t` at a ranked intersection, once the turns before it received
/// the priorities in `before`: non-left turns from the highest-rank roads get `Priority` if that
/// conflicts with no earlier `Priority` turn, else `Yield`; left turns from those roads yield;
/// turns from lower-rank roads stop.
pub open spec fn ranked_priority(
    map: &StreetMap,
    before: Seq<(TurnID, TurnPriority)>,
    t: TurnID,
    highest: u8,
) -> TurnPriority {
    if map.lane_rank(t.src) == Some(highest) {
        if map.spec_turn(t).turn_type != TurnType::Left && forall|k: int|
            0 <= k < before.len() && before[k].1 == TurnPriority::Priority ==> !map.conflicts(
                t,
                #[trigger] before[k].0,
            ) {
            TurnPriority::Priority
        } else {
            TurnPriority::Yield
        }
    } else {
        TurnPriority::Stop
    }
}

/// The sign lists exactly the turns of its intersection, in order.
pub open spec fn covers_turns(ss: ControlStopSign, map: &StreetMap) -> bool {
    &&& ss.turns@.len() == turns_at(map, ss.id).len()
    &&& forall|k: int| 0 <= k < ss.turns@.len() ==> #[trigger] ss.turns@[k].0 == turns_at(map, ss.id)[k]
}

pub proof fn lemma_conflicts_symmetric(map: &StreetMap, a: TurnID, b: TurnID)
    ensures
        map.conflicts(a, b) == map.conflicts(b, a),
{
}

/// The map's turns through intersection `id`, each at its own priority.
fn sign_with(map: &StreetMap, id: IntersectionID, degenerate: bool) -> (r: ControlStopSign)
    requires
        map.well_formed(),
        map.has_intersection(id),
    ensures
        r.id == id,
        covers_turns(r, map),
        forall|k: int|
            0 <= k < r.turns@.len() ==> #[trigger] r.turns@[k].1 == if degenerate {
                degenerate_priority(map, r.turns@[k].0)
            } else {
                TurnPriority::Stop
            },
{
    let turns = &map.intersections[id.0].turns;
    let mut ss = ControlStopSign { id, turns: Vec::new() };
    let mut k: usize = 0;
    while k < turns.len()
        invariant
            map.well_formed(),
            map.has_intersection(id),
            *turns == map.intersections@[id.0 as int].turns,
            k <= turns@.len(),
            ss.id == id,
            ss.turns@.len() == k,
            forall|j: int| 0 <= j < k ==> #[trigger] ss.turns@[j].0 == turns@[j],
            forall|j: int|
                0 <= j < k ==> #[trigger] ss.turns@[j].1 == if degenerate {
                    degenerate_priority(map, ss.turns@[j].0)
                } else {
                    TurnPriority::Stop
                },
        decreases turns.len() - k,
    {
        let t = turns[k];
        let pri = if degenerate {
            assert(map.intersections@[id.0 as int].turns@[k as int] == t);
            let turn = map.get_t(t);
            if turn.turn_type == TurnType::Crosswalk {
                TurnPriority::Stop
            } else {
                TurnPriority::Priority
            }
        } else {
            TurnPriority::Stop
        };
        ss.turns.push((t, pri));
        k += 1;
    }
    ss
}

proof fn lemma_covers_well_formed(ss: ControlStopSign, map: &StreetMap)
    requires
        map.well_formed(),
        map.has_intersection(ss.id),
        covers_turns(ss, map),
    ensures
        ss.well_formed(),
        ss.turns_known(map),
        forall|t: TurnID| #[trigger] turns_at(map, ss.id).contains(t) ==> ss.has(t),
{
    let it = map.intersections@[ss.id.0 as int];
    assert forall|i: int, j: int|
        0 <= i < ss.turns@.len() && 0 <= j < ss.turns@.len() && i != j
            implies #[trigger] ss.turns@[i].0 != #[trigger] ss.turns@[j].0 by {
        assert(it.turns@[i] != it.turns@[j]);
    }
    assert forall|i: int| 0 <= i < ss.turns@.len() implies map.has_turn(
        #[trigger] ss.turns@[i].0,
    ) by {
        assert(map.intersections@[ss.id.0 as int].turns@[i] == ss.turns@[i].0);
    }
    assert forall|t: TurnID| #[trigger] turns_at(map, ss.id).contains(t) implies ss.has(t) by {
        let k = choose|k: int| 0 <= k < turns_at(map, ss.id).len() && turns_at(map, ss.id)[k] == t;
        assert(ss.turns@[k].0 == t);
    }
}

/// Every turn of intersection `id` must stop.
pub fn all_way_stop(map: &StreetMap, id: IntersectionID) -> (r: ControlStopSign)
    requires
        map.well_formed(),
        map.has_intersection(id),
    ensures
        r.id == id,
        covers_turns(r, map),
        r.well_formed(),
        forall|k: int| 0 <= k < r.turns@.len() ==> #[trigger] r.turns@[k].1 == TurnPriority::Stop,
        r.priority_turns_compatible(map),
{
    let ss = sign_with(map, id, false);
    proof {
        lemma_covers_well_formed(ss, map);
    }
    ss
}

impl ControlStopSign {
    /// Checks the sign against the map. Fails if two `Priority` turns conflict; otherwise warns
    /// of the intersection's turns that the sign is missing and of the turns it lists that the
    /// intersection does not have.
    pub fn validate(&self, map: &StreetMap) -> (r: Result<StopSignWarnings, StopSignError>)
        requires
            map.well_formed(),
            map.has_intersection(self.id),
            self.turns_known(map),
        ensures
            r.is_ok() == self.priority_turns_compatible(map),
            r matches Ok(w) ==> forall|t: TurnID|
                #[trigger] w.missing@.contains(t) <==> turns_at(map, self.id).contains(t) && !self.has(t),
            r matches Ok(w) ==> forall|t: TurnID|
                #[trigger] w.extra@.contains(t) <==> self.has(t) && !turns_at(map, self.id).contains(t),
            r matches Err(e) ==> exists|i: int, j: int|
                0 <= i < self.turns@.len() && 0 <= j < self.turns@.len()
                    && self.turns@[i].1 == TurnPriority::Priority && self.turns@[j].1
                    == TurnPriority::Priority && map.conflicts(self.turns@[i].0, self.turns@[j].0)
                    && e == StopSignError::ConflictingPriorityTurns(self.turns@[i].0, self.turns@[j].0),
    {
        let n = self.turns.len();
        let mut i: usize = 0;
        while i < n
            invariant
                n == self.turns@.len(),
                i <= n,
                map.well_formed(),
                self.turns_known(map),
                forall|a: int, b: int|
                    0 <= a < i && 0 <= b < n && self.turns@[a].1 == TurnPriority::Priority
                        && self.turns@[b].1 == TurnPriority::Priority ==> !map.conflicts(
                        #[trigger] self.turns@[a].0,
                        #[trigger] self.turns@[b].0,
                    ),
            decreases n - i,
        {
            let mut j: usize = 0;
            while j < n
                invariant
                    n == self.turns@.len(),
                    i < n,
                    j <= n,
                    map.well_formed(),
                    self.turns_known(map),
                    forall|a: int, b: int|
                        0 <= a < i && 0 <= b < n && self.turns@[a].1 == TurnPriority::Priority
                            && self.turns@[b].1 == TurnPriority::Priority ==> !map.conflicts(
                            #[trigger] self.turns@[a].0,
                            #[trigger] self.turns@[b].0,
                        ),
                    forall|b: int|
                        0 <= b < j && self.turns@[i as int].1 == TurnPriority::Priority
                            && self.turns@[b].1 == TurnPriority::Priority ==> !map.conflicts(
                            self.turns@[i as int].0,
                            #[trigger] self.turns@[b].0,
                        ),
                decreases n - j,
            {
                let (t1, p1) = self.turns[i];
                let (t2, p2) = self.turns[j];
                if p1 == TurnPriority::Priority && p2 == TurnPriority::Priority
                    && map.conflicts_between(t1, t2) {
                    return Err(StopSignError::ConflictingPriorityTurns(t1, t2));
                }
                j += 1;
            }
            i += 1;
        }
        let all_turns = &map.intersections[self.id.0].turns;
        let mut missing: Vec<TurnID> = Vec::new();
        let mut k: usize = 0;
        while k < all_turns.len()
            invariant
                map.has_intersection(self.id),
                *all_turns == map.intersections@[self.id.0 as int].turns,
                k <= all_turns@.len(),
                forall|t: TurnID|
                    #[trigger] missing@.contains(t) <==> all_turns@.take(k as int).contains(t)
                        && !self.has(t),
            decreases all_turns.len() - k,
        {
            let t = all_turns[k];
            let ghost before = missing@;
            if !self.has_turn(t) {
                missing.push(t);
            }
            proof {
                broadcast use vstd::seq_lib::lemma_seq_contains_after_push;

                assert(all_turns@.take(k as int + 1) =~= all_turns@.take(k as int).push(t));
            }
            k += 1;
        }
        assert(all_turns@.take(all_turns@.len() as int) =~= all_turns@);
        let mut extra: Vec<TurnID> = Vec::new();
        let mut k: usize = 0;
        while k < self.turns.len()
            invariant
                *all_turns == map.intersections@[self.id.0 as int].turns,
                k <= self.turns@.len(),
                forall|t: TurnID|
                    #[trigger] extra@.contains(t) <==> (exists|j: int|
                        0 <= j < k && self.turns@[j].0 == t) && !all_turns@.contains(t),
            decreases self.turns.len() - k,
        {
            let t = self.turns[k].0;
            let listed = crate::map::contains_turn(all_turns, t);
            if !listed {
                extra.push(t);
            }
            proof {
                broadcast use vstd::seq_lib::lemma_seq_contains_after_push;

                assert forall|u: TurnID| #[trigger] extra@.contains(u) <==> (exists|j: int|
                    0 <= j < k + 1 && self.turns@[j].0 == u) && !all_turns@.contains(u) by {
                    if u == t {
                        assert(self.turns@[k as int].0 == u);
                    } else if exists|j: int| 0 <= j < k + 1 && self.turns@[j].0 == u {
                        let j = choose|j: int| 0 <= j < k + 1 && self.turns@[j].0 == u;
                        assert(j < k);
                    }
                }
            }
            k += 1;
        }
        proof {
            assert forall|t: TurnID| #[trigger] extra@.contains(t) <==> self.has(t) && !all_turns@.contains(t) by {
                if self.has(t) {
                    let j = choose|j: int| 0 <= j < self.turns@.len() && #[trigger] self.turns@[j].0 == t;
                    assert(self.turns@[j].0 == t);
                }
            }
        }
        Ok(StopSignWarnings { missing, extra })
    }

    pub fn has_turn(&self, t: TurnID) -> (r: bool)
        ensures
            r == self.has(t),
    {
        let mut i: usize = 0;
        while i < self.turns.len()
            invariant
                i <= self.turns@.len(),
                forall|k: int| 0 <= k < i ==> self.turns@[k].0 != t,
            decreases self.turns.len() - i,
        {
            if self.turns[i].0 == t {
                return true;
            }
            i += 1;
        }
        false
    }
}

proof fn lemma_degenerate_sign(ss: ControlStopSign, map: &StreetMap)
    requires
        map.well_formed(),
        map.has_intersection(ss.id),
        covers_turns(ss, map),
        forall|k: int|
            0 <= k < ss.turns@.len() ==> #[trigger] ss.turns@[k].1 == degenerate_priority(
                map,
                ss.turns@[k].0,
            ),
    ensures
        ss.priority_turns_compatible(map) == degenerate_compatible(map, ss.id),
{
    let ts = turns_at(map, ss.id);
    if ss.priority_turns_compatible(map) {
        assert forall|a: int, b: int|
            0 <= a < ts.len() && 0 <= b < ts.len() && degenerate_priority(map, ts[a])
                == TurnPriority::Priority && degenerate_priority(map, ts[b])
                == TurnPriority::Priority implies !map.conflicts(#[trigger] ts[a], #[trigger] ts[b]) by {
            assert(ss.turns@[a].0 == ts[a]);
            assert(ss.turns@[b].0 == ts[b]);
        }
    }
    if degenerate_compatible(map, ss.id) {
        assert forall|a: int, b: int|
            0 <= a < ss.turns@.len() && 0 <= b < ss.turns@.len() && ss.turns@[a].1
                == TurnPriority::Priority && ss.turns@[b].1
                == TurnPriority::Priority implies !map.conflicts(
            #[trigger] ss.turns@[a].0,
            #[trigger] ss.turns@[b].0,
        ) by {
            assert(ss.turns@[a].0 == ts[a]);
            assert(ss.turns@[b].0 == ts[b]);
        }
    }
}

/// For an intersection of at most two roads: every turn but the crosswalks gets `Priority` and
/// crosswalks stop; where that makes two `Priority` turns conflict, every turn stops instead,
/// and the returned flag warns of that fallback.
pub fn for_degenerate_and_deadend(map: &StreetMap, id: IntersectionID) -> (r: (ControlStopSign, bool))
    requires
        map.well_formed(),
        map.has_intersection(id),
    ensures
        r.0.id == id,
        covers_turns(r.0, map),
        r.0.well_formed(),
        r.0.priority_turns_compatible(map),
        r.1 == !degenerate_compatible(map, id),
        forall|k: int|
            0 <= k < r.0.turns@.len() ==> #[trigger] r.0.turns@[k].1 == if degenerate_compatible(
                map,
                id,
            ) {
                degenerate_priority(map, r.0.turns@[k].0)
            } else {
                TurnPriority::Stop
            },
{
    let ss = sign_with(map, id, true);
    proof {
        lemma_covers_well_formed(ss, map);
        lemma_degenerate_sign(ss, map);
    }
    match ss.validate(map) {
        Ok(_) => (ss, false),
        Err(_) => (all_way_stop(map, id), true),
    }
}

/// The lanes of intersection `id` whose roads decide its ranks.
fn ranked_lanes_of(map: &StreetMap, id: IntersectionID) -> (r: Vec<LaneID>)
    requires
        map.has_intersection(id),
    ensures
        r@ == ranked_lanes(map, id),
{
    let it = &map.intersections[id.0];
    let mut lanes: Vec<LaneID> = Vec::new();
    let mut k: usize = 0;
    while k < it.incoming_lanes.len()
        invariant
            k <= it.incoming_lanes@.len(),
            lanes@ == it.incoming_lanes@.take(k as int),
        decreases it.incoming_lanes.len() - k,
    {
        lanes.push(it.incoming_lanes[k]);
        assert(it.incoming_lanes@.take(k as int + 1) =~= it.incoming_lanes@.take(k as int).push(
            it.incoming_lanes@[k as int],
        ));
        k += 1;
    }
    assert(it.incoming_lanes@.take(k as int) =~= it.incoming_lanes@);
    lanes
}

/// What the ranks of the roads at intersection `id` call for: a sign over the intersection's
/// turns whose `Priority` turns do not conflict, chosen by the number of roads and the ranks of
/// the incoming ones, and whether a dead end or degenerate intersection fell back to an all-way
/// stop.
pub open spec fn is_smart_assignment(
    map: &StreetMap,
    id: IntersectionID,
    r: (ControlStopSign, bool),
) -> bool {
    &&& r.1 == (map.intersections@[id.0 as int].roads@.len() <= 2 && !degenerate_compatible(map, id))
    &&& ({
            let ss = r.0;
            &&& ss.id == id
            &&& covers_turns(ss, map)
            &&& ss.well_formed()
            &&& ss.priority_turns_compatible(map)
            &&& map.intersections@[id.0 as int].roads@.len() <= 2 ==> forall|k: int|
                0 <= k < ss.turns@.len() ==> #[trigger] ss.turns@[k].1 == if degenerate_compatible(
                    map,
                    id,
                ) {
                    degenerate_priority(map, ss.turns@[k].0)
                } else {
                    TurnPriority::Stop
                }
            &&& map.intersections@[id.0 as int].roads@.len() > 2 && one_rank(
                map,
                ranked_lanes(map, id),
            ) ==> forall|k: int|
                0 <= k < ss.turns@.len() ==> #[trigger] ss.turns@[k].1 == TurnPriority::Stop
            &&& map.intersections@[id.0 as int].roads@.len() > 2 && !one_rank(
                map,
                ranked_lanes(map, id),
            ) ==> forall|k: int|
                0 <= k < ss.turns@.len() ==> #[trigger] ss.turns@[k].1 == ranked_priority(
                    map,
                    ss.turns@.take(k),
                    ss.turns@[k].0,
                    max_rank(map, ranked_lanes(map, id)),
                )
        })
}

/// The highway classes that decide an intersection's ranks are all known: it has at most two
/// roads, or every incoming lane's road has a known class.
pub open spec fn highways_known(map: &StreetMap, id: IntersectionID) -> bool {
    map.intersections@[id.0 as int].roads@.len() <= 2 || ranks_known(map, ranked_lanes(map, id))
}

/// A road of intersection `id` whose highway class has no known rank, where it matters; callers
/// check this before `smart_assignment`.
pub fn find_unknown_highway(map: &StreetMap, id: IntersectionID) -> (r: Option<RoadID>)
    requires
        map.items_valid(),
        map.has_intersection(id),
    ensures
        r is None <==> highways_known(map, id),
        r matches Some(road) ==> exists|k: int|
            0 <= k < ranked_lanes(map, id).len() && map.lane_rank(#[trigger] ranked_lanes(map, id)[k])
                is None && map.lanes@[ranked_lanes(map, id)[k].0 as int].parent == road,
{
    let it = &map.intersections[id.0];
    if it.roads.len() <= 2 {
        return None;
    }
    let mut k: usize = 0;
    while k < it.incoming_lanes.len()
        invariant
            map.items_valid(),
            map.has_intersection(id),
            *it == map.intersections@[id.0 as int],
            it.roads@.len() > 2,
            k <= it.incoming_lanes@.len(),
            forall|j: int| 0 <= j < k ==> (#[trigger] map.lane_rank(it.incoming_lanes@[j])) is Some,
        decreases it.incoming_lanes.len() - k,
    {
        let l = it.incoming_lanes[k];
        assert(l.0 < map.lanes@.len());
        if map.get_lane_rank(l).is_none() {
            assert(ranked_lanes(map, id)[k as int] == l);
            assert(map.lane_rank(ranked_lanes(map, id)[k as int]) is None);
            return Some(map.lanes[l.0].parent);
        }
        k += 1;
    }
    None
}

/// Assigns a priority to every turn of intersection `id` from the ranks of its roads.
pub fn smart_assignment(map: &StreetMap, id: IntersectionID) -> (r: (ControlStopSign, bool))
    requires
        map.well_formed(),
        map.has_intersection(id),
        highways_known(map, id),
    ensures
        is_smart_assignment(map, id, r),
{
    if map.intersections[id.0].roads.len() <= 2 {
        return for_degenerate_and_deadend(map, id);
    }
    let lanes = ranked_lanes_of(map, id);
    let ghost ls = lanes@;
    let mut highest: u8 = 0;
    let mut first: u8 = 0;
    let mut same = true;
    let mut k: usize = 0;
    while k < lanes.len()
        invariant
            map.well_formed(),
            map.has_intersection(id),
            ls == lanes@,
            ls == ranked_lanes(map, id),
            ranks_known(map, ls),
            map.intersections@[id.0 as int].roads@.len() > 2,
            k <= ls.len(),
            highest == max_rank(map, ls.take(k as int)),
            ranks_known(map, ls.take(k as int)),
            k > 0 ==> map.lane_rank(ls[0]) == Some(first),
            same == forall|j: int| 0 <= j < k ==> #[trigger] map.lane_rank(ls[j]) == Some(first),
        decreases lanes.len() - k,
    {
        let l = lanes[k];
        proof {
            let it = map.intersections@[id.0 as int];
            assert(it.incoming_lanes@[k as int] == l);
            assert(map.lane_rank(ls[k as int]) is Some);
        }
        match map.get_lane_rank(l) {
            None => {},
            Some(rank) => {
                if k == 0 {
                    first = rank;
                }
                if rank != first {
                    same = false;
                }
                proof {
                    assert(ls.take(k as int + 1).drop_last() =~= ls.take(k as int));
                    assert(ls.take(k as int + 1).last() == l);
                    assert forall|j: int| 0 <= j < k + 1 implies (#[trigger] map.lane_rank(
                        ls.take(k as int + 1)[j],
                    )).is_some() by {
                        if j < k {
                            assert(ls.take(k as int + 1)[j] == ls.take(k as int)[j]);
                        }
                    }
                }
                if rank > highest {
                    highest = rank;
                }
            },
        }
        k += 1;
    }
    assert(ls.take(ls.len() as int) =~= ls);
    if same && lanes.len() > 0 {
        let ss = all_way_stop(map, id);
        assert(one_rank(map, ls));
        return (ss, false);
    }
    assert(!one_rank(map, ls)) by {
        if one_rank(map, ls) {
            assert forall|j: int| 0 <= j < ls.len() implies #[trigger] map.lane_rank(ls[j]) == Some(
                first,
            ) by {
                assert(map.lane_rank(ls[j]) == map.lane_rank(ls[0]));
            }
        }
    }
    let turns = &map.intersections[id.0].turns;
    let mut ss = ControlStopSign { id, turns: Vec::new() };
    let mut k: usize = 0;
    while k < turns.len()
        invariant
            map.well_formed(),
            map.has_intersection(id),
            *turns == map.intersections@[id.0 as int].turns,
            k <= turns@.len(),
            ss.id == id,
            ss.turns@.len() == k,
            forall|j: int| 0 <= j < k ==> #[trigger] ss.turns@[j].0 == turns@[j],
            forall|j: int|
                0 <= j < k ==> #[trigger] ss.turns@[j].1 == ranked_priority(
                    map,
                    ss.turns@.take(j),
                    ss.turns@[j].0,
                    highest,
                ),
            ss.turns_known(map),
            ss.priority_turns_compatible(map),
        decreases turns.len() - k,
    {
        let t = turns[k];
        proof {
            let it = map.intersections@[id.0 as int];
            assert(it.turns@[k as int] == t);
            assert(it.incoming_lanes@.contains(t.src));
            let q = choose|q: int| 0 <= q < it.incoming_lanes@.len() && it.incoming_lanes@[q] == t.src;
            assert(it.incoming_lanes@[q] == t.src);
        }
        let pri = if map.get_lane_rank(t.src) == Some(highest) {
            if map.get_t(t).turn_type != TurnType::Left && ss.could_be_priority_turn(t, map) {
                TurnPriority::Priority
            } else {
                TurnPriority::Yield
            }
        } else {
            TurnPriority::Stop
        };
        let ghost old_turns = ss.turns@;
        ss.turns.push((t, pri));
        proof {
            assert(ss.turns@.take(k as int) =~= old_turns);
            assert forall|j: int| 0 <= j < k implies #[trigger] ss.turns@.take(j) =~= old_turns.take(
                j,
            ) by {}
            assert forall|a: int, b: int|
                0 <= a < ss.turns@.len() && 0 <= b < ss.turns@.len() && ss.turns@[a].1
                    == TurnPriority::Priority && ss.turns@[b].1
                    == TurnPriority::Priority implies !map.conflicts(
                #[trigger] ss.turns@[a].0,
                #[trigger] ss.turns@[b].0,
            ) by {
                lemma_conflicts_symmetric(map, ss.turns@[a].0, ss.turns@[b].0);
                if a == k && b < k {
                    assert(old_turns[b] == ss.turns@[b]);
                } else if b == k && a < k {
                    assert(old_turns[a] == ss.turns@[a]);
                } else if a < k && b < k {
                    assert(old_turns[a] == ss.turns@[a]);
                    assert(old_turns[b] == ss.turns@[b]);
                }
            }
            assert forall|j: int| 0 <= j < ss.turns@.len() implies map.has_turn(
                #[trigger] ss.turns@[j].0,
            ) by {
                if j < k {
                    assert(old_turns[j] == ss.turns@[j]);
                }
            }
        }
        k += 1;
    }
    proof {
        lemma_covers_well_formed(ss, map);
    }
    (ss, false)
}

impl ControlStopSign {
    /// The stop sign that the ranks of the roads at intersection `id` call for, and whether it
    /// fell back to an all-way stop. Every turn of the intersection is covered and no two
    /// `Priority` turns conflict, so there is nothing left for `validate` to report.
    pub fn new(map: &StreetMap, id: IntersectionID) -> (r: (ControlStopSign, bool))
        requires
            map.well_formed(),
            map.has_intersection(id),
            highways_known(map, id),
        ensures
            is_smart_assignment(map, id, r),
    {
        smart_assignment(map, id)
    }
}

} // verus!

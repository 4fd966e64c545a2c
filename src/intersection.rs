use vstd::prelude::*;
use crate::ids::{AgentID, Duration, IntersectionID, LaneID, TurnID};
use crate::map::{ControlTrafficSignal, StreetMap, TurnPriority};
use crate::scheduler::{not_occurrence, Command, Scheduler};
use crate::stop_signs::ControlStopSign;

verus! {

/// An agent's claim on a turn.
#[derive(Clone, Copy, Debug, PartialEq, Eq, Structural, PartialOrd, Ord, Hash)]
pub struct Request {
    pub agent: AgentID,
    pub turn: TurnID,
}

/// Who is doing a turn at one intersection, and who waits for one, first come first.
#[derive(Debug)]
pub struct State {
    pub id: IntersectionID,
    pub accepted: Vec<Request>,
    pub waiting: Vec<Request>,
}

#[derive(Debug)]
pub struct IntersectionSimState {
    /// One entry per intersection of the map, at the index of its identifier.
    pub state: Vec<State>,
}

pub open spec fn no_duplicates(s: Seq<Request>) -> bool {
    forall|a: int, b: int| 0 <= a < s.len() && 0 <= b < s.len() && a != b ==> s[a] != s[b]
}

/// The command that makes `agent` reconsider what it is doing.
pub open spec fn update_cmd(agent: AgentID) -> Command {
    match agent {
        AgentID::Car(id) => Command::UpdateCar(id),
        AgentID::Pedestrian(id) => Command::UpdatePed(id),
    }
}

/// The scheduler's events after waking each agent of `reqs` in order at `now`.
pub open spec fn woken(
    items: Seq<(Duration, Command)>,
    reqs: Seq<Request>,
    now: Duration,
) -> Seq<(Duration, Command)>
    decreases reqs.len(),
{
    if reqs.len() == 0 {
        items
    } else {
        let cmd = update_cmd(reqs.last().agent);
        woken(items, reqs.drop_last(), now).filter(not_occurrence(cmd.spec_key())).push((now, cmd))
    }
}

impl State {
    /// Some accepted request's turn conflicts with `t`.
    pub open spec fn any_conflict(self, map: &StreetMap, t: TurnID) -> bool {
        exists|k: int| 0 <= k < self.accepted@.len() && map.conflicts(#[trigger] self.accepted@[k].turn, t)
    }

    /// No two accepted requests refer to conflicting turns.
    pub open spec fn accepted_conflict_free(self, map: &StreetMap) -> bool {
        forall|a: int, b: int|
            0 <= a < self.accepted@.len() && 0 <= b < self.accepted@.len() ==> !map.conflicts(
                #[trigger] self.accepted@[a].turn,
                #[trigger] self.accepted@[b].turn,
            )
    }

    pub open spec fn freeform_allows(self, map: &StreetMap, req: Request) -> bool {
        !self.any_conflict(map, req.turn)
    }

    /// A waiting request of the same priority as `req` that queued before it (or any, if `req`
    /// does not wait yet).
    pub open spec fn equal_queued_before(self, sign: ControlStopSign, req: Request) -> bool {
        exists|k: int|
            0 <= k < self.waiting@.len() && sign.priority(#[trigger] self.waiting@[k].turn)
                == sign.priority(req.turn) && forall|p: int| 0 <= p <= k ==> self.waiting@[p] != req
    }

    /// No conflicting turn is in progress, no waiting request has a higher priority, and no
    /// waiting request of equal priority queued earlier.
    pub open spec fn stop_sign_allows(self, sign: ControlStopSign, map: &StreetMap, req: Request) -> bool {
        &&& !self.any_conflict(map, req.turn)
        &&& !exists|k: int|
            0 <= k < self.waiting@.len() && sign.priority(#[trigger] self.waiting@[k].turn).rank()
                > sign.priority(req.turn).rank()
        &&& !self.equal_queued_before(sign, req)
    }

    /// Every accepted turn may still go in the current cycle, so may `req`'s turn, and no
    /// accepted turn conflicts with it.
    pub open spec fn signal_allows(
        self,
        signal: ControlTrafficSignal,
        map: &StreetMap,
        req: Request,
        now: Duration,
    ) -> bool {
        let cycle = signal.current_cycle(now);
        &&& forall|k: int|
            0 <= k < self.accepted@.len() ==> cycle.spec_priority(#[trigger] self.accepted@[k].turn).rank()
                >= TurnPriority::Yield.rank()
        &&& cycle.spec_priority(req.turn).rank() >= TurnPriority::Yield.rank()
        &&& !self.any_conflict(map, req.turn)
    }

    /// The decision of the intersection's policy on `req` at `now`.
    pub open spec fn allows(self, map: &StreetMap, req: Request, now: Duration) -> bool {
        match map.spec_signal(self.id) {
            Some(signal) => self.signal_allows(signal, map, req, now),
            None => match map.spec_stop_sign(self.id) {
                Some(sign) => self.stop_sign_allows(sign, map, req),
                None => self.freeform_allows(map, req),
            },
        }
    }

    /// Some accepted turn may no longer go in the cycle current at `time`.
    pub open spec fn spec_in_overtime(self, signal: ControlTrafficSignal, time: Duration) -> bool {
        exists|k: int|
            0 <= k < self.accepted@.len() && signal.current_cycle(time).spec_priority(
                #[trigger] self.accepted@[k].turn,
            ).rank() < TurnPriority::Yield.rank()
    }

    pub open spec fn well_formed(self, map: &StreetMap, i: int) -> bool {
        &&& self.id.0 == i
        &&& forall|k: int|
            0 <= k < self.accepted@.len() ==> (#[trigger] self.accepted@[k]).turn.parent.0 == i
                && map.has_turn(self.accepted@[k].turn)
        &&& forall|k: int|
            0 <= k < self.waiting@.len() ==> (#[trigger] self.waiting@[k]).turn.parent.0 == i
                && map.has_turn(self.waiting@[k].turn)
        &&& no_duplicates(self.accepted@)
        &&& no_duplicates(self.waiting@)
        &&& self.accepted_conflict_free(map)
    }

    fn any_accepted_conflict_with(&self, t: TurnID, map: &StreetMap) -> (r: bool)
        requires
            map.turn_ids_unique(),
            map.has_turn(t),
            forall|k: int| 0 <= k < self.accepted@.len() ==> map.has_turn(#[trigger] self.accepted@[k].turn),
        ensures
            r == self.any_conflict(map, t),
    {
        let mut k: usize = 0;
        while k < self.accepted.len()
            invariant
                k <= self.accepted@.len(),
                map.turn_ids_unique(),
                map.has_turn(t),
                forall|j: int| 0 <= j < self.accepted@.len() ==> map.has_turn(#[trigger] self.accepted@[j].turn),
                forall|j: int| 0 <= j < k ==> !map.conflicts(#[trigger] self.accepted@[j].turn, t),
            decreases self.accepted.len() - k,
        {
            if map.conflicts_between(self.accepted[k].turn, t) {
                return true;
            }
            k += 1;
        }
        false
    }

    fn freeform_policy(&self, req: &Request, map: &StreetMap) -> (r: bool)
        requires
            map.turn_ids_unique(),
            map.has_turn(req.turn),
            forall|k: int| 0 <= k < self.accepted@.len() ==> map.has_turn(#[trigger] self.accepted@[k].turn),
        ensures
            r == self.freeform_allows(map, *req),
    {
        !self.any_accepted_conflict_with(req.turn, map)
    }

    fn stop_sign_policy(&self, sign: &ControlStopSign, req: &Request, map: &StreetMap) -> (r: bool)
        requires
            map.turn_ids_unique(),
            map.has_turn(req.turn),
            forall|k: int| 0 <= k < self.accepted@.len() ==> map.has_turn(#[trigger] self.accepted@[k].turn),
            sign.well_formed(),
            sign.has(req.turn),
            forall|k: int| 0 <= k < self.waiting@.len() ==> sign.has(#[trigger] self.waiting@[k].turn),
        ensures
            r == self.stop_sign_allows(*sign, map, *req),
    {
        if self.any_accepted_conflict_with(req.turn, map) {
            return false;
        }
        let this_priority = sign.get_priority(req.turn);
        let this_rank = this_priority.get_rank();
        let n = self.waiting.len();
        // A higher rank turn waits.
        let mut k: usize = 0;
        while k < n
            invariant
                n == self.waiting@.len(),
                k <= n,
                sign.well_formed(),
                this_priority == sign.priority(req.turn),
                this_rank == this_priority.rank(),
                forall|j: int| 0 <= j < n ==> sign.has(#[trigger] self.waiting@[j].turn),
                forall|j: int|
                    0 <= j < k ==> sign.priority(#[trigger] self.waiting@[j].turn).rank() <= this_rank,
            decreases n - k,
        {
            if sign.get_priority(self.waiting[k].turn).get_rank() > this_rank {
                return false;
            }
            k += 1;
        }
        // An equal rank turn queued before this one.
        let mut k: usize = 0;
        while k < n
            invariant
                n == self.waiting@.len(),
                k <= n,
                sign.well_formed(),
                this_priority == sign.priority(req.turn),
                forall|j: int| 0 <= j < n ==> sign.has(#[trigger] self.waiting@[j].turn),
                forall|j: int| 0 <= j < k ==> self.waiting@[j] != *req,
                this_rank == this_priority.rank(),
                !self.any_conflict(map, req.turn),
                forall|j: int|
                    0 <= j < n ==> sign.priority(#[trigger] self.waiting@[j].turn).rank() <= this_rank,
                forall|j: int|
                    0 <= j < k ==> sign.priority(#[trigger] self.waiting@[j].turn) != this_priority,
            decreases n - k,
        {
            if self.waiting[k] == *req {
                proof {
                    assert forall|q: int|
                        0 <= q < n && sign.priority(#[trigger] self.waiting@[q].turn) == sign.priority(
                            req.turn,
                        ) implies !(forall|p: int| 0 <= p <= q ==> self.waiting@[p] != *req) by {
                        if q >= k {
                            assert(self.waiting@[k as int] == *req);
                        }
                    }
                }
                return true;
            }
            if sign.get_priority(self.waiting[k].turn) == this_priority {
                proof {
                    assert(forall|p: int| 0 <= p <= k ==> self.waiting@[p] != *req);
                }
                return false;
            }
            k += 1;
        }
        true
    }

    fn traffic_signal_policy(
        &self,
        signal: &ControlTrafficSignal,
        new_req: &Request,
        time: Duration,
        map: &StreetMap,
    ) -> (r: bool)
        requires
            map.turn_ids_unique(),
            map.has_turn(new_req.turn),
            forall|k: int| 0 <= k < self.accepted@.len() ==> map.has_turn(#[trigger] self.accepted@[k].turn),
            signal.well_formed(),
        ensures
            r == self.signal_allows(*signal, map, *new_req, time),
    {
        let (c, _remaining) = signal.current_cycle_and_remaining_time(time);
        let cycle = &signal.cycles[c];
        let yield_rank = TurnPriority::Yield.get_rank();
        // Maintain safety when agents over-run the cycle.
        let mut k: usize = 0;
        while k < self.accepted.len()
            invariant
                k <= self.accepted@.len(),
                *cycle == signal.current_cycle(time),
                yield_rank == TurnPriority::Yield.rank(),
                forall|j: int|
                    0 <= j < k ==> cycle.spec_priority(#[trigger] self.accepted@[j].turn).rank()
                        >= yield_rank,
            decreases self.accepted.len() - k,
        {
            if cycle.get_priority(self.accepted[k].turn).get_rank() < yield_rank {
                return false;
            }
            k += 1;
        }
        if cycle.get_priority(new_req.turn).get_rank() < yield_rank {
            return false;
        }
        !self.any_accepted_conflict_with(new_req.turn, map)
    }
}

fn position(v: &Vec<Request>, req: &Request) -> (r: Option<usize>)
    ensures
        r matches Some(i) ==> i < v@.len() && v@[i as int] == *req && forall|p: int|
            0 <= p < i ==> v@[p] != *req,
        r is None ==> !v@.contains(*req),
{
    let mut i: usize = 0;
    while i < v.len()
        invariant
            i <= v@.len(),
            forall|p: int| 0 <= p < i ==> v@[p] != *req,
        decreases v.len() - i,
    {
        if v[i] == *req {
            return Some(i);
        }
        i += 1;
    }
    None
}

/// The events that constructing the simulation schedules for the first `n` intersections: one
/// `UpdateIntersection` per traffic signal, at the end of its first cycle.
pub open spec fn initial_signal_events(map: &StreetMap, n: int) -> Seq<(Duration, Command)>
    decreases n,
{
    if n <= 0 {
        Seq::empty()
    } else {
        let i = IntersectionID((n - 1) as usize);
        initial_signal_events(map, n - 1) + match map.spec_signal(i) {
            Some(signal) => seq![
                (signal.spec_current(0).1 as Duration, Command::UpdateIntersection(i)),
            ],
            None => Seq::empty(),
        }
    }
}

impl IntersectionSimState {
    /// One state per intersection of the map, each holding only valid, distinct requests, with no
    /// two accepted requests on conflicting turns.
    pub open spec fn well_formed(&self, map: &StreetMap) -> bool {
        &&& self.state@.len() == map.intersections@.len()
        &&& forall|i: int| 0 <= i < self.state@.len() ==> (#[trigger] self.state@[i]).well_formed(map, i)
    }

    pub open spec fn at(&self, i: IntersectionID) -> State {
        self.state@[i.0 as int]
    }

    /// Wakes every agent waiting at `i`.
    fn wake_all(&self, i: IntersectionID, now: Duration, scheduler: &mut Scheduler)
        requires
            i.0 < self.state@.len(),
            old(scheduler).well_formed(),
            now >= old(scheduler).latest_time,
        ensures
            final(scheduler).well_formed(),
            final(scheduler).latest_time == old(scheduler).latest_time,
            final(scheduler).items@ == woken(old(scheduler).items@, self.at(i).waiting@, now),
    {
        let waiting = &self.state[i.0].waiting;
        let mut k: usize = 0;
        while k < waiting.len()
            invariant
                *waiting == self.at(i).waiting,
                k <= waiting@.len(),
                scheduler.well_formed(),
                scheduler.latest_time == old(scheduler).latest_time,
                now >= scheduler.latest_time,
                scheduler.items@ == woken(old(scheduler).items@, waiting@.take(k as int), now),
            decreases waiting.len() - k,
        {
            let cmd = Command::update_agent(waiting[k].agent);
            scheduler.update(cmd, now);
            proof {
                let t = waiting@.take(k as int + 1);
                assert(t.drop_last() =~= waiting@.take(k as int));
            }
            k += 1;
        }
        assert(waiting@.take(waiting@.len() as int) =~= waiting@);
    }

    pub fn new(map: &StreetMap, scheduler: &mut Scheduler) -> (r: IntersectionSimState)
        requires
            map.well_formed(),
            old(scheduler).well_formed(),
            old(scheduler).latest_time == 0,
        ensures
            r.well_formed(map),
            forall|i: int|
                0 <= i < r.state@.len() ==> (#[trigger] r.state@[i]).accepted@.len() == 0
                    && r.state@[i].waiting@.len() == 0,
            final(scheduler).well_formed(),
            final(scheduler).latest_time == 0,
            final(scheduler).items@ == old(scheduler).items@ + initial_signal_events(
                map,
                map.intersections@.len() as int,
            ),
    {
        let mut sim = IntersectionSimState { state: Vec::new() };
        let n = map.intersections.len();
        let mut i: usize = 0;
        while i < n
            invariant
                n == map.intersections@.len(),
                i <= n,
                map.well_formed(),
                sim.state@.len() == i,
                forall|j: int|
                    0 <= j < i ==> (#[trigger] sim.state@[j]).well_formed(map, j)
                        && sim.state@[j].accepted@.len() == 0 && sim.state@[j].waiting@.len() == 0,
                scheduler.well_formed(),
                scheduler.latest_time == 0,
                scheduler.items@ == old(scheduler).items@ + initial_signal_events(map, i as int),
            decreases n - i,
        {
            let id = IntersectionID(i);
            sim.state.push(State { id, accepted: Vec::new(), waiting: Vec::new() });
            let ghost before = scheduler.items@;
            if map.maybe_get_traffic_signal(id).is_some() {
                proof {
                    assert(map.controls@[i as int] is TrafficSignal);
                }
                sim.update_intersection(0, id, map, scheduler);
                assert(sim.at(id).waiting@.len() == 0);
                assert(woken(before, sim.at(id).waiting@, 0) == before);
            }
            proof {
                assert(old(scheduler).items@ + initial_signal_events(map, i as int + 1) =~= before
                    + match map.spec_signal(id) {
                    Some(signal) => seq![
                        (signal.spec_current(0).1 as Duration, Command::UpdateIntersection(id)),
                    ],
                    None => Seq::empty(),
                });
            }
            i += 1;
        }
        sim
    }

    /// Is no accepted turn at `i` headed to `lane`?
    pub fn nobody_headed_towards(&self, lane: LaneID, i: IntersectionID) -> (r: bool)
        requires
            i.0 < self.state@.len(),
        ensures
            r == !exists|k: int|
                0 <= k < self.at(i).accepted@.len() && (#[trigger] self.at(i).accepted@[k]).turn.dst
                    == lane,
    {
        let accepted = &self.state[i.0].accepted;
        let mut k: usize = 0;
        while k < accepted.len()
            invariant
                *accepted == self.at(i).accepted,
                k <= accepted@.len(),
                forall|j: int| 0 <= j < k ==> (#[trigger] accepted@[j]).turn.dst != lane,
            decreases accepted.len() - k,
        {
            if accepted[k].turn.dst == lane {
                return false;
            }
            k += 1;
        }
        true
    }

    /// The agent finished its turn: it leaves the accepted requests, and every agent waiting at
    /// the intersection is woken at `now`.
    pub fn turn_finished(&mut self, now: Duration, agent: AgentID, turn: TurnID, scheduler: &mut Scheduler)
        requires
            old(self).state@.len() > turn.parent.0,
            old(self).at(turn.parent).accepted@.contains(Request { agent, turn }),
            old(scheduler).well_formed(),
            now >= old(scheduler).latest_time,
        ensures
            final(self).state@.len() == old(self).state@.len(),
            forall|j: int|
                0 <= j < old(self).state@.len() && j != turn.parent.0 ==> #[trigger] final(self).state@[j]
                    == old(self).state@[j],
            final(self).at(turn.parent).id == old(self).at(turn.parent).id,
            final(self).at(turn.parent).waiting == old(self).at(turn.parent).waiting,
            forall|map: &StreetMap| #[trigger] old(self).well_formed(map) ==> final(self).well_formed(map),
            exists|k: int|
                0 <= k < old(self).at(turn.parent).accepted@.len()
                    && old(self).at(turn.parent).accepted@[k] == (Request { agent, turn })
                    && final(self).at(turn.parent).accepted@ == old(self).at(
                    turn.parent,
                ).accepted@.remove(k),
            final(scheduler).well_formed(),
            final(scheduler).latest_time == old(scheduler).latest_time,
            final(scheduler).items@ == woken(
                old(scheduler).items@,
                old(self).at(turn.parent).waiting@,
                now,
            ),
    {
        let i = turn.parent.0;
        let req = Request { agent, turn };
        let idx = match position(&self.state[i].accepted, &req) {
            Some(idx) => idx,
            None => {
                assert(false);
                0
            },
        };
        let mut st = self.state.remove(i);
        st.accepted.remove(idx);
        self.state.insert(i, st);
        proof {
            assert forall|map: &StreetMap| #[trigger] old(self).well_formed(map) implies self.well_formed(map) by {
                let o = old(self).state@[i as int];
                let n = self.state@[i as int];
                assert(n.accepted@ == o.accepted@.remove(idx as int));
                assert forall|a: int, b: int|
                    0 <= a < n.accepted@.len() && 0 <= b < n.accepted@.len() implies !map.conflicts(
                        #[trigger] n.accepted@[a].turn,
                        #[trigger] n.accepted@[b].turn,
                    ) by {
                    let oa = if a < idx { a } else { a + 1 };
                    let ob = if b < idx { b } else { b + 1 };
                    assert(n.accepted@[a] == o.accepted@[oa]);
                    assert(n.accepted@[b] == o.accepted@[ob]);
                }
                assert forall|a: int, b: int|
                    0 <= a < n.accepted@.len() && 0 <= b < n.accepted@.len() && a != b implies n.accepted@[a]
                        != n.accepted@[b] by {
                    let oa = if a < idx { a } else { a + 1 };
                    let ob = if b < idx { b } else { b + 1 };
                    assert(n.accepted@[a] == o.accepted@[oa]);
                    assert(n.accepted@[b] == o.accepted@[ob]);
                }
                assert forall|k: int| 0 <= k < n.accepted@.len() implies (#[trigger] n.accepted@[k]).turn.parent.0
                    == i && map.has_turn(n.accepted@[k].turn) by {
                    let ok = if k < idx { k } else { k + 1 };
                    assert(n.accepted@[k] == o.accepted@[ok]);
                }
                assert forall|j: int| 0 <= j < self.state@.len() implies (#[trigger] self.state@[j]).well_formed(map, j) by {
                    if j != i {
                        assert(self.state@[j] == old(self).state@[j]);
                    }
                }
            }
            assert forall|j: int| 0 <= j < old(self).state@.len() && j != i implies #[trigger] self.state@[j]
                == old(self).state@[j] by {
                if j < i {
                } else {
                }
            }
        }
        self.wake_all(turn.parent, now, scheduler);
    }

    /// Called when a traffic signal's cycle ends: wakes every agent waiting at `id`, and schedules
    /// the next call at the end of the cycle now beginning.
    pub fn update_intersection(
        &self,
        now: Duration,
        id: IntersectionID,
        map: &StreetMap,
        scheduler: &mut Scheduler,
    )
        requires
            map.well_formed(),
            id.0 < self.state@.len(),
            map.has_intersection(id),
            map.spec_signal(id) is Some,
            old(scheduler).well_formed(),
            now >= old(scheduler).latest_time,
            now + map.spec_signal(id).unwrap().total() <= u64::MAX,
        ensures
            final(scheduler).well_formed(),
            final(scheduler).latest_time == old(scheduler).latest_time,
            final(scheduler).items@ == woken(old(scheduler).items@, self.at(id).waiting@, now).push(
                (
                    (now + map.spec_signal(id).unwrap().spec_current(now).1) as Duration,
                    Command::UpdateIntersection(id),
                ),
            ),
    {
        let signal = match map.maybe_get_traffic_signal(id) {
            Some(s) => s,
            None => {
                assert(false);
                return;
            },
        };
        assert(map.controls@[id.0 as int] is TrafficSignal);
        let (_, remaining) = signal.current_cycle_and_remaining_time(now);
        assert(remaining <= signal.total()) by {
            lemma_cycle_within_total(signal.cycles@, 0, (now as int) % (signal.total() as int));
        }
        self.wake_all(id, now, scheduler);
        scheduler.push(now + remaining, Command::UpdateIntersection(id));
    }
}

/// The time left in the cycle running `left` after cycle `i` began is at most the time from
/// cycle `i` to the end of the round.
proof fn lemma_cycle_within_total(cycles: Seq<crate::map::Cycle>, i: int, left: int)
    requires
        0 <= i,
        0 <= left,
    ensures
        crate::map::cycle_at(cycles, i, left).1 <= crate::map::cycles_from(cycles, i),
    decreases cycles.len() - i,
{
    if i < cycles.len() && left >= cycles[i].duration {
        lemma_cycle_within_total(cycles, i + 1, left - cycles[i].duration);
    }
}

impl IntersectionSimState {
    /// Called when `agent` is ready to begin `turn`. Returns whether the intersection's policy
    /// accepts it; then the agent must do the turn, and its request moves from the waiting queue
    /// to the accepted ones. Otherwise the request joins the end of the waiting queue, unless it
    /// is there already, and the agent waits to be woken.
    pub fn maybe_start_turn(&mut self, agent: AgentID, turn: TurnID, now: Duration, map: &StreetMap) -> (r:
        bool)
        requires
            map.well_formed(),
            old(self).well_formed(map),
            map.has_intersection(turn.parent),
            map.has_turn(turn),
            map.spec_stop_sign(turn.parent) matches Some(sign) ==> sign.priority(turn)
                != TurnPriority::Banned,
        ensures
            final(self).well_formed(map),
            r == old(self).at(turn.parent).allows(map, Request { agent, turn }, now),
            forall|j: int|
                0 <= j < old(self).state@.len() && j != turn.parent.0 ==> #[trigger] final(self).state@[j]
                    == old(self).state@[j],
            final(self).at(turn.parent).id == old(self).at(turn.parent).id,
            ({
                let (o, n, req) = (old(self).at(turn.parent), final(self).at(turn.parent), Request { agent, turn });
                if r {
                    &&& n.accepted@ == if o.accepted@.contains(req) {
                        o.accepted@
                    } else {
                        o.accepted@.push(req)
                    }
                    &&& if o.waiting@.contains(req) {
                        exists|k: int|
                            0 <= k < o.waiting@.len() && o.waiting@[k] == req && n.waiting@
                                == o.waiting@.remove(k)
                    } else {
                        n.waiting@ == o.waiting@
                    }
                } else {
                    &&& n.accepted@ == o.accepted@
                    &&& n.waiting@ == if o.waiting@.contains(req) {
                        o.waiting@
                    } else {
                        o.waiting@.push(req)
                    }
                }
            }),
    {
        let i = turn.parent.0;
        let req = Request { agent, turn };
        proof {
            assert(self.state@[i as int].well_formed(map, i as int));
        }
        let allowed = {
            let st = &self.state[i];
            if let Some(signal) = map.maybe_get_traffic_signal(st.id) {
                proof {
                    assert(map.controls@[i as int] is TrafficSignal);
                }
                st.traffic_signal_policy(signal, &req, now, map)
            } else if let Some(sign) = map.maybe_get_stop_sign(st.id) {
                proof {
                    assert(map.controls@[i as int] is StopSign);
                    assert forall|k: int| 0 <= k < st.waiting@.len() implies sign.has(
                        #[trigger] st.waiting@[k].turn,
                    ) by {
                        assert(map.has_turn(st.waiting@[k].turn));
                    }
                }
                st.stop_sign_policy(sign, &req, map)
            } else {
                st.freeform_policy(&req, map)
            }
        };
        let maybe_idx = position(&self.state[i].waiting, &req);
        let already = position(&self.state[i].accepted, &req);
        let mut st = self.state.remove(i);
        let ghost o = st;
        if allowed {
            if let Some(idx) = maybe_idx {
                st.waiting.remove(idx);
            }
            if already.is_none() {
                st.accepted.push(req);
            }
        } else {
            if maybe_idx.is_none() {
                st.waiting.push(req);
            }
        }
        self.state.insert(i, st);
        proof {
            let n = st;
            assert(o.well_formed(map, i as int));
            assert(n.id == o.id);
            if allowed {
                assert(!o.any_conflict(map, turn));
                if let Some(idx) = maybe_idx {
                    assert(o.waiting@.contains(req));
                }
                assert forall|a: int, b: int|
                    0 <= a < n.accepted@.len() && 0 <= b < n.accepted@.len() implies !map.conflicts(
                        #[trigger] n.accepted@[a].turn,
                        #[trigger] n.accepted@[b].turn,
                    ) by {
                    crate::stop_signs::lemma_conflicts_symmetric(map, n.accepted@[a].turn, n.accepted@[b].turn);
                    if a < o.accepted@.len() && b < o.accepted@.len() {
                        assert(n.accepted@[a] == o.accepted@[a]);
                        assert(n.accepted@[b] == o.accepted@[b]);
                    } else if a < o.accepted@.len() {
                        assert(n.accepted@[a] == o.accepted@[a]);
                    } else if b < o.accepted@.len() {
                        assert(n.accepted@[b] == o.accepted@[b]);
                    }
                }
                assert forall|a: int, b: int|
                    0 <= a < n.accepted@.len() && 0 <= b < n.accepted@.len() && a != b implies n.accepted@[a]
                        != n.accepted@[b] by {
                    if a < o.accepted@.len() && b < o.accepted@.len() {
                    } else if a < o.accepted@.len() {
                        assert(o.accepted@.contains(n.accepted@[a]));
                    } else if b < o.accepted@.len() {
                        assert(o.accepted@.contains(n.accepted@[b]));
                    }
                }
                if let Some(idx) = maybe_idx {
                    assert forall|a: int, b: int|
                        0 <= a < n.waiting@.len() && 0 <= b < n.waiting@.len() && a != b implies n.waiting@[a]
                            != n.waiting@[b] by {
                        let oa = if a < idx { a } else { a + 1 };
                        let ob = if b < idx { b } else { b + 1 };
                        assert(n.waiting@[a] == o.waiting@[oa]);
                        assert(n.waiting@[b] == o.waiting@[ob]);
                    }
                    assert forall|k: int| 0 <= k < n.waiting@.len() implies (#[trigger] n.waiting@[k]).turn.parent.0
                        == i && map.has_turn(n.waiting@[k].turn) by {
                        let ok = if k < idx { k } else { k + 1 };
                        assert(n.waiting@[k] == o.waiting@[ok]);
                    }
                }
            } else {
                assert forall|a: int, b: int|
                    0 <= a < n.waiting@.len() && 0 <= b < n.waiting@.len() && a != b implies n.waiting@[a]
                        != n.waiting@[b] by {
                    if a < o.waiting@.len() && b < o.waiting@.len() {
                    } else if a < o.waiting@.len() {
                        assert(o.waiting@.contains(n.waiting@[a]));
                    } else if b < o.waiting@.len() {
                        assert(o.waiting@.contains(n.waiting@[b]));
                    }
                }
            }
            assert(n.well_formed(map, i as int));
            assert forall|j: int| 0 <= j < self.state@.len() implies (#[trigger] self.state@[j]).well_formed(map, j) by {
                if j != i {
                    assert(self.state@[j] == old(self).state@[j]);
                }
            }
        }
        allowed
    }
}

impl IntersectionSimState {
    /// The agents doing a turn at `id`, in the order their requests were accepted.
    pub fn get_accepted_agents(&self, id: IntersectionID) -> (r: Vec<AgentID>)
        requires
            id.0 < self.state@.len(),
        ensures
            r@ == self.at(id).accepted@.map_values(|req: Request| req.agent),
    {
        let accepted = &self.state[id.0].accepted;
        let mut agents: Vec<AgentID> = Vec::new();
        let mut k: usize = 0;
        while k < accepted.len()
            invariant
                *accepted == self.at(id).accepted,
                k <= accepted@.len(),
                agents@ == accepted@.take(k as int).map_values(|req: Request| req.agent),
            decreases accepted.len() - k,
        {
            agents.push(accepted[k].agent);
            assert(accepted@.take(k as int + 1).map_values(|req: Request| req.agent) =~= accepted@.take(
                k as int,
            ).map_values(|req: Request| req.agent).push(accepted@[k as int].agent));
            k += 1;
        }
        assert(accepted@.take(accepted@.len() as int) =~= accepted@);
        agents
    }

    /// Is some agent at traffic signal `id` still doing a turn that the current cycle no longer
    /// allows? Never, at an intersection without a signal.
    pub fn is_in_overtime(&self, time: Duration, id: IntersectionID, map: &StreetMap) -> (r: bool)
        requires
            map.well_formed(),
            id.0 < self.state@.len(),
            map.has_intersection(id),
        ensures
            r == match map.spec_signal(id) {
                Some(signal) => self.at(id).spec_in_overtime(signal, time),
                None => false,
            },
    {
        match map.maybe_get_traffic_signal(id) {
            None => false,
            Some(signal) => {
                assert(map.controls@[id.0 as int] is TrafficSignal);
                let (c, _) = signal.current_cycle_and_remaining_time(time);
                let cycle = &signal.cycles[c];
                let accepted = &self.state[id.0].accepted;
                let mut k: usize = 0;
                while k < accepted.len()
                    invariant
                        *accepted == self.at(id).accepted,
                        *cycle == signal.current_cycle(time),
                        map.spec_signal(id) == Some(*signal),
                        k <= accepted@.len(),
                        forall|j: int|
                            0 <= j < k ==> cycle.spec_priority(#[trigger] accepted@[j].turn).rank()
                                >= TurnPriority::Yield.rank(),
                    decreases accepted.len() - k,
                {
                    if cycle.get_priority(accepted[k].turn).get_rank() < TurnPriority::Yield.get_rank() {
                        assert(self.at(id).accepted@[k as int] == accepted@[k as int]);
                        return true;
                    }
                    k += 1;
                }
                false
            },
        }
    }
}

/// Overtime safety: while an accepted turn at a traffic signal may no longer go in the current
/// cycle, the signal accepts no new request at all, conflicting or not.
pub proof fn lemma_overtime_blocks_new_turns(
    st: State,
    map: &StreetMap,
    req: Request,
    now: Duration,
)
    requires
        map.spec_signal(st.id) is Some,
        st.spec_in_overtime(map.spec_signal(st.id).unwrap(), now),
    ensures
        !st.allows(map, req, now),
{
}

/// First come, first served at stop signs: while two requests of equal priority wait at a stop
/// sign, the one that queued later is not accepted.
pub proof fn lemma_stop_sign_fifo(st: State, map: &StreetMap, a: int, b: int)
    requires
        map.spec_signal(st.id) is None,
        map.spec_stop_sign(st.id) is Some,
        no_duplicates(st.waiting@),
        0 <= a < b < st.waiting@.len(),
        map.spec_stop_sign(st.id).unwrap().priority(st.waiting@[a].turn) == map.spec_stop_sign(
            st.id,
        ).unwrap().priority(st.waiting@[b].turn),
    ensures
        forall|now: Duration| !st.allows(map, st.waiting@[b], now),
{
    let sign = map.spec_stop_sign(st.id).unwrap();
    assert(forall|p: int| 0 <= p <= a ==> st.waiting@[p] != st.waiting@[b]);
    assert(st.equal_queued_before(sign, st.waiting@[b]));
}

/// At every intersection of a well-formed simulation state, no two accepted requests are on
/// conflicting turns; `new`, `maybe_start_turn` and `turn_finished` keep the state well formed.
pub proof fn lemma_accepted_turns_never_conflict(
    sim: &IntersectionSimState,
    map: &StreetMap,
    i: int,
    a: int,
    b: int,
)
    requires
        sim.well_formed(map),
        0 <= i < sim.state@.len(),
        0 <= a < sim.state@[i].accepted@.len(),
        0 <= b < sim.state@[i].accepted@.len(),
    ensures
        !map.conflicts(sim.state@[i].accepted@[a].turn, sim.state@[i].accepted@[b].turn),
{
    assert(sim.state@[i].well_formed(map, i));
}

} // verus!

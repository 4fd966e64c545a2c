use vstd::prelude::*;
use rand::prng::XorShiftRng;
use crate::ids::{Duration, IntersectionID, RoadID};
use crate::intersection::{initial_signal_events, woken, IntersectionSimState};
use crate::map::StreetMap;
use crate::scheduler::{is_next, Command, Scheduler};
use crate::spawner::TripSpawner;
use crate::trips::TripManager;

verus! {

#[verifier::external_type_specification]
#[verifier::external_body]
pub struct ExXorShiftRng(XorShiftRng);

/// Relies on rand's `SeedableRng::from_seed` for `XorShiftRng`, which never fails.
#[verifier::external_body]
fn rng_from_seed(seed: u8) -> XorShiftRng {
    <XorShiftRng as rand::SeedableRng>::from_seed([seed; 16])
}

/// Relies on rand's `SeedableRng::from_rng` for `XorShiftRng`, fed by `EntropyRng::new` (which
/// does nothing until used): a seed drawn from the operating system, or `None` when every
/// entropy source of the platform fails.
#[verifier::external_body]
fn rng_from_entropy() -> Option<XorShiftRng> {
    <XorShiftRng as rand::SeedableRng>::from_rng(rand::rngs::EntropyRng::new()).ok()
}

/// Relies on rand's `Rng::shuffle`, which only swaps elements: the result is a permutation.
#[verifier::external_body]
fn shuffle_roads(rng: &mut XorShiftRng, roads: &mut Vec<RoadID>)
    ensures
        final(roads)@.to_multiset() == old(roads)@.to_multiset(),
        final(roads)@.len() == old(roads)@.len(),
{
    rand::Rng::shuffle(rng, roads.as_mut_slice())
}

/// The scheduler's events once event `e`, taken out of the queue that left `base`, has been
/// handled: a traffic signal's update wakes its waiting agents at `e`'s time and schedules the
/// signal's next update at the end of the cycle then beginning; any other event changes nothing.
pub open spec fn dispatched(
    sim: &Sim,
    map: &StreetMap,
    e: (Duration, Command),
    base: Seq<(Duration, Command)>,
) -> Seq<(Duration, Command)> {
    match e.1 {
        Command::UpdateIntersection(id) => if id.0 < map.intersections@.len() && map.spec_signal(id) is Some {
            woken(base, sim.intersections.at(id).waiting@, e.0).push(
                (
                    (e.0 + map.spec_signal(id).unwrap().spec_current(e.0).1) as Duration,
                    Command::UpdateIntersection(id),
                ),
            )
        } else {
            base
        },
        _ => base,
    }
}

/// A prefix of a sequence holds no element more often than the whole sequence.
proof fn lemma_prefix_sub_multiset(s: Seq<RoadID>, k: int)
    requires
        0 <= k <= s.len(),
    ensures
        s.take(k).to_multiset().subset_of(s.to_multiset()),
    decreases s.len() - k,
{
    broadcast use vstd::multiset::group_multiset_axioms;

    if k < s.len() {
        lemma_prefix_sub_multiset(s, k + 1);
        assert(s.take(k + 1) =~= s.take(k).push(s[k]));
        vstd::seq_lib::to_multiset_build(s.take(k), s[k]);
        assert forall|v: RoadID| s.take(k).to_multiset().count(v) <= s.to_multiset().count(v) by {
            assert(s.take(k).to_multiset().count(v) <= s.take(k + 1).to_multiset().count(v));
        }
    } else {
        assert(s.take(k) =~= s);
    }
}

/// The whole simulation state.
pub struct Sim {
    pub rng: XorShiftRng,
    pub time: Duration,
    pub id_counter: usize,
    pub scheduler: Scheduler,
    pub intersections: IntersectionSimState,
    pub spawner: TripSpawner,
    pub trips: TripManager,
}

impl Sim {
    /// Every part is well formed, and no event is scheduled before the current time.
    pub open spec fn well_formed(&self, map: &StreetMap) -> bool {
        &&& self.scheduler.well_formed()
        &&& self.intersections.well_formed(map)
        &&& self.trips.well_formed()
        &&& forall|i: int|
            0 <= i < self.scheduler.items@.len() ==> #[trigger] self.scheduler.items@[i].0 >= self.time
    }

    /// A new simulation at time zero, with the RNG seeded from `rng_seed` if given, else from
    /// the operating system's entropy; `None` only when no seed is given and no entropy can be
    /// had. The scheduler holds the first update of each traffic signal, and no intersection has
    /// an agent accepted or waiting.
    pub fn new(map: &StreetMap, rng_seed: Option<u8>) -> (r: Option<Sim>)
        requires
            map.well_formed(),
        ensures
            rng_seed is Some ==> r is Some,
            r matches Some(sim) ==> {
                &&& sim.well_formed(map)
                &&& sim.time == 0
                &&& sim.spec_total_cars() == 0
                &&& sim.spawner.trips@.len() == 0
                &&& sim.spawner.parked_cars_claimed@.len() == 0
                &&& sim.trips.trips@.len() == 0
                &&& sim.scheduler.latest_time == 0
                &&& sim.scheduler.items@ == initial_signal_events(map, map.intersections@.len() as int)
                &&& forall|i: int|
                    0 <= i < sim.intersections.state@.len() ==> (#[trigger] sim.intersections.state@[i]).accepted@.len()
                        == 0 && sim.intersections.state@[i].waiting@.len() == 0
            },
    {
        let rng = match rng_seed {
            Some(seed) => rng_from_seed(seed),
            None => match rng_from_entropy() {
                Some(rng) => rng,
                None => {
                    return None;
                },
            },
        };
        let mut scheduler = Scheduler::new();
        let intersections = IntersectionSimState::new(map, &mut scheduler);
        assert(scheduler.items@ =~= initial_signal_events(map, map.intersections@.len() as int));
        Some(Sim {
            rng,
            time: 0,
            id_counter: 0,
            scheduler,
            intersections,
            spawner: TripSpawner::new(),
            trips: TripManager::new(),
        })
    }

    pub open spec fn spec_total_cars(&self) -> usize {
        self.id_counter
    }

    /// How many cars the simulation has created.
    pub fn total_cars(&self) -> (r: usize)
        ensures
            r == self.spec_total_cars(),
    {
        self.id_counter
    }

    /// Picks up to `num_cars` of `candidates`, in random order, to start parked cars on.
    pub fn choose_roads(&mut self, candidates: Vec<RoadID>, num_cars: usize) -> (r: Vec<RoadID>)
        ensures
            r@.len() == if num_cars < candidates@.len() {
                num_cars as int
            } else {
                candidates@.len() as int
            },
            r@.to_multiset().subset_of(candidates@.to_multiset()),
            final(self).time == old(self).time,
            final(self).scheduler == old(self).scheduler,
    {
        let mut roads = candidates;
        if roads.len() > 0 {
            shuffle_roads(&mut self.rng, &mut roads);
        }
        let n = if num_cars < roads.len() {
            num_cars
        } else {
            roads.len()
        };
        let mut picked: Vec<RoadID> = Vec::new();
        let mut k: usize = 0;
        while k < n
            invariant
                n <= roads@.len(),
                k <= n,
                picked@ == roads@.take(k as int),
            decreases n - k,
        {
            picked.push(roads[k]);
            assert(roads@.take(k as int + 1) =~= roads@.take(k as int).push(roads@[k as int]));
            k += 1;
        }
        proof {
            lemma_prefix_sub_multiset(roads@, n as int);
        }
        picked
    }

    /// Takes out the next event if it is due by `until`, and handles it if it belongs to an
    /// intersection. Every event taken out is returned, so the agents' own events can be handled
    /// by whoever drives them. `None` when nothing more is due by `until`.
    pub fn next_event(&mut self, map: &StreetMap, until: Duration) -> (r: Option<(Duration, Command)>)
        requires
            map.well_formed(),
            old(self).well_formed(map),
            until >= old(self).time,
            forall|i: IntersectionID|
                #[trigger] map.spec_signal(i) matches Some(s) ==> until + s.total() <= u64::MAX,
        ensures
            final(self).well_formed(map),
            final(self).time == old(self).time,
            final(self).intersections == old(self).intersections,
            final(self).trips == old(self).trips,
            final(self).spawner == old(self).spawner,
            r is None ==> forall|i: int|
                0 <= i < final(self).scheduler.items@.len() ==> #[trigger] final(self).scheduler.items@[i].0
                    > until,
            r matches Some(e) ==> e.0 <= until && final(self).scheduler.latest_time == e.0 && exists|i: int|
                is_next(old(self).scheduler.items@, i) && old(self).scheduler.items@[i] == e
                    && final(self).scheduler.items@ == dispatched(
                    old(self),
                    map,
                    e,
                    old(self).scheduler.items@.remove(i),
                ),
    {
        let due = match self.scheduler.peek_time() {
            Some(t) => t <= until,
            None => false,
        };
        if !due {
            proof {
                if self.scheduler.items@.len() > 0 {
                    let j = choose|j: int| is_next(self.scheduler.items@, j) && self.scheduler.items@[j].0 > until;
                    assert forall|i: int| 0 <= i < self.scheduler.items@.len() implies #[trigger] self.scheduler.items@[i].0
                        > until by {
                        assert(!crate::scheduler::runs_before(self.scheduler.items@[i], self.scheduler.items@[j]));
                    }
                }
            }
            return None;
        }
        let ghost before = self.scheduler.items@;
        let ghost old_self = *self;
        let (time, cmd) = match self.scheduler.pop() {
            Some(e) => e,
            None => {
                assert(false);
                return None;
            },
        };
        assert(time <= until) by {
            let i = choose|i: int| is_next(before, i) && before[i] == (time, cmd);
            let j = choose|j: int| is_next(before, j) && before[j].0 <= until;
            assert(!crate::scheduler::runs_before(before[j], before[i]));
            assert(!crate::scheduler::runs_before(before[i], before[j]));
        }
        let ghost popped = self.scheduler.items@;
        let ghost pi = choose|i: int| is_next(before, i) && before[i] == (time, cmd) && popped == before.remove(i);
        if let Command::UpdateIntersection(id) = cmd {
            if id.0 < self.intersections.state.len() && map.maybe_get_traffic_signal(id).is_some() {
                assert(map.spec_signal(id) is Some);
                self.intersections.update_intersection(time, id, map, &mut self.scheduler);
            }
        }
        assert(self.scheduler.items@ == dispatched(&old_self, map, (time, cmd), before.remove(pi)));
        proof {
            assert forall|i: int| 0 <= i < self.scheduler.items@.len() implies #[trigger] self.scheduler.items@[i].0
                >= self.time by {
                assert(self.scheduler.items@[i].0 >= self.scheduler.latest_time);
            }
        }
        Some((time, cmd))
    }

    /// Ends a step at `until`, once no event is due by then.
    pub fn finish_step(&mut self, map: &StreetMap, until: Duration)
        requires
            old(self).well_formed(map),
            until >= old(self).time,
            forall|i: int|
                0 <= i < old(self).scheduler.items@.len() ==> #[trigger] old(self).scheduler.items@[i].0 > until,
        ensures
            final(self).well_formed(map),
            final(self).time == until,
            final(self).scheduler == old(self).scheduler,
    {
        self.time = until;
    }
}

/// No event is scheduled before the simulation's current time, whatever has happened since it
/// was created: `new`, `next_event` and `finish_step` all keep the simulation well formed.
pub proof fn lemma_no_event_before_now(sim: &Sim, map: &StreetMap)
    requires
        sim.well_formed(map),
    ensures
        forall|i: int| 0 <= i < sim.scheduler.items@.len() ==> #[trigger] sim.scheduler.items@[i].0 >= sim.time,
{
}

} // verus!

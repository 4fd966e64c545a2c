use vstd::prelude::*;
use crate::agents::{CreateCar, CreatePedestrian};
use crate::ids::{AgentID, CarID, Duration, IntersectionID, PedestrianID};

verus! {

/// Something the simulation does at a given time.
#[derive(Clone, Debug)]
pub enum Command {
    SpawnCar(CreateCar),
    SpawnPed(CreatePedestrian),
    UpdateCar(CarID),
    UpdatePed(PedestrianID),
    UpdateIntersection(IntersectionID),
}

impl Command {
    /// The identity of a command: its kind, then the identifier it is about. Commands are ordered
    /// by it, and two commands with one identity are occurrences of the same command.
    pub open spec fn spec_key(self) -> (u8, usize) {
        match self {
            Command::SpawnCar(c) => (0, c.vehicle.id.0),
            Command::SpawnPed(p) => (1, p.id.0),
            Command::UpdateCar(id) => (2, id.0),
            Command::UpdatePed(id) => (3, id.0),
            Command::UpdateIntersection(id) => (4, id.0),
        }
    }

    pub fn key(&self) -> (r: (u8, usize))
        ensures
            r == self.spec_key(),
    {
        match self {
            Command::SpawnCar(c) => (0, c.vehicle.id.0),
            Command::SpawnPed(p) => (1, p.id.0),
            Command::UpdateCar(id) => (2, id.0),
            Command::UpdatePed(id) => (3, id.0),
            Command::UpdateIntersection(id) => (4, id.0),
        }
    }

    /// The command that makes an agent reconsider what it is doing.
    pub fn update_agent(agent: AgentID) -> (r: Command)
        ensures
            r == match agent {
                AgentID::Car(id) => Command::UpdateCar(id),
                AgentID::Pedestrian(id) => Command::UpdatePed(id),
            },
    {
        match agent {
            AgentID::Car(id) => Command::UpdateCar(id),
            AgentID::Pedestrian(id) => Command::UpdatePed(id),
        }
    }
}

/// Holds of the events that are not occurrences of the command with identity `key`.
pub open spec fn not_occurrence(key: (u8, usize)) -> spec_fn((Duration, Command)) -> bool {
    |e: (Duration, Command)| e.1.spec_key() != key
}

/// Event `a` runs strictly before event `b`: earlier time, then lower kind, then lower id.
pub open spec fn runs_before(a: (Duration, Command), b: (Duration, Command)) -> bool {
    let (ka, kb) = (a.1.spec_key(), b.1.spec_key());
    a.0 < b.0 || (a.0 == b.0 && (ka.0 < kb.0 || (ka.0 == kb.0 && ka.1 < kb.1)))
}

/// Index `i` holds the event that runs next: no event runs before it, and it runs before every
/// event queued ahead of it (so among events of one time and identity, the first queued wins).
pub open spec fn is_next(items: Seq<(Duration, Command)>, i: int) -> bool {
    &&& 0 <= i < items.len()
    &&& forall|j: int| 0 <= j < items.len() ==> !runs_before(#[trigger] items[j], items[i])
    &&& forall|j: int| 0 <= j < i ==> runs_before(items[i], #[trigger] items[j])
}

fn runs_before_exec(a: &(Duration, Command), b: &(Duration, Command)) -> (r: bool)
    ensures
        r == runs_before(*a, *b),
{
    let ka = a.1.key();
    let kb = b.1.key();
    a.0 < b.0 || (a.0 == b.0 && (ka.0 < kb.0 || (ka.0 == kb.0 && ka.1 < kb.1)))
}

/// The queue of future events, earliest first.
pub struct Scheduler {
    pub items: Vec<(Duration, Command)>,
    /// The time of the last event handed out; no event is queued before it.
    pub latest_time: Duration,
}

impl Scheduler {
    /// No queued event lies before the last one handed out.
    pub open spec fn well_formed(&self) -> bool {
        forall|i: int| 0 <= i < self.items@.len() ==> #[trigger] self.items@[i].0 >= self.latest_time
    }

    pub fn new() -> (r: Scheduler)
        ensures
            r.well_formed(),
            r.items@.len() == 0,
            r.latest_time == 0,
    {
        Scheduler { items: Vec::new(), latest_time: 0 }
    }

    /// Queues `cmd` to run at `time`, which may not lie before the last event handed out.
    pub fn push(&mut self, time: Duration, cmd: Command)
        requires
            old(self).well_formed(),
            time >= old(self).latest_time,
        ensures
            final(self).well_formed(),
            final(self).items@ == old(self).items@.push((time, cmd)),
            final(self).latest_time == old(self).latest_time,
    {
        self.items.push((time, cmd));
    }

    /// Cancels every queued occurrence of `cmd`, then queues it at `time`.
    pub fn update(&mut self, cmd: Command, time: Duration)
        requires
            old(self).well_formed(),
            time >= old(self).latest_time,
        ensures
            final(self).well_formed(),
            final(self).items@ == old(self).items@.filter(not_occurrence(cmd.spec_key())).push(
                (time, cmd),
            ),
            final(self).latest_time == old(self).latest_time,
    {
        let key = cmd.key();
        let mut kept: Vec<(Duration, Command)> = Vec::new();
        let mut items: Vec<(Duration, Command)> = Vec::new();
        core::mem::swap(&mut self.items, &mut items);
        let ghost all = items@;
        let n: usize = items.len();
        let mut i: usize = 0;
        while items.len() > 0
            invariant
                all.len() == i + items@.len(),
                all.len() == n,
                key == cmd.spec_key(),
                items@ == all.skip(i as int),
                kept@ == all.take(i as int).filter(not_occurrence(cmd.spec_key())),
                forall|k: int| 0 <= k < all.len() ==> #[trigger] all[k].0 >= self.latest_time,
                forall|k: int| 0 <= k < kept@.len() ==> #[trigger] kept@[k].0 >= self.latest_time,
            decreases items.len(),
        {
            let e = items.remove(0);
            proof {
                assert(e == all[i as int]);
                assert(all.take(i as int + 1).drop_last() =~= all.take(i as int));
                assert(all.take(i as int + 1).last() == e);
                all.take(i as int).lemma_filter_push(e, not_occurrence(cmd.spec_key()));
                assert(all.take(i as int).push(e) =~= all.take(i as int + 1));
                assert(items@ =~= all.skip(i as int + 1));
            }
            let ek = e.1.key();
            assert(not_occurrence(cmd.spec_key())(e) == (ek.0 != key.0 || ek.1 != key.1));
            if ek.0 != key.0 || ek.1 != key.1 {
                kept.push(e);
            }
            i += 1;
        }
        assert(all.take(all.len() as int) =~= all);
        kept.push((time, cmd));
        self.items = kept;
    }

    /// The time of the next event, if any.
    pub fn peek_time(&self) -> (r: Option<Duration>)
        ensures
            r is None <==> self.items@.len() == 0,
            r matches Some(t) ==> exists|i: int| is_next(self.items@, i) && self.items@[i].0 == t,
    {
        match self.next_index() {
            Some(i) => Some(self.items[i].0),
            None => None,
        }
    }

    fn next_index(&self) -> (r: Option<usize>)
        ensures
            r is None <==> self.items@.len() == 0,
            r matches Some(i) ==> is_next(self.items@, i as int),
    {
        if self.items.len() == 0 {
            return None;
        }
        let mut best: usize = 0;
        let mut j: usize = 1;
        while j < self.items.len()
            invariant
                1 <= j <= self.items@.len(),
                best < j,
                forall|k: int| 0 <= k < j ==> !runs_before(#[trigger] self.items@[k], self.items@[best as int]),
                forall|k: int| 0 <= k < best ==> runs_before(self.items@[best as int], #[trigger] self.items@[k]),
            decreases self.items.len() - j,
        {
            if runs_before_exec(&self.items[j], &self.items[best]) {
                proof {
                    assert forall|k: int| 0 <= k < j implies runs_before(
                        self.items@[j as int],
                        #[trigger] self.items@[k],
                    ) by {
                        assert(!runs_before(self.items@[k], self.items@[best as int]));
                    }
                }
                best = j;
            }
            j += 1;
        }
        Some(best)
    }

    /// Takes out the event that runs next, and advances the latest time to it.
    pub fn pop(&mut self) -> (r: Option<(Duration, Command)>)
        requires
            old(self).well_formed(),
        ensures
            final(self).well_formed(),
            r is None <==> old(self).items@.len() == 0,
            r is None ==> *final(self) == *old(self),
            r matches Some(e) ==> exists|i: int|
                is_next(old(self).items@, i) && e == old(self).items@[i] && final(self).items@
                    == old(self).items@.remove(i) && final(self).latest_time == e.0,
    {
        match self.next_index() {
            None => None,
            Some(i) => {
                let e = self.items.remove(i);
                self.latest_time = e.0;
                proof {
                    let items = old(self).items@;
                    assert forall|k: int| 0 <= k < self.items@.len() implies #[trigger] self.items@[k].0
                        >= self.latest_time by {
                        if k < i {
                            assert(self.items@[k] == items[k]);
                            assert(!runs_before(items[k], items[i as int]));
                        } else {
                            assert(self.items@[k] == items[k + 1]);
                            assert(!runs_before(items[k + 1], items[i as int]));
                        }
                    }
                }
                Some(e)
            },
        }
    }
}

/// Determinism of the event order: exactly one queued event is the next one, so two schedulers
/// holding the same events in the same order hand out the same event next.
pub proof fn lemma_next_event_unique(items: Seq<(Duration, Command)>, i: int, j: int)
    requires
        is_next(items, i),
        is_next(items, j),
    ensures
        i == j,
{
    if i < j {
        assert(runs_before(items[j], items[i]));
    } else if j < i {
        assert(runs_before(items[i], items[j]));
    }
}

} // verus!

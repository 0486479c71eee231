//! The simulation as a mathematical object: the scheduler, the registered
//! processes and what the store holds. One turn of the scheduler loop, and a
//! whole run, are functions of it.

use vstd::prelude::*;
use crate::state::Value;
use crate::effect::{Step, Event, Tick, Halt};
use crate::model::Model;
use crate::registry::Process;

verus! {

/// The state of a simulation.
pub struct World<P> {
    /// The scheduler.
    pub model: Model,
    /// The registered processes by registration number: `None` where the
    /// process has run to its end.
    pub processes: Seq<Option<P>>,
    /// The slots of the shared store.
    pub store: Seq<Option<Value>>,
}

/// How a run ended: the simulation it left, why it ended, and the
/// resumptions whose outcome was applied, in order.
pub struct Outcome<P> {
    pub world: World<P>,
    pub halt: Halt,
    pub trace: Seq<Event>,
}

impl<P: Process> World<P> {
    /// The simulation before anything was registered or stored.
    pub open spec fn empty() -> World<P> {
        World { model: Model::empty(), processes: Seq::empty(), store: Seq::empty() }
    }

    /// The scheduler is well formed, and the processes that it counts as
    /// ended are those that were dropped.
    pub open spec fn wf(self) -> bool {
        &&& self.model.wf()
        &&& self.processes.len() == self.model.done.len()
        &&& forall|i: int|
            0 <= i < self.processes.len() ==> (#[trigger] self.processes[i]).is_some()
                == !self.model.done[i]
    }

    /// The process of the entry that is served next.
    pub open spec fn current(self) -> P {
        self.processes[self.model.queue[0].key.id() as int].unwrap()
    }

    /// The resumption that comes next: the time and handle of the entry that
    /// is served next, and what its process yields on the store as it
    /// stands.
    pub open spec fn event(self) -> Event {
        Event {
            time: self.model.queue[0].time,
            key: self.model.queue[0].key,
            step: self.current().yields(self.store),
        }
    }

    /// What one turn of the scheduler loop reports under `limit`.
    pub open spec fn tick(self, limit: nat) -> Tick {
        if self.model.queue.len() == 0 {
            Tick::Exhausted
        } else if self.model.queue[0].time > limit {
            Tick::Budget
        } else {
            match self.model.objection(self.event()) {
                Some(e) => Tick::Faulted(self.event(), e),
                None => Tick::Ran(self.event()),
            }
        }
    }

    /// The simulation after one turn of the scheduler loop under `limit`.
    /// Where an entry is due, it is taken from the list, the clock is set to
    /// its time, its process is resumed on the store as it stands, and what
    /// the process yields is applied; the process is kept as the step left
    /// it, or dropped if it ran to its end.
    pub open spec fn next(self, limit: nat) -> World<P> {
        if self.model.due(limit).is_none() {
            self
        } else {
            let key = self.model.queue[0].key;
            let step = self.current().yields(self.store);
            World {
                model: self.model.after(self.event()),
                processes: self.processes.update(
                    key.id() as int,
                    if step is Completed {
                        None
                    } else {
                        Some(self.current().resumed(self.store))
                    },
                ),
                store: self.current().leaves(self.store),
            }
        }
    }

    /// The run of at most `steps` further resumptions under `limit`, after
    /// the resumptions `sofar`.
    pub open spec fn run_from(self, limit: nat, steps: nat, sofar: Seq<Event>) -> Outcome<P>
        decreases steps,
    {
        if steps == 0 {
            Outcome { world: self, halt: Halt::StepCap, trace: sofar }
        } else {
            match self.tick(limit) {
                Tick::Exhausted => Outcome { world: self, halt: Halt::Exhausted, trace: sofar },
                Tick::Budget => Outcome { world: self, halt: Halt::Budget, trace: sofar },
                Tick::Faulted(ev, e) => Outcome {
                    world: self.next(limit),
                    halt: Halt::Fault(ev, e),
                    trace: sofar,
                },
                Tick::Ran(ev) => self.next(limit).run_from(
                    limit,
                    (steps - 1) as nat,
                    sofar.push(ev),
                ),
            }
        }
    }

    /// The run of at most `steps` resumptions under `limit`: turn after turn
    /// of the scheduler loop, until nothing is pending, the next entry is due
    /// later than `limit`, an outcome cannot be applied, or `steps`
    /// resumptions were made.
    pub open spec fn run(self, limit: nat, steps: nat) -> Outcome<P> {
        self.run_from(limit, steps, Seq::empty())
    }

    /// One turn keeps the simulation well formed.
    pub proof fn lemma_next_wf(self, limit: nat)
        requires
            self.wf(),
        ensures
            self.next(limit).wf(),
    {
        if self.model.due(limit).is_some() {
            let ev = self.event();
            let key = ev.key;
            self.model.lemma_popped_wf();
            self.model.lemma_after_wf(ev, limit);
            let popped = self.model.popped();
            let end = self.model.after(ev);
            if ev.step is Completed {
                assert(popped.fault(key, ev.step).is_none());
                assert(end.done == popped.done.update(key.id() as int, true));
            } else {
                assert(end.done == popped.done);
            }
            let next = self.next(limit);
            assert forall|i: int| 0 <= i < next.processes.len() implies (
            #[trigger] next.processes[i]).is_some() == !next.model.done[i] by {
                if i != key.id() {
                    assert(self.processes[i].is_some() == !self.model.done[i]);
                }
            }
        }
    }

    /// A run that goes on after the resumptions `sofar`, which led from the
    /// scheduler `start` to this simulation, is a run of `start` as a whole,
    /// and leaves a well-formed simulation.
    pub proof fn lemma_run_from_ends(
        self,
        start: Model,
        limit: nat,
        steps: nat,
        sofar: Seq<Event>,
    )
        requires
            self.wf(),
            start.wf(),
            start.runs(sofar, limit),
            self.model == start.replay(sofar),
        ensures
            self.run_from(limit, steps, sofar).world.wf(),
            start.ends(
                self.run_from(limit, steps, sofar).trace,
                limit,
                self.run_from(limit, steps, sofar).halt,
                self.run_from(limit, steps, sofar).world.model,
            ),
        decreases steps,
    {
        if steps > 0 {
            self.lemma_next_wf(limit);
            match self.tick(limit) {
                Tick::Ran(ev) => {
                    let longer = sofar.push(ev);
                    assert(longer.drop_last() =~= sofar);
                    assert(longer.last() == ev);
                    self.next(limit).lemma_run_from_ends(
                        start,
                        limit,
                        (steps - 1) as nat,
                        longer,
                    );
                },
                _ => {},
            }
        }
    }

    /// The resumptions of a run are a run of the scheduler: each is what the
    /// scheduler does next after the ones before it. So whatever holds of
    /// every run of the scheduler holds of the run that the processes make.
    pub proof fn law_run_ends(self, limit: nat, steps: nat)
        requires
            self.wf(),
        ensures
            self.run(limit, steps).world.wf(),
            self.model.ends(
                self.run(limit, steps).trace,
                limit,
                self.run(limit, steps).halt,
                self.run(limit, steps).world.model,
            ),
    {
        self.lemma_run_from_ends(self.model, limit, steps, Seq::empty());
    }

    /// Where nothing is pending, or the next entry is due later than the
    /// limit, a run resumes nothing and changes nothing: not the clock, not
    /// the list, not a process, not the store.
    pub proof fn law_idle_run_changes_nothing(self, limit: nat, steps: nat)
        requires
            self.model.due(limit).is_none(),
            steps > 0,
        ensures
            self.run(limit, steps).world == self,
            self.run(limit, steps).trace == Seq::<Event>::empty(),
            self.run(limit, steps).halt == (if self.model.queue.len() == 0 {
                Halt::Exhausted
            } else {
                Halt::Budget
            }),
    {
    }
}

} // verus!

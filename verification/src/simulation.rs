//! The simulation: a scheduler, the registered processes and the shared
//! store, driven by the loop that serves the next entry, resumes its process
//! and applies what the process yields.

use vstd::prelude::*;
use crate::key::Key;
use crate::state::State;
use crate::fel::Entry;
use crate::effect::{Step, SimError, Event, Tick, Halt, Report};
use crate::model::Model;
use crate::world::World;
use crate::scheduler::Scheduler;
use crate::registry::{Process, Registry};

verus! {

/// The latest time that a run of `duration` from `clock` may serve.
pub open spec fn horizon(clock: nat, duration: u64) -> nat {
    if clock + duration > u64::MAX {
        u64::MAX as nat
    } else {
        (clock + duration) as nat
    }
}

pub struct Simulation<P: Process> {
    sched: Scheduler,
    registry: Registry<P>,
    state: State,
}

impl<P: Process> View for Simulation<P> {
    type V = World<P>;

    /// The scheduler, the registered processes and what the store holds.
    closed spec fn view(&self) -> World<P> {
        World { model: self.sched@, processes: self.registry@, store: self.state@ }
    }
}

impl<P: Process> Simulation<P> {
    /// What every simulation satisfies that was made by `new` and changed
    /// through the functions here. It implies that the view is well formed.
    pub closed spec fn wf(&self) -> bool {
        &&& self.sched.wf()
        &&& self@.wf()
    }

    /// A well-formed simulation has a well-formed view.
    pub proof fn lemma_wf(&self)
        requires
            self.wf(),
        ensures
            self@.wf(),
    {
    }

    /// An empty simulation: clock zero, nothing registered, nothing pending,
    /// an empty store.
    pub fn new() -> (sim: Simulation<P>)
        ensures
            sim.wf(),
            sim@ == World::<P>::empty(),
    {
        let sim = Simulation {
            sched: Scheduler::new(),
            registry: Registry::new(),
            state: State::new(),
        };
        proof {
            sim.sched.lemma_wf();
        }
        sim
    }

    /// The current simulated time.
    pub fn now(&self) -> (t: u64)
        ensures
            t == self@.model.clock,
    {
        self.sched.now()
    }

    /// The number of pending entries.
    pub fn pending(&self) -> (n: usize)
        ensures
            n == self@.model.queue.len(),
    {
        self.sched.pending()
    }

    /// The time of the entry that is served next, if there is one.
    pub fn next_time(&self) -> (r: Option<u64>)
        ensures
            r == (if self@.model.queue.len() == 0 {
                None
            } else {
                Some(self@.model.queue[0].time)
            }),
    {
        self.sched.next_time()
    }

    /// The time at which `key` is pending, if it is.
    pub fn scheduled_time(&self, key: Key) -> (r: Option<u64>)
        ensures
            r.is_some() <==> self@.model.scheduled(key),
            r.is_some() ==> exists|i: int|
                0 <= i < self@.model.queue.len() && (#[trigger] self@.model.queue[i]).key == key
                    && self@.model.queue[i].time == r.unwrap(),
    {
        self.sched.scheduled_time(key)
    }

    /// Whether `key` was given out here and its process has not ended.
    pub fn is_live(&self, key: Key) -> (b: bool)
        ensures
            b == self@.model.live(key),
    {
        self.sched.is_live(key)
    }

    /// The shared store, for reading.
    pub fn state(&self) -> (s: &State)
        ensures
            s@ == self@.store,
    {
        &self.state
    }

    /// The shared store, for setting it up before a run or between runs.
    /// Nothing but the store changes.
    pub fn state_mut(&mut self) -> (s: &mut State)
        ensures
            s@ == old(self)@.store,
            final(self)@ == (World { store: final(s)@, ..old(self)@ }),
            old(self).wf() ==> final(self).wf(),
    {
        &mut self.state
    }

    /// Registers a process that has not started and returns its handle.
    /// Nothing is scheduled.
    pub fn add_generator(&mut self, process: P) -> (key: Key)
        requires
            old(self).wf(),
        ensures
            final(self).wf(),
            key.id() == old(self)@.processes.len(),
            final(self)@ == (World {
                model: old(self)@.model.registered(),
                processes: old(self)@.processes.push(Some(process)),
                ..old(self)@
            }),
    {
        let _ = self.sched.register();
        let key = self.registry.add(process);
        proof {
            self.sched.lemma_wf();
        }
        key
    }

    /// Schedules `key` at `time`, behind everything that is pending for the
    /// same or an earlier time. Refused, with the simulation unchanged, for a
    /// handle that is unknown, has ended or is already pending, and for a
    /// time before the clock.
    pub fn schedule_at(&mut self, key: Key, time: u64) -> (r: Result<(), SimError>)
        requires
            old(self).wf(),
        ensures
            final(self).wf(),
            match old(self)@.model.refusal(key, time as int) {
                Some(kind) => r == Err::<(), SimError>(SimError { kind, key }) && final(self)@
                    == old(self)@,
                None => r.is_ok() && final(self)@ == (World {
                    model: old(self)@.model.scheduled_at(key, time as int),
                    ..old(self)@
                }),
            },
    {
        let r = self.sched.schedule_at(key, time);
        proof {
            self.sched.lemma_wf();
        }
        r
    }

    /// Schedules `key` at the current simulated time.
    pub fn schedule_now(&mut self, key: Key) -> (r: Result<(), SimError>)
        requires
            old(self).wf(),
        ensures
            final(self).wf(),
            match old(self)@.model.refusal(key, old(self)@.model.clock as int) {
                Some(kind) => r == Err::<(), SimError>(SimError { kind, key }) && final(self)@
                    == old(self)@,
                None => r.is_ok() && final(self)@ == (World {
                    model: old(self)@.model.scheduled_at(key, old(self)@.model.clock as int),
                    ..old(self)@
                }),
            },
    {
        let now: u64 = self.sched.now();
        self.schedule_at(key, now)
    }

    /// One turn of the scheduler loop. If the next entry is due no later than
    /// `limit`, it is taken from the list, the clock is advanced to its time,
    /// its process is resumed for one step with the store lent to it, and
    /// what the process yields is applied. Otherwise nothing changes.
    pub fn step(&mut self, limit: u64) -> (tick: Tick)
        requires
            old(self).wf(),
        ensures
            final(self).wf(),
            tick == old(self)@.tick(limit as nat),
            final(self)@ == old(self)@.next(limit as nat),
            match tick {
                Tick::Exhausted => old(self)@.model.queue.len() == 0,
                Tick::Budget => old(self)@.model.queue.len() > 0 && old(self)@.model.queue[0].time
                    > limit,
                Tick::Ran(ev) => {
                    &&& old(self)@.model.served(ev, limit as nat)
                    &&& old(self)@.model.objection(ev).is_none()
                    &&& final(self)@.model == old(self)@.model.after(ev)
                },
                Tick::Faulted(ev, e) => {
                    &&& old(self)@.model.served(ev, limit as nat)
                    &&& old(self)@.model.objection(ev) == Some(e)
                    &&& final(self)@.model == old(self)@.model.popped()
                },
            },
    {
        let ghost before = self@;
        match self.sched.pop_due(limit) {
            None => {
                if self.sched.pending() == 0 {
                    Tick::Exhausted
                } else {
                    Tick::Budget
                }
            },
            Some((time, key)) => {
                let ghost popped = self.sched@;
                proof {
                    old(self).sched.lemma_wf();
                    before.model.lemma_popped_wf();
                    before.lemma_next_wf(limit as nat);
                    assert(popped.live(key));
                    assert(before.processes[key.id() as int].is_some());
                }
                let resumed = self.registry.resume(key, &mut self.state);
                match resumed {
                    Err(_) => {
                        // A pending entry belongs to a live process, so the
                        // registry never refuses it.
                        proof {
                            assert(false);
                        }
                        Tick::Exhausted
                    },
                    Ok(step) => {
                        let ev = Event { time, key, step };
                        let applied = self.sched.apply(key, step);
                        proof {
                            assert(ev == before.event());
                            assert(self@.model == before.model.after(ev));
                            assert(self@.processes =~= before.next(limit as nat).processes);
                        }
                        match applied {
                            Ok(()) => Tick::Ran(ev),
                            Err(e) => Tick::Faulted(ev, e),
                        }
                    },
                }
            },
        }
    }

    /// Runs the scheduler loop under the absolute time `limit`, for at most
    /// `max_steps` resumptions. The run ends when nothing is pending, when
    /// the next entry is due later than `limit` (it then stays pending), when
    /// an outcome cannot be applied, or when `max_steps` resumptions were
    /// made. The report counts the resumptions whose outcome was applied.
    pub fn run_until(&mut self, limit: u64, max_steps: u64) -> (report: Report)
        requires
            old(self).wf(),
        ensures
            final(self).wf(),
            final(self)@ == old(self)@.run(limit as nat, max_steps as nat).world,
            report.halt == old(self)@.run(limit as nat, max_steps as nat).halt,
            report.events == old(self)@.run(limit as nat, max_steps as nat).trace.len(),
            old(self)@.model.ends(
                old(self)@.run(limit as nat, max_steps as nat).trace,
                limit as nat,
                report.halt,
                final(self)@.model,
            ),
            old(self)@.model.clock <= final(self)@.model.clock,
            final(self)@.model.clock <= limit || final(self)@.model.clock == old(self)@.model.clock,
            final(self)@.processes.len() == old(self)@.processes.len(),
            forall|e: Entry|
                old(self)@.model.queue.contains(e) && e.time > limit ==> final(self)@.model.queue.contains(e),
    {
        let mut n: u64 = 0;
        let ghost mut trace: Seq<Event> = Seq::empty();
        let ghost start = self@;
        let ghost goal = start.run(limit as nat, max_steps as nat);
        while n < max_steps
            invariant
                self.wf(),
                start == old(self)@,
                start.wf(),
                goal == start.run(limit as nat, max_steps as nat),
                n <= max_steps,
                trace.len() == n,
                start.model.runs(trace, limit as nat),
                self@.model == start.model.replay(trace),
                goal == self@.run_from(limit as nat, (max_steps - n) as nat, trace),
            decreases max_steps - n,
        {
            let ghost before = self@;
            proof {
                start.model.lemma_replay_wf(trace, limit as nat);
            }
            match self.step(limit) {
                Tick::Exhausted => {
                    assert(start.model.ends(trace, limit as nat, Halt::Exhausted, self@.model));
                    return Report { halt: Halt::Exhausted, events: n };
                },
                Tick::Budget => {
                    assert(start.model.ends(trace, limit as nat, Halt::Budget, self@.model));
                    return Report { halt: Halt::Budget, events: n };
                },
                Tick::Faulted(ev, e) => {
                    proof {
                        before.model.lemma_after_wf(ev, limit as nat);
                        assert(start.model.ends(
                            trace,
                            limit as nat,
                            Halt::Fault(ev, e),
                            self@.model,
                        ));
                    }
                    return Report { halt: Halt::Fault(ev, e), events: n };
                },
                Tick::Ran(ev) => {
                    proof {
                        let longer = trace.push(ev);
                        assert(longer.drop_last() =~= trace);
                        assert(longer.last() == ev);
                        trace = longer;
                    }
                    n += 1;
                },
            }
        }
        proof {
            start.model.lemma_replay_wf(trace, limit as nat);
            assert(start.model.ends(trace, limit as nat, Halt::StepCap, self@.model));
        }
        Report { halt: Halt::StepCap, events: n }
    }

    /// Runs until nothing is pending or the next entry is due more than
    /// `duration` after the current simulated time; that entry then stays
    /// pending, and a later run takes up from there.
    pub fn run_with_limit(&mut self, duration: u64) -> (report: Report)
        requires
            old(self).wf(),
        ensures
            final(self).wf(),
            final(self)@ == old(self)@.run(
                horizon(old(self)@.model.clock, duration),
                u64::MAX as nat,
            ).world,
            report.halt == old(self)@.run(
                horizon(old(self)@.model.clock, duration),
                u64::MAX as nat,
            ).halt,
            report.events == old(self)@.run(
                horizon(old(self)@.model.clock, duration),
                u64::MAX as nat,
            ).trace.len(),
            old(self)@.model.ends(
                old(self)@.run(horizon(old(self)@.model.clock, duration), u64::MAX as nat).trace,
                horizon(old(self)@.model.clock, duration),
                report.halt,
                final(self)@.model,
            ),
            old(self)@.model.clock <= final(self)@.model.clock <= horizon(
                old(self)@.model.clock,
                duration,
            ),
            final(self)@.processes.len() == old(self)@.processes.len(),
            forall|e: Entry|
                old(self)@.model.queue.contains(e) && e.time > horizon(
                    old(self)@.model.clock,
                    duration,
                ) ==> final(self)@.model.queue.contains(e),
    {
        let now: u64 = self.sched.now();
        let limit: u64 = if duration > u64::MAX - now {
            u64::MAX
        } else {
            now + duration
        };
        self.run_until(limit, u64::MAX)
    }
}

impl<P: Process> Default for Simulation<P> {
    /// An empty simulation: clock zero, nothing registered, nothing pending,
    /// an empty store.
    fn default() -> (sim: Simulation<P>)
        ensures
            sim.wf(),
            sim@ == World::<P>::empty(),
    {
        Simulation::new()
    }
}

} // verus!

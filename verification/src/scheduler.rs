//! The scheduler: the simulated clock, the future event list and the
//! standing of each registered process. It decides what runs next and what an
//! outcome of a resumption does to the list; it never runs a process itself.

use vstd::prelude::*;
use crate::key::Key;
use crate::fel::{Fel, Entry, holds};
use crate::effect::{Action, Step, Misuse, SimError};
use crate::model::Model;

verus! {

broadcast use Key::lemma_id_index;

/// Where a registered process stands.
#[derive(Clone, Copy, Debug, PartialEq, Eq, Structural)]
enum Status {
    /// Registered and not pending: not yet started, passivated, or being
    /// resumed right now.
    Passive,
    /// Pending in the event list.
    Scheduled,
    /// Run to its end.
    Completed,
}

pub struct Scheduler {
    clock: u64,
    fel: Fel,
    status: Vec<Status>,
}

impl View for Scheduler {
    type V = Model;

    closed spec fn view(&self) -> Model {
        Model {
            clock: self.clock as nat,
            queue: self.fel@.entries,
            next_seq: self.fel@.next_seq,
            done: Seq::new(self.status@.len(), |i: int| self.status@[i] is Completed),
        }
    }
}

impl Scheduler {
    /// The model is well formed, and the standing kept for each process
    /// agrees with the event list.
    pub closed spec fn wf(&self) -> bool {
        &&& self@.wf()
        &&& self.fel.wf()
        &&& forall|i: int|
            0 <= i < self.status@.len() ==> ((#[trigger] self.status@[i]) is Scheduled <==> holds(
                self.fel@.entries,
                Key { index: i as usize },
            ))
    }

    /// A well-formed scheduler has a well-formed model.
    pub proof fn lemma_wf(&self)
        requires
            self.wf(),
        ensures
            self@.wf(),
    {
    }

    /// A scheduler at clock zero with nothing registered and nothing pending.
    pub fn new() -> (s: Scheduler)
        ensures
            s.wf(),
            s@ == Model::empty(),
    {
        let s = Scheduler { clock: 0, fel: Fel::new(), status: Vec::new() };
        assert(s@.done =~= Seq::<bool>::empty());
        s
    }

    /// The current simulated time.
    pub fn now(&self) -> (t: u64)
        ensures
            t == self@.clock,
    {
        self.clock
    }

    /// The number of processes registered so far.
    pub fn count(&self) -> (n: usize)
        ensures
            n == self@.done.len(),
    {
        self.status.len()
    }

    /// The number of pending entries.
    pub fn pending(&self) -> (n: usize)
        ensures
            n == self@.queue.len(),
    {
        self.fel.len()
    }

    /// The time of the entry that is served next, if there is one.
    pub fn next_time(&self) -> (r: Option<u64>)
        ensures
            r == (if self@.queue.len() == 0 {
                None
            } else {
                Some(self@.queue[0].time)
            }),
    {
        match self.fel.peek_earliest() {
            Some((t, _)) => Some(t),
            None => None,
        }
    }

    /// Whether `key` was given out here and its process has not ended.
    pub fn is_live(&self, key: Key) -> (b: bool)
        ensures
            b == self@.live(key),
    {
        key.index < self.status.len() && !matches!(self.status[key.index], Status::Completed)
    }

    /// Whether `key` has a pending entry.
    pub fn is_scheduled(&self, key: Key) -> (b: bool)
        requires
            self.wf(),
        ensures
            b == self@.scheduled(key),
    {
        if key.index < self.status.len() {
            matches!(self.status[key.index], Status::Scheduled)
        } else {
            proof {
                if holds(self.fel@.entries, key) {
                    let i = choose|i: int| 0 <= i < self.fel@.entries.len() && (#[trigger] self.fel@.entries[i]).key == key;
                    assert(self@.live(self@.queue[i].key));
                }
            }
            false
        }
    }

    /// The time at which `key` is pending, if it is.
    pub fn scheduled_time(&self, key: Key) -> (r: Option<u64>)
        ensures
            r.is_some() <==> self@.scheduled(key),
            r.is_some() ==> exists|i: int|
                0 <= i < self@.queue.len() && (#[trigger] self@.queue[i]).key == key
                    && self@.queue[i].time == r.unwrap(),
    {
        self.fel.time_of(key)
    }

    /// Registers one more process and returns its handle. Nothing is
    /// scheduled.
    pub fn register(&mut self) -> (key: Key)
        requires
            old(self).wf(),
        ensures
            final(self).wf(),
            key.id() == old(self)@.done.len(),
            final(self)@ == old(self)@.registered(),
    {
        let index: usize = self.status.len();
        self.status.push(Status::Passive);
        let count: usize = self.status.len();
        let key = Key { index };
        proof {
            assert(old(self)@.done.len() < count <= usize::MAX);
            old(self)@.lemma_registered_wf();
            assert(self@.done =~= old(self)@.registered().done);
            assert(!holds(self.fel@.entries, key)) by {
                if holds(self.fel@.entries, key) {
                    let i = choose|i: int| 0 <= i < self.fel@.entries.len() && (#[trigger] self.fel@.entries[i]).key == key;
                    assert(old(self)@.live(old(self)@.queue[i].key));
                }
            }
        }
        key
    }

    /// Schedules `key` at `time`, behind everything that is pending for the
    /// same or an earlier time. Refused, with the scheduler unchanged, for a
    /// handle that is unknown, has ended or is already pending, and for a
    /// time before the clock.
    pub fn schedule_at(&mut self, key: Key, time: u64) -> (r: Result<(), SimError>)
        requires
            old(self).wf(),
        ensures
            final(self).wf(),
            match old(self)@.refusal(key, time as int) {
                Some(kind) => r == Err::<(), SimError>(SimError { kind, key }) && final(self)@
                    == old(self)@,
                None => r.is_ok() && final(self)@ == old(self)@.scheduled_at(key, time as int),
            },
    {
        let i: usize = key.index;
        if i >= self.status.len() {
            return Err(SimError { kind: Misuse::UnknownHandle, key });
        }
        match self.status[i] {
            Status::Completed => {
                return Err(SimError { kind: Misuse::Completed, key });
            },
            Status::Scheduled => {
                return Err(SimError { kind: Misuse::AlreadyScheduled, key });
            },
            Status::Passive => {},
        }
        if time < self.clock {
            return Err(SimError { kind: Misuse::PastTimestamp, key });
        }
        match self.fel.insert(key, time) {
            None => Err(SimError { kind: Misuse::SequenceExhausted, key }),
            Some(_) => {
                self.status[i] = Status::Scheduled;
                proof {
                    let before = old(self)@;
                    before.lemma_scheduled_at_wf(key, time as int);
                    assert(self@.done =~= before.done);
                    assert(self@ == before.scheduled_at(key, time as int));
                    assert forall|j: int| 0 <= j < self.status@.len() implies ((
                    #[trigger] self.status@[j]) is Scheduled <==> holds(
                        self.fel@.entries,
                        Key { index: j as usize },
                    )) by {
                        let k = Key { index: j as usize };
                        assert(self@.scheduled(k) <==> (k == key || before.scheduled(k)));
                        assert(old(self).status@[j] is Scheduled <==> holds(old(self).fel@.entries, k));
                    }
                }
                Ok(())
            },
        }
    }

    /// Schedules `key` at the current simulated time.
    pub fn schedule_now(&mut self, key: Key) -> (r: Result<(), SimError>)
        requires
            old(self).wf(),
        ensures
            final(self).wf(),
            match old(self)@.refusal(key, old(self)@.clock as int) {
                Some(kind) => r == Err::<(), SimError>(SimError { kind, key }) && final(self)@
                    == old(self)@,
                None => r.is_ok() && final(self)@ == old(self)@.scheduled_at(
                    key,
                    old(self)@.clock as int,
                ),
            },
    {
        let now: u64 = self.clock;
        self.schedule_at(key, now)
    }

    /// Serves the next entry if it is due no later than `limit`: takes it
    /// from the list, advances the clock to its time and returns the time and
    /// the handle. Otherwise leaves the scheduler as it is.
    pub fn pop_due(&mut self, limit: u64) -> (r: Option<(u64, Key)>)
        requires
            old(self).wf(),
        ensures
            final(self).wf(),
            match old(self)@.due(limit as nat) {
                Some(e) => r == Some((e.time, e.key)) && final(self)@ == old(self)@.popped(),
                None => r.is_none() && final(self)@ == old(self)@,
            },
            old(self)@.clock <= final(self)@.clock,
            r.is_some() ==> final(self)@.clock == r.unwrap().0 && !final(self)@.scheduled(
                r.unwrap().1,
            ) && final(self)@.live(r.unwrap().1),
    {
        match self.fel.peek_earliest() {
            None => None,
            Some((time, key)) => {
                if time > limit {
                    None
                } else {
                    proof {
                        let before = old(self)@;
                        before.lemma_popped_wf();
                        assert(before.live(before.queue[0].key));
                        crate::fel::lemma_drop_first(before.queue, before.next_seq);
                    }
                    let _ = self.fel.pop_earliest();
                    self.clock = time;
                    self.status[key.index] = Status::Passive;
                    proof {
                        let before = old(self)@;
                        assert(self@.done =~= before.done);
                        assert(self@ == before.popped());
                        assert forall|j: int| 0 <= j < self.status@.len() implies ((
                        #[trigger] self.status@[j]) is Scheduled <==> holds(
                            self.fel@.entries,
                            Key { index: j as usize },
                        )) by {
                            let k = Key { index: j as usize };
                            assert(self@.scheduled(k) <==> (before.scheduled(k) && k != key));
                            assert(old(self).status@[j] is Scheduled <==> holds(
                                old(self).fel@.entries,
                                k,
                            ));
                        }
                    }
                    Some((time, key))
                }
            },
        }
    }

    /// Serves the next entry, whenever it is due.
    pub fn pop_earliest(&mut self) -> (r: Option<(u64, Key)>)
        requires
            old(self).wf(),
        ensures
            final(self).wf(),
            old(self)@.queue.len() == 0 ==> r.is_none() && final(self)@ == old(self)@,
            old(self)@.queue.len() > 0 ==> r == Some(
                (old(self)@.queue[0].time, old(self)@.queue[0].key),
            ) && final(self)@ == old(self)@.popped(),
            old(self)@.clock <= final(self)@.clock,
            r.is_some() ==> final(self)@.clock == r.unwrap().0 && !final(self)@.scheduled(
                r.unwrap().1,
            ) && final(self)@.live(r.unwrap().1),
    {
        self.pop_due(u64::MAX)
    }

    /// Applies the outcome `step` of resuming `key`: a hold schedules the
    /// process again after the given time, an activation schedules the named
    /// process at the current instant, a passivation schedules nothing, and a
    /// completion retires the process. Where the outcome cannot be applied
    /// the scheduler is left as it is and the misuse is returned.
    pub fn apply(&mut self, key: Key, step: Step) -> (r: Result<(), SimError>)
        requires
            old(self).wf(),
        ensures
            final(self).wf(),
            final(self)@ == old(self)@.applied(key, step),
            match old(self)@.fault(key, step) {
                Some(e) => r == Err::<(), SimError>(e),
                None => r.is_ok(),
            },
    {
        let i: usize = key.index;
        if i >= self.status.len() {
            return Err(SimError { kind: Misuse::UnknownHandle, key });
        }
        let standing: Status = self.status[i];
        if matches!(standing, Status::Completed) {
            return Err(SimError { kind: Misuse::Completed, key });
        }
        let pending: bool = matches!(standing, Status::Scheduled);
        match step {
            Step::Suspended(Action::Hold(d)) => {
                if pending {
                    Err(SimError { kind: Misuse::AlreadyScheduled, key })
                } else if d > u64::MAX - self.clock {
                    Err(SimError { kind: Misuse::TimeOverflow, key })
                } else {
                    let t: u64 = self.clock + d;
                    self.schedule_at(key, t)
                }
            },
            Step::Suspended(Action::Passivate) => {
                if pending {
                    Err(SimError { kind: Misuse::AlreadyScheduled, key })
                } else {
                    Ok(())
                }
            },
            Step::Suspended(Action::ActivateOne(target)) => {
                let now: u64 = self.clock;
                self.schedule_at(target, now)
            },
            Step::Completed => {
                if pending {
                    Err(SimError { kind: Misuse::AlreadyScheduled, key })
                } else {
                    self.status[i] = Status::Completed;
                    proof {
                        let before = old(self)@;
                        before.lemma_applied_wf(key, step);
                        assert(self@.done =~= before.retired(key).done);
                        assert(self@ == before.retired(key));
                    }
                    Ok(())
                }
            },
            Step::Failed => Err(SimError { kind: Misuse::EntityFailed, key }),
        }
    }
}

} // verus!

//! The scheduler as a mathematical object: the clock, the pending entries in
//! serving order, and which processes have run to their end. The executable
//! scheduler is specified by the transitions defined here.

use vstd::prelude::*;
use crate::key::Key;
use crate::fel::{Entry, ordered, numbered_below, one_each, holds, enqueue};
use crate::effect::{Action, Step, Misuse, SimError, Event, Halt};

verus! {

/// The state of a scheduler.
pub struct Model {
    /// The current simulated time.
    pub clock: nat,
    /// The pending entries, in the order in which they will be served.
    pub queue: Seq<Entry>,
    /// The insertion number that the next entry gets.
    pub next_seq: nat,
    /// For each registered process, by registration number, whether it has
    /// run to its end.
    pub done: Seq<bool>,
}

impl Model {
    /// The scheduler before anything was registered: clock zero, nothing
    /// pending.
    pub open spec fn empty() -> Model {
        Model { clock: 0, queue: Seq::empty(), next_seq: 0, done: Seq::empty() }
    }

    /// The handle was given out by this scheduler.
    pub open spec fn known(self, key: Key) -> bool {
        key.id() < self.done.len()
    }

    /// The handle was given out and its process has not run to its end.
    pub open spec fn live(self, key: Key) -> bool {
        self.known(key) && !self.done[key.id() as int]
    }

    /// The handle has a pending entry.
    pub open spec fn scheduled(self, key: Key) -> bool {
        holds(self.queue, key)
    }

    /// What every reachable scheduler satisfies: the entries stand in serving
    /// order, none lies before the clock, none belongs to a process that is
    /// unknown or has ended, and no process has two.
    pub open spec fn wf(self) -> bool {
        &&& ordered(self.queue)
        &&& numbered_below(self.queue, self.next_seq)
        &&& one_each(self.queue)
        &&& forall|i: int|
            0 <= i < self.queue.len() ==> self.clock <= (#[trigger] self.queue[i]).time
                && self.live(self.queue[i].key)
        &&& self.clock <= u64::MAX
        &&& self.next_seq <= u64::MAX
        &&& self.done.len() <= usize::MAX
    }

    /// The scheduler after one more process was registered.
    pub open spec fn registered(self) -> Model {
        Model { done: self.done.push(false), ..self }
    }

    /// Why the handle cannot take part in scheduling, if it cannot.
    pub open spec fn standing(self, key: Key) -> Option<Misuse> {
        if !self.known(key) {
            Some(Misuse::UnknownHandle)
        } else if self.done[key.id() as int] {
            Some(Misuse::Completed)
        } else {
            None
        }
    }

    /// Why scheduling `key` at `time` is refused, if it is.
    pub open spec fn refusal(self, key: Key, time: int) -> Option<Misuse> {
        if self.standing(key).is_some() {
            self.standing(key)
        } else if self.scheduled(key) {
            Some(Misuse::AlreadyScheduled)
        } else if time < self.clock {
            Some(Misuse::PastTimestamp)
        } else if time > u64::MAX {
            Some(Misuse::TimeOverflow)
        } else if self.next_seq >= u64::MAX {
            Some(Misuse::SequenceExhausted)
        } else {
            None
        }
    }

    /// The scheduler after `key` was scheduled at `time`.
    pub open spec fn scheduled_at(self, key: Key, time: int) -> Model {
        Model {
            queue: enqueue(
                self.queue,
                Entry { time: time as u64, seq: self.next_seq as u64, key },
            ),
            next_seq: self.next_seq + 1,
            ..self
        }
    }

    /// The entry that is served next, provided that it is due no later than
    /// `limit`.
    pub open spec fn due(self, limit: nat) -> Option<Entry> {
        if self.queue.len() > 0 && self.queue[0].time <= limit {
            Some(self.queue[0])
        } else {
            None
        }
    }

    /// The scheduler after the next entry was taken from the list and the
    /// clock was advanced to its time.
    pub open spec fn popped(self) -> Model {
        Model { clock: self.queue[0].time as nat, queue: self.queue.drop_first(), ..self }
    }

    /// The scheduler after the process of `key` has run to its end.
    pub open spec fn retired(self, key: Key) -> Model {
        Model { done: self.done.update(key.id() as int, true), ..self }
    }

    /// Why the outcome `step` of resuming `key` cannot be applied, if it
    /// cannot.
    pub open spec fn fault(self, key: Key, step: Step) -> Option<SimError> {
        if self.standing(key).is_some() {
            Some(SimError { kind: self.standing(key).unwrap(), key })
        } else {
            match step {
                Step::Suspended(Action::Hold(d)) => match self.refusal(key, self.clock + d) {
                    Some(kind) => Some(SimError { kind, key }),
                    None => None,
                },
                Step::Suspended(Action::Passivate) => if self.scheduled(key) {
                    Some(SimError { kind: Misuse::AlreadyScheduled, key })
                } else {
                    None
                },
                Step::Suspended(Action::ActivateOne(target)) => match self.refusal(
                    target,
                    self.clock as int,
                ) {
                    Some(kind) => Some(SimError { kind, key: target }),
                    None => None,
                },
                Step::Completed => if self.scheduled(key) {
                    Some(SimError { kind: Misuse::AlreadyScheduled, key })
                } else {
                    None
                },
                Step::Failed => Some(SimError { kind: Misuse::EntityFailed, key }),
            }
        }
    }

    /// The scheduler after the outcome `step` of resuming `key` was applied.
    /// Where the outcome cannot be applied the scheduler stays as it is.
    pub open spec fn applied(self, key: Key, step: Step) -> Model {
        if self.fault(key, step).is_some() {
            self
        } else {
            match step {
                Step::Suspended(Action::Hold(d)) => self.scheduled_at(key, self.clock + d),
                Step::Suspended(Action::Passivate) => self,
                Step::Suspended(Action::ActivateOne(target)) => self.scheduled_at(
                    target,
                    self.clock as int,
                ),
                Step::Completed => self.retired(key),
                Step::Failed => self,
            }
        }
    }

    /// The resumption `ev` is what the scheduler does next under `limit`: the
    /// next entry is due no later than `limit`, and `ev` carries its time and
    /// handle.
    pub open spec fn served(self, ev: Event, limit: nat) -> bool {
        &&& self.due(limit).is_some()
        &&& self.queue[0].time == ev.time
        &&& self.queue[0].key == ev.key
    }

    /// What stands in the way of applying the outcome of `ev`, once its
    /// entry was taken from the list.
    pub open spec fn objection(self, ev: Event) -> Option<SimError> {
        self.popped().fault(ev.key, ev.step)
    }

    /// The scheduler after the resumption `ev`: its entry is taken from the
    /// list, the clock stands at its time, and its outcome is applied.
    pub open spec fn after(self, ev: Event) -> Model {
        self.popped().applied(ev.key, ev.step)
    }

    /// The scheduler after the resumptions of `trace`, one after the other.
    pub open spec fn replay(self, trace: Seq<Event>) -> Model
        decreases trace.len(),
    {
        if trace.len() == 0 {
            self
        } else {
            self.replay(trace.drop_last()).after(trace.last())
        }
    }

    /// `trace` is a run under `limit`: each of its resumptions is what the
    /// scheduler does next after the ones before it, and the outcome of each
    /// can be applied.
    pub open spec fn runs(self, trace: Seq<Event>, limit: nat) -> bool
        decreases trace.len(),
    {
        trace.len() == 0 || {
            &&& self.runs(trace.drop_last(), limit)
            &&& self.replay(trace.drop_last()).served(trace.last(), limit)
            &&& self.replay(trace.drop_last()).objection(trace.last()).is_none()
        }
    }

    /// A run `trace` under `limit` that started here has ended for the reason
    /// `halt` in the scheduler `end`.
    pub open spec fn ends(self, trace: Seq<Event>, limit: nat, halt: Halt, end: Model) -> bool {
        &&& self.runs(trace, limit)
        &&& match halt {
            Halt::Exhausted => end == self.replay(trace) && end.queue.len() == 0,
            Halt::Budget => end == self.replay(trace) && end.queue.len() > 0 && end.queue[0].time
                > limit,
            Halt::Fault(ev, e) => self.replay(trace).served(ev, limit) && self.replay(
                trace,
            ).objection(ev) == Some(e) && end == self.replay(trace).popped(),
            Halt::StepCap => end == self.replay(trace),
        }
    }

    /// Registering a process keeps the scheduler well formed.
    pub proof fn lemma_registered_wf(self)
        requires
            self.wf(),
            self.done.len() < usize::MAX,
        ensures
            self.registered().wf(),
            forall|k: Key| self.scheduled(k) == self.registered().scheduled(k),
    {
        let r = self.registered();
        assert forall|i: int| 0 <= i < r.queue.len() implies r.clock <= (#[trigger] r.queue[i]).time
            && r.live(r.queue[i].key) by {
            assert(self.live(self.queue[i].key));
        }
    }

    /// Scheduling what is not refused keeps the scheduler well formed, and
    /// changes which handles are scheduled by the one handle only.
    pub proof fn lemma_scheduled_at_wf(self, key: Key, time: int)
        requires
            self.wf(),
            self.refusal(key, time).is_none(),
        ensures
            self.scheduled_at(key, time).wf(),
            forall|k: Key|
                self.scheduled_at(key, time).scheduled(k) <==> (k == key || self.scheduled(k)),
    {
        let e = Entry { time: time as u64, seq: self.next_seq as u64, key };
        let r = self.scheduled_at(key, time);
        crate::fel::lemma_enqueue_ordered(self.queue, e);
        crate::fel::lemma_enqueue_one_each(self.queue, e);
        crate::fel::lemma_rank_bounds(self.queue, e.time);
        let k = crate::fel::rank(self.queue, e.time) as int;
        assert forall|i: int| 0 <= i < r.queue.len() implies r.clock <= (#[trigger] r.queue[i]).time
            && r.live(r.queue[i].key) by {
            if i < k {
                assert(r.queue[i] == self.queue[i]);
            } else if i > k {
                assert(r.queue[i] == self.queue[i - 1]);
            }
        }
        assert forall|k: Key| r.scheduled(k) <==> (k == key || self.scheduled(k)) by {
            crate::fel::lemma_enqueue_holds(self.queue, e, k);
        }
    }

    /// Taking the next entry keeps the scheduler well formed, never moves the
    /// clock back, and unschedules the served handle and no other.
    pub proof fn lemma_popped_wf(self)
        requires
            self.wf(),
            self.queue.len() > 0,
        ensures
            self.popped().wf(),
            self.clock <= self.popped().clock,
            self.popped().live(self.queue[0].key),
            forall|k: Key|
                self.popped().scheduled(k) <==> (self.scheduled(k) && k != self.queue[0].key),
    {
        let r = self.popped();
        crate::fel::lemma_drop_first(self.queue, self.next_seq);
        assert(self.live(self.queue[0].key));
        assert forall|i: int| 0 <= i < r.queue.len() implies r.clock <= (#[trigger] r.queue[i]).time
            && r.live(r.queue[i].key) by {
            assert(r.queue[i] == self.queue[i + 1]);
        }
        assert forall|k: Key| r.scheduled(k) <==> (self.scheduled(k) && k != self.queue[0].key) by {
            crate::fel::lemma_drop_first_holds(self.queue, k);
        }
        crate::fel::lemma_drop_first_holds(self.queue, self.queue[0].key);
    }

    /// Applying an outcome keeps the scheduler well formed and the clock
    /// where it is.
    pub proof fn lemma_applied_wf(self, key: Key, step: Step)
        requires
            self.wf(),
        ensures
            self.applied(key, step).wf(),
            self.applied(key, step).clock == self.clock,
    {
        if self.fault(key, step).is_none() {
            match step {
                Step::Suspended(Action::Hold(d)) => {
                    self.lemma_scheduled_at_wf(key, self.clock + d);
                },
                Step::Suspended(Action::Passivate) => {},
                Step::Suspended(Action::ActivateOne(target)) => {
                    self.lemma_scheduled_at_wf(target, self.clock as int);
                },
                Step::Completed => {
                    let r = self.retired(key);
                    assert forall|i: int| 0 <= i < r.queue.len() implies r.clock <= (
                    #[trigger] r.queue[i]).time && r.live(r.queue[i].key) by {
                        assert(self.live(self.queue[i].key));
                        assert(self.queue[i].key != key);
                        Key::lemma_id_identifies(self.queue[i].key, key);
                    }
                },
                Step::Failed => {},
            }
        }
    }
    /// One resumption keeps the scheduler well formed, moves the clock to the
    /// time of the resumption, and leaves every entry pending that is due
    /// later than `limit`.
    pub proof fn lemma_after_wf(self, ev: Event, limit: nat)
        requires
            self.wf(),
            self.served(ev, limit),
        ensures
            self.after(ev).wf(),
            self.popped().wf(),
            self.clock <= self.after(ev).clock == ev.time <= limit,
            self.after(ev).clock == self.popped().clock,
            self.after(ev).done.len() == self.done.len(),
            forall|e: Entry|
                self.queue.contains(e) && e.time > limit ==> self.popped().queue.contains(e)
                    && self.after(ev).queue.contains(e),
    {
        self.lemma_popped_wf();
        let p = self.popped();
        p.lemma_applied_wf(ev.key, ev.step);
        let r = self.after(ev);
        assert forall|e: Entry| self.queue.contains(e) && e.time > limit implies p.queue.contains(e)
            && r.queue.contains(e) by {
            let i = choose|i: int| 0 <= i < self.queue.len() && self.queue[i] == e;
            assert(i > 0);
            assert(p.queue[i - 1] == e);
            if r.queue != p.queue {
                match ev.step {
                    Step::Suspended(Action::Hold(d)) => {
                        let n = Entry {
                            time: (p.clock + d) as u64,
                            seq: p.next_seq as u64,
                            key: ev.key,
                        };
                        crate::fel::lemma_enqueue_keeps(p.queue, n, e);
                    },
                    Step::Suspended(Action::ActivateOne(target)) => {
                        let n = Entry { time: p.clock as u64, seq: p.next_seq as u64, key: target };
                        crate::fel::lemma_enqueue_keeps(p.queue, n, e);
                    },
                    _ => {},
                }
            }
        }
    }

    /// A run keeps the scheduler well formed, never moves the clock back nor
    /// beyond the later of the limit and the clock at its start, registers
    /// nothing, and leaves every entry pending that is due later than the
    /// limit.
    pub proof fn lemma_replay_wf(self, trace: Seq<Event>, limit: nat)
        requires
            self.wf(),
            self.runs(trace, limit),
        ensures
            self.replay(trace).wf(),
            self.clock <= self.replay(trace).clock,
            self.replay(trace).clock <= limit || self.replay(trace).clock == self.clock,
            self.replay(trace).done.len() == self.done.len(),
            forall|e: Entry|
                self.queue.contains(e) && e.time > limit ==> self.replay(trace).queue.contains(e),
        decreases trace.len(),
    {
        if trace.len() > 0 {
            let before = self.replay(trace.drop_last());
            self.lemma_replay_wf(trace.drop_last(), limit);
            before.lemma_after_wf(trace.last(), limit);
        }
    }

    /// A resumption takes no entry from the list but the one it serves.
    pub proof fn lemma_after_keeps(self, ev: Event, limit: nat, x: Entry)
        requires
            self.wf(),
            self.served(ev, limit),
            self.queue.contains(x),
            x.key != ev.key,
        ensures
            self.after(ev).queue.contains(x),
    {
        let p = self.popped();
        let i = choose|i: int| 0 <= i < self.queue.len() && self.queue[i] == x;
        assert(p.queue[i - 1] == x);
        match ev.step {
            Step::Suspended(Action::Hold(d)) => {
                let n = Entry { time: (p.clock + d) as u64, seq: p.next_seq as u64, key: ev.key };
                crate::fel::lemma_enqueue_keeps(p.queue, n, x);
            },
            Step::Suspended(Action::ActivateOne(target)) => {
                let n = Entry { time: p.clock as u64, seq: p.next_seq as u64, key: target };
                crate::fel::lemma_enqueue_keeps(p.queue, n, x);
            },
            _ => {},
        }
    }

    /// After a resumption whose outcome was applied, a process other than the
    /// one resumed is pending exactly if it was pending before or was just
    /// activated; where it was just activated, it is pending for the time of
    /// the resumption.
    pub proof fn lemma_after_scheduled(self, ev: Event, limit: nat, k: Key)
        requires
            self.wf(),
            self.served(ev, limit),
            self.objection(ev).is_none(),
            k != ev.key,
        ensures
            self.after(ev).scheduled(k) <==> (self.scheduled(k) || ev.step == Step::Suspended(
                Action::ActivateOne(k),
            )),
            ev.step == Step::Suspended(Action::ActivateOne(k)) ==> !self.scheduled(k)
                && self.after(ev).queue.contains(
                Entry { time: ev.time, seq: self.next_seq as u64, key: k },
            ),
    {
        self.lemma_popped_wf();
        let p = self.popped();
        match ev.step {
            Step::Suspended(Action::Hold(d)) => {
                p.lemma_scheduled_at_wf(ev.key, p.clock + d);
            },
            Step::Suspended(Action::ActivateOne(target)) => {
                p.lemma_scheduled_at_wf(target, p.clock as int);
                if target == k {
                    let n = Entry { time: ev.time, seq: self.next_seq as u64, key: k };
                    crate::fel::lemma_rank_bounds(p.queue, n.time);
                    assert(self.after(ev).queue[crate::fel::rank(p.queue, n.time) as int] == n);
                }
            },
            _ => {},
        }
    }
}

} // verus!

//! What holds of every run of the scheduler.

use vstd::prelude::*;
use crate::key::Key;
use crate::fel::{Entry, precedes};
use crate::effect::{Action, Step, Event};
use crate::model::Model;
use crate::registry::Process;
use crate::world::World;

verus! {

/// A run is a function of the simulation it starts from: two simulations with
/// the same scheduler, the same processes and the same store contents make
/// the same resumptions at the same times with the same outcomes, end for the
/// same reason, and leave the same scheduler, processes and store.
pub proof fn law_same_setup_same_run<P: Process>(
    first: World<P>,
    second: World<P>,
    limit: nat,
    steps: nat,
)
    requires
        first.model == second.model,
        first.processes == second.processes,
        first.store == second.store,
    ensures
        first.run(limit, steps) == second.run(limit, steps),
{
}

/// The scheduler adds no choice of its own: two runs from the same scheduler
/// in which the processes yield the same outcomes in the same order resume
/// the same processes at the same times, and end in the same scheduler.
pub proof fn law_determinism(m: Model, first: Seq<Event>, second: Seq<Event>, limit: nat)
    requires
        m.runs(first, limit),
        m.runs(second, limit),
        first.len() == second.len(),
        forall|i: int| 0 <= i < first.len() ==> first[i].step == second[i].step,
    ensures
        first == second,
        m.replay(first) == m.replay(second),
    decreases first.len(),
{
    if first.len() > 0 {
        law_determinism(m, first.drop_last(), second.drop_last(), limit);
        assert(first.last().step == second.last().step);
        assert(first =~= first.drop_last().push(first.last()));
        assert(second =~= second.drop_last().push(second.last()));
    }
    assert(first =~= second);
}

/// Simulated time never runs backwards: in a run, no resumption happens
/// before the clock at which the run started, and none before an earlier
/// resumption of the run.
pub proof fn law_clock_monotone(m: Model, trace: Seq<Event>, limit: nat)
    requires
        m.wf(),
        m.runs(trace, limit),
    ensures
        forall|i: int| 0 <= i < trace.len() ==> m.clock <= (#[trigger] trace[i]).time,
        forall|i: int|
            0 <= i < trace.len() ==> (#[trigger] trace[i]).time <= m.replay(trace).clock,
        forall|i: int, j: int|
            0 <= i <= j < trace.len() ==> (#[trigger] trace[i]).time <= (#[trigger] trace[j]).time,
    decreases trace.len(),
{
    if trace.len() > 0 {
        let init = trace.drop_last();
        law_clock_monotone(m, init, limit);
        m.lemma_replay_wf(init, limit);
        m.replay(init).lemma_after_wf(trace.last(), limit);
        assert forall|i: int| 0 <= i < trace.len() implies m.clock <= (#[trigger] trace[i]).time
            && trace[i].time <= m.replay(trace).clock by {
            if i < init.len() {
                assert(trace[i] == init[i]);
            }
        }
        assert forall|i: int, j: int| 0 <= i <= j < trace.len() implies (#[trigger] trace[i]).time
            <= (#[trigger] trace[j]).time by {
            if j < init.len() {
                assert(trace[i] == init[i] && trace[j] == init[j]);
            } else if i < init.len() {
                assert(trace[i] == init[i]);
            }
        }
    }
}

/// Of two pending entries, the process of the one that is served first is
/// resumed first: in a run, the process of the later entry is not resumed
/// unless the process of the earlier one was resumed before it.
pub proof fn law_served_in_order(m: Model, early: Entry, late: Entry, trace: Seq<Event>, limit: nat)
    requires
        m.wf(),
        m.queue.contains(early),
        m.queue.contains(late),
        precedes(early, late),
        m.runs(trace, limit),
    ensures
        forall|j: int|
            0 <= j < trace.len() && (#[trigger] trace[j]).key == late.key ==> exists|i: int|
                0 <= i < j && (#[trigger] trace[i]).key == early.key,
        (exists|i: int| 0 <= i < trace.len() && (#[trigger] trace[i]).key == early.key) || (
        m.replay(trace).queue.contains(early) && m.replay(trace).queue.contains(late)),
    decreases trace.len(),
{
    if trace.len() > 0 {
        let init = trace.drop_last();
        let ev = trace.last();
        let before = m.replay(init);
        law_served_in_order(m, early, late, init, limit);
        m.lemma_replay_wf(init, limit);
        assert forall|i: int| 0 <= i < init.len() implies (#[trigger] trace[i]) == init[i] by {}
        if exists|i: int| 0 <= i < init.len() && (#[trigger] init[i]).key == early.key {
            let i = choose|i: int| 0 <= i < init.len() && (#[trigger] init[i]).key == early.key;
            assert(trace[i].key == early.key);
        } else {
            let a = choose|a: int| 0 <= a < before.queue.len() && before.queue[a] == early;
            let b = choose|b: int| 0 <= b < before.queue.len() && before.queue[b] == late;
            if ev.key == late.key {
                assert(before.queue[0].key == before.queue[b].key);
                assert(b == 0);
                if a > 0 {
                    assert(precedes(before.queue[0], before.queue[a]));
                }
                assert(false);
            } else if ev.key == early.key {
                assert(trace[trace.len() - 1].key == early.key);
            } else {
                before.lemma_after_keeps(ev, limit, early);
                before.lemma_after_keeps(ev, limit, late);
            }
        }
        assert forall|j: int| 0 <= j < trace.len() && (#[trigger] trace[j]).key
            == late.key implies exists|i: int| 0 <= i < j && (#[trigger] trace[i]).key
            == early.key by {
            if j < init.len() {
                assert(init[j].key == late.key);
                let i = choose|i: int| 0 <= i < j && (#[trigger] init[i]).key == early.key;
                assert(trace[i].key == early.key);
            } else {
                let i = choose|i: int| 0 <= i < init.len() && (#[trigger] init[i]).key == early.key;
                assert(trace[i].key == early.key);
            }
        }
    }
}

/// In `q` an entry of `a` for `time` stands before an entry of `b` for the
/// same time.
pub open spec fn stands_before(q: Seq<Entry>, a: Key, b: Key, time: u64) -> bool {
    exists|i: int, j: int|
        0 <= i < j < q.len() && (#[trigger] q[i]).key == a && q[i].time == time && (
        #[trigger] q[j]).key == b && q[j].time == time
}

/// Ties are broken by the order of scheduling: where `a` and then `b` were
/// scheduled for the same time, `a` stands before `b` in the list, and in any
/// run from there `b` is not resumed unless `a` was resumed before it.
pub proof fn law_tie_break(m: Model, a: Key, b: Key, time: u64, trace: Seq<Event>, limit: nat)
    requires
        m.wf(),
        m.refusal(a, time as int).is_none(),
        m.scheduled_at(a, time as int).refusal(b, time as int).is_none(),
        m.scheduled_at(a, time as int).scheduled_at(b, time as int).runs(trace, limit),
    ensures
        stands_before(
            m.scheduled_at(a, time as int).scheduled_at(b, time as int).queue,
            a,
            b,
            time,
        ),
        forall|j: int|
            0 <= j < trace.len() && (#[trigger] trace[j]).key == b ==> exists|i: int|
                0 <= i < j && (#[trigger] trace[i]).key == a,
{
    let one = m.scheduled_at(a, time as int);
    let two = one.scheduled_at(b, time as int);
    let ea = Entry { time, seq: m.next_seq as u64, key: a };
    let eb = Entry { time, seq: one.next_seq as u64, key: b };
    m.lemma_scheduled_at_wf(a, time as int);
    one.lemma_scheduled_at_wf(b, time as int);
    crate::fel::lemma_rank_bounds(m.queue, time);
    let ka = crate::fel::rank(m.queue, time) as int;
    assert(one.queue[ka] == ea);
    assert(one.queue.contains(ea));
    crate::fel::lemma_enqueue_keeps(one.queue, eb, ea);
    crate::fel::lemma_rank_bounds(one.queue, time);
    let kb = crate::fel::rank(one.queue, time) as int;
    assert(two.queue[kb] == eb);
    assert(two.queue.contains(eb));
    let i = choose|i: int| 0 <= i < two.queue.len() && two.queue[i] == ea;
    if i > kb {
        assert(precedes(two.queue[kb], two.queue[i]));
    }
    assert(i < kb);
    assert(two.queue[i].key == a && two.queue[kb].key == b);
    law_served_in_order(two, ea, eb, trace, limit);
}

/// A process that is not pending, as after it has passivated, is not resumed
/// until another process activates it, and it is then resumed at the very
/// time of that activation.
pub proof fn law_passivate_round_trip(m: Model, h: Key, trace: Seq<Event>, limit: nat, j: int)
    requires
        m.wf(),
        !m.scheduled(h),
        m.runs(trace, limit),
        0 <= j < trace.len(),
        trace[j].key == h,
        forall|k: int| 0 <= k < j ==> (#[trigger] trace[k]).key != h,
    ensures
        exists|i: int|
            0 <= i < j && (#[trigger] trace[i]).step == Step::Suspended(Action::ActivateOne(h))
                && trace[i].key != h && trace[i].time == trace[j].time,
{
    let prefix = trace.take(j);
    lemma_runs_prefix(m, trace, limit, j);
    lemma_runs_prefix(m, trace, limit, j + 1);
    assert(trace.take(j + 1).drop_last() =~= prefix);
    assert(trace.take(j + 1).last() == trace[j]);
    assert forall|k: int| 0 <= k < prefix.len() implies (#[trigger] prefix[k]).key != h by {
        assert(prefix[k] == trace[k]);
    }
    lemma_waits_for_activation(m, h, prefix, limit);
    let before = m.replay(prefix);
    m.lemma_replay_wf(prefix, limit);
    assert(before.served(trace[j], limit));
    assert(before.queue[0].key == h);
    assert(before.scheduled(h));
    let i = choose|i: int|
        0 <= i < prefix.len() && (#[trigger] prefix[i]).step == Step::Suspended(
            Action::ActivateOne(h),
        ) && exists|x: Entry|
            before.queue.contains(x) && x.key == h && x.time == prefix[i].time;
    let x = choose|x: Entry| before.queue.contains(x) && x.key == h && x.time == prefix[i].time;
    let n = choose|n: int| 0 <= n < before.queue.len() && before.queue[n] == x;
    assert(before.queue[n].key == before.queue[0].key);
    assert(n == 0);
    assert(trace[i] == prefix[i]);
}

/// Every beginning of a run is a run, and a run goes on from where its
/// beginning ended.
pub proof fn lemma_runs_prefix(m: Model, trace: Seq<Event>, limit: nat, n: int)
    requires
        m.runs(trace, limit),
        0 <= n <= trace.len(),
    ensures
        m.runs(trace.take(n), limit),
    decreases trace.len(),
{
    if n == trace.len() {
        assert(trace.take(n) =~= trace);
    } else {
        lemma_runs_prefix(m, trace.drop_last(), limit, n);
        assert(trace.drop_last().take(n) =~= trace.take(n));
    }
}

/// In a run in which a process that was not pending is not resumed, the
/// process is either still not pending, or it was activated and is pending
/// for the time of that activation.
pub proof fn lemma_waits_for_activation(m: Model, h: Key, trace: Seq<Event>, limit: nat)
    requires
        m.wf(),
        !m.scheduled(h),
        m.runs(trace, limit),
        forall|k: int| 0 <= k < trace.len() ==> (#[trigger] trace[k]).key != h,
    ensures
        !m.replay(trace).scheduled(h) || exists|i: int|
            0 <= i < trace.len() && (#[trigger] trace[i]).step == Step::Suspended(
                Action::ActivateOne(h),
            ) && exists|x: Entry|
                m.replay(trace).queue.contains(x) && x.key == h && x.time == trace[i].time,
    decreases trace.len(),
{
    if trace.len() > 0 {
        let init = trace.drop_last();
        let ev = trace.last();
        let before = m.replay(init);
        let end = m.replay(trace);
        assert forall|k: int| 0 <= k < init.len() implies (#[trigger] init[k]).key != h by {
            assert(init[k] == trace[k]);
        }
        lemma_waits_for_activation(m, h, init, limit);
        m.lemma_replay_wf(init, limit);
        assert(ev == trace[trace.len() - 1]);
        before.lemma_after_scheduled(ev, limit, h);
        if before.scheduled(h) {
            let i = choose|i: int|
                0 <= i < init.len() && (#[trigger] init[i]).step == Step::Suspended(
                    Action::ActivateOne(h),
                ) && exists|x: Entry|
                    before.queue.contains(x) && x.key == h && x.time == init[i].time;
            let x = choose|x: Entry|
                before.queue.contains(x) && x.key == h && x.time == init[i].time;
            before.lemma_after_keeps(ev, limit, x);
            assert(trace[i] == init[i]);
            assert(end.queue.contains(x) && x.key == h && x.time == trace[i].time);
        } else if end.scheduled(h) {
            let x = Entry { time: ev.time, seq: before.next_seq as u64, key: h };
            let i = trace.len() - 1;
            assert(trace[i].step == Step::Suspended(Action::ActivateOne(h)));
            assert(end.queue.contains(x) && x.key == h && x.time == trace[i].time);
        }
    }
}

/// A pending process is next resumed at the time for which it is pending.
pub proof fn law_pending_resumes_on_time(
    m: Model,
    x: Entry,
    trace: Seq<Event>,
    limit: nat,
    j: int,
)
    requires
        m.wf(),
        m.queue.contains(x),
        m.runs(trace, limit),
        0 <= j < trace.len(),
        trace[j].key == x.key,
        forall|k: int| 0 <= k < j ==> (#[trigger] trace[k]).key != x.key,
    ensures
        trace[j].time == x.time,
{
    let prefix = trace.take(j);
    lemma_runs_prefix(m, trace, limit, j);
    lemma_runs_prefix(m, trace, limit, j + 1);
    assert(trace.take(j + 1).drop_last() =~= prefix);
    assert(trace.take(j + 1).last() == trace[j]);
    assert forall|k: int| 0 <= k < prefix.len() implies (#[trigger] prefix[k]).key != x.key by {
        assert(prefix[k] == trace[k]);
    }
    lemma_stays_pending(m, x, prefix, limit);
    let before = m.replay(prefix);
    m.lemma_replay_wf(prefix, limit);
    assert(before.served(trace[j], limit));
    let n = choose|n: int| 0 <= n < before.queue.len() && before.queue[n] == x;
    assert(before.queue[n].key == before.queue[0].key);
    assert(n == 0);
}

/// An entry stays pending for as long as its process is not resumed.
pub proof fn lemma_stays_pending(m: Model, x: Entry, trace: Seq<Event>, limit: nat)
    requires
        m.wf(),
        m.queue.contains(x),
        m.runs(trace, limit),
        forall|k: int| 0 <= k < trace.len() ==> (#[trigger] trace[k]).key != x.key,
    ensures
        m.replay(trace).queue.contains(x),
    decreases trace.len(),
{
    if trace.len() > 0 {
        let init = trace.drop_last();
        assert forall|k: int| 0 <= k < init.len() implies (#[trigger] init[k]).key != x.key by {
            assert(init[k] == trace[k]);
        }
        lemma_stays_pending(m, x, init, limit);
        m.lemma_replay_wf(init, limit);
        assert(trace.last() == trace[trace.len() - 1]);
        m.replay(init).lemma_after_keeps(trace.last(), limit, x);
    }
}

/// A process that yields a hold is next resumed exactly that much later: where
/// the resumption `ev` yields a hold of `d` that is applied, the next
/// resumption of the same process in any run from there is at the time of
/// `ev` plus `d`.
pub proof fn law_hold_resumes_after(
    m: Model,
    ev: Event,
    d: u64,
    served_under: nat,
    trace: Seq<Event>,
    limit: nat,
    j: int,
)
    requires
        m.wf(),
        m.served(ev, served_under),
        m.objection(ev).is_none(),
        ev.step == Step::Suspended(Action::Hold(d)),
        m.after(ev).runs(trace, limit),
        0 <= j < trace.len(),
        trace[j].key == ev.key,
        forall|k: int| 0 <= k < j ==> (#[trigger] trace[k]).key != ev.key,
    ensures
        trace[j].time == ev.time + d,
{
    m.lemma_after_wf(ev, served_under);
    m.lemma_popped_wf();
    let p = m.popped();
    let x = Entry { time: (ev.time + d) as u64, seq: m.next_seq as u64, key: ev.key };
    crate::fel::lemma_rank_bounds(p.queue, x.time);
    assert(m.after(ev).queue[crate::fel::rank(p.queue, x.time) as int] == x);
    law_pending_resumes_on_time(m.after(ev), x, trace, limit, j);
}

} // verus!

use simkernel::effect::{Action, Event, Halt, Misuse, SimError, Step, Tick};
use simkernel::entities::{entity_a, entity_b, Actor, Phase, Role, Script, HOLD};
use simkernel::key::Key;
use simkernel::passivated::Passivated;
use simkernel::registry::Process;
use simkernel::simulation::Simulation;
use simkernel::state::{State, StateKey};

fn script(steps: Vec<Step>) -> Actor {
    Actor::Script(Script::new(steps))
}

fn collect(sim: &mut Simulation<Actor>, limit: u64) -> (Vec<(u64, Key, Step)>, Tick) {
    let mut out = Vec::new();
    loop {
        let tick = sim.step(limit);
        match tick {
            Tick::Ran(ev) => out.push((ev.time, ev.key, ev.step)),
            _ => return (out, tick),
        }
    }
}

struct Pair {
    sim: Simulation<Actor>,
    a: Key,
    b: Key,
    flags: StateKey<Passivated>,
    b_slot: StateKey<Option<Key>>,
}

fn pair() -> Pair {
    let mut sim: Simulation<Actor> = Simulation::default();
    let b_slot = sim.state_mut().insert(None);
    let flags = sim.state_mut().insert(Passivated::new());
    let a = sim.add_generator(Actor::Entity(entity_a(b_slot, flags)));
    let b = sim.add_generator(Actor::Entity(entity_b(a, flags)));
    *sim.state_mut().get_mut(b_slot).unwrap() = Some(b);
    Pair { sim, a, b, flags, b_slot }
}

fn hold() -> Step {
    Step::Suspended(Action::Hold(HOLD))
}

fn passivate() -> Step {
    Step::Suspended(Action::Passivate)
}

fn activate(k: Key) -> Step {
    Step::Suspended(Action::ActivateOne(k))
}

#[test]
fn the_two_entities_run_as_wired() {
    let Pair { mut sim, a, b, flags, .. } = pair();
    assert_eq!(sim.schedule_now(b), Ok(()));
    assert_eq!(sim.schedule_now(a), Ok(()));
    let (trace, last) = collect(&mut sim, 60);
    assert_eq!(
        trace,
        vec![
            (0, b, passivate()),
            (0, a, hold()),
            (5, a, activate(b)),
            (5, b, hold()),
            (10, b, passivate()),
        ]
    );
    assert_eq!(last, Tick::Exhausted);
    assert_eq!(sim.now(), 10);
    assert_eq!(
        sim.state().get(flags),
        Some(&Passivated { entity_a: false, entity_b: true })
    );
    assert!(sim.is_live(a) && sim.is_live(b));
}

#[test]
fn run_with_limit_gives_the_same_end_as_stepping() {
    let Pair { mut sim, a, b, flags, .. } = pair();
    assert_eq!(sim.schedule_now(b), Ok(()));
    assert_eq!(sim.schedule_now(a), Ok(()));
    let report = sim.run_with_limit(60);
    assert_eq!(report.halt, Halt::Exhausted);
    assert_eq!(report.events, 5);
    assert_eq!(sim.now(), 10);
    assert_eq!(sim.pending(), 0);
    assert_eq!(
        sim.state().get(flags),
        Some(&Passivated { entity_a: false, entity_b: true })
    );
}

#[test]
fn two_runs_give_the_same_trace() {
    let mut first = pair();
    let mut second = pair();
    for p in [&mut first, &mut second] {
        let t = p.sim.add_generator(script(vec![activate(p.b), hold()]));
        assert_eq!(p.sim.schedule_at(p.a, 0), Ok(()));
        assert_eq!(p.sim.schedule_at(p.b, 6), Ok(()));
        assert_eq!(p.sim.schedule_at(t, 20), Ok(()));
    }
    let (one, end_one) = collect(&mut first.sim, 1000);
    let (two, end_two) = collect(&mut second.sim, 1000);
    assert_eq!(one, two);
    assert_eq!(end_one, end_two);
    assert_eq!(one.len(), 8);
    assert_eq!(one[7], (30, first.a, passivate()));
    assert_eq!(first.sim.now(), 30);
    assert_eq!(first.sim.now(), second.sim.now());
}

#[test]
fn popped_times_never_decrease() {
    let mut sim: Simulation<Actor> = Simulation::default();
    let mut keys = Vec::new();
    for i in 0..20u64 {
        let k = sim.add_generator(script(vec![
            Step::Suspended(Action::Hold(i % 3)),
            Step::Suspended(Action::Hold(7 - (i % 7))),
        ]));
        assert_eq!(sim.schedule_at(k, (i * 13) % 11), Ok(()));
        keys.push(k);
    }
    let (trace, last) = collect(&mut sim, u64::MAX);
    assert_eq!(last, Tick::Exhausted);
    assert_eq!(trace.len(), 60);
    for w in trace.windows(2) {
        assert!(w[0].0 <= w[1].0);
    }
}

#[test]
fn first_scheduled_runs_first_at_equal_times() {
    let mut sim: Simulation<Actor> = Simulation::default();
    let a = sim.add_generator(script(vec![]));
    let b = sim.add_generator(script(vec![]));
    let c = sim.add_generator(script(vec![]));
    assert_eq!(sim.schedule_at(c, 9), Ok(()));
    assert_eq!(sim.schedule_at(a, 9), Ok(()));
    assert_eq!(sim.schedule_at(b, 9), Ok(()));
    let (trace, _) = collect(&mut sim, 9);
    assert_eq!(
        trace,
        vec![(9, c, Step::Completed), (9, a, Step::Completed), (9, b, Step::Completed)]
    );
}

#[test]
fn activation_queues_behind_what_is_pending_for_the_instant() {
    let mut sim: Simulation<Actor> = Simulation::default();
    let sleeper = sim.add_generator(script(vec![]));
    let waker = sim.add_generator(script(vec![activate(sleeper)]));
    let other = sim.add_generator(script(vec![]));
    assert_eq!(sim.schedule_at(waker, 3), Ok(()));
    assert_eq!(sim.schedule_at(other, 3), Ok(()));
    let (trace, _) = collect(&mut sim, 100);
    assert_eq!(
        trace,
        vec![
            (3, waker, activate(sleeper)),
            (3, other, Step::Completed),
            (3, sleeper, Step::Completed),
        ]
    );
    // The waker yielded nothing after the activation: it is not resumed again.
    assert!(sim.is_live(waker));
    assert_eq!(sim.scheduled_time(waker), None);
}

#[test]
fn passivated_entity_waits_for_its_activation() {
    let mut sim: Simulation<Actor> = Simulation::default();
    let sleeper = sim.add_generator(script(vec![passivate(), hold()]));
    let waker = sim.add_generator(script(vec![
        Step::Suspended(Action::Hold(40)),
        activate(sleeper),
    ]));
    assert_eq!(sim.schedule_now(sleeper), Ok(()));
    assert_eq!(sim.schedule_at(waker, 2), Ok(()));
    let (trace, _) = collect(&mut sim, 41);
    assert_eq!(
        trace,
        vec![(0, sleeper, passivate()), (2, waker, Step::Suspended(Action::Hold(40)))]
    );
    assert_eq!(sim.scheduled_time(sleeper), None);
    let (trace, last) = collect(&mut sim, 42);
    assert_eq!(trace, vec![(42, waker, activate(sleeper)), (42, sleeper, hold())]);
    assert_eq!(last, Tick::Budget);
    assert_eq!(sim.scheduled_time(sleeper), Some(47));
}

#[test]
fn activated_entity_resumes_at_the_activating_instant() {
    let Pair { mut sim, a, b, flags, .. } = pair();
    let trigger = sim.add_generator(script(vec![activate(b)]));
    assert_eq!(sim.schedule_now(a), Ok(()));
    assert_eq!(sim.schedule_at(b, 6), Ok(()));
    assert_eq!(sim.schedule_at(trigger, 20), Ok(()));
    // A holds, finds B not passivated, and passivates; B passivates at once.
    let (trace, last) = collect(&mut sim, 19);
    assert_eq!(trace, vec![(0, a, hold()), (5, a, passivate()), (6, b, passivate())]);
    assert_eq!(last, Tick::Budget);
    assert_eq!(
        sim.state().get(flags),
        Some(&Passivated { entity_a: true, entity_b: true })
    );
    // The trigger activates B; B holds, finds A passivated and activates it.
    assert_eq!(
        sim.step(25),
        Tick::Ran(Event { time: 20, key: trigger, step: activate(b) })
    );
    assert_eq!(sim.step(25), Tick::Ran(Event { time: 20, key: b, step: hold() }));
    assert_eq!(sim.scheduled_time(a), None);
    assert_eq!(sim.step(25), Tick::Ran(Event { time: 25, key: b, step: activate(a) }));
    assert_eq!(sim.now(), 25);
    assert_eq!(sim.scheduled_time(a), Some(25));
    assert_eq!(sim.next_time(), Some(25));
    assert_eq!(sim.step(25), Tick::Ran(Event { time: 25, key: a, step: hold() }));
    assert_eq!(sim.scheduled_time(a), Some(30));
}

#[test]
fn budget_halt_leaves_the_event_just_beyond_the_limit() {
    let mut sim: Simulation<Actor> = Simulation::default();
    let near = sim.add_generator(script(vec![Step::Suspended(Action::Hold(60))]));
    let far = sim.add_generator(script(vec![]));
    assert_eq!(sim.schedule_now(near), Ok(()));
    assert_eq!(sim.schedule_at(far, 61), Ok(()));
    let report = sim.run_with_limit(60);
    assert_eq!(report.halt, Halt::Budget);
    assert_eq!(report.events, 2);
    assert_eq!(sim.now(), 60);
    assert_eq!(sim.scheduled_time(far), Some(61));
    assert_eq!(sim.pending(), 1);
    // Taken up again with more headroom, the run goes on from there.
    let report = sim.run_with_limit(1);
    assert_eq!(report.halt, Halt::Exhausted);
    assert_eq!(report.events, 1);
    assert_eq!(sim.now(), 61);
}

#[test]
fn run_without_entities_changes_nothing() {
    let mut sim: Simulation<Actor> = Simulation::new();
    let report = sim.run_with_limit(0);
    assert_eq!(report.halt, Halt::Exhausted);
    assert_eq!(report.events, 0);
    assert_eq!(sim.now(), 0);
    let report = sim.run_with_limit(u64::MAX);
    assert_eq!(report.halt, Halt::Exhausted);
    assert_eq!(sim.now(), 0);
    assert_eq!(sim.step(u64::MAX), Tick::Exhausted);
}

#[test]
fn step_cap_stops_an_endless_run() {
    let mut sim: Simulation<Actor> = Simulation::default();
    let k = sim.add_generator(script(vec![Step::Suspended(Action::Hold(0)); 50]));
    assert_eq!(sim.schedule_now(k), Ok(()));
    let report = sim.run_until(10, 7);
    assert_eq!(report.halt, Halt::StepCap);
    assert_eq!(report.events, 7);
    assert_eq!(sim.now(), 0);
    assert_eq!(sim.scheduled_time(k), Some(0));
    let report = sim.run_until(10, 0);
    assert_eq!(report.halt, Halt::StepCap);
    assert_eq!(report.events, 0);
}

#[test]
fn misuse_ends_the_run_with_the_offender() {
    let mut sim: Simulation<Actor> = Simulation::default();
    let holder = sim.add_generator(script(vec![Step::Suspended(Action::Hold(9))]));
    let meddler = sim.add_generator(script(vec![activate(holder)]));
    assert_eq!(sim.schedule_now(holder), Ok(()));
    assert_eq!(sim.schedule_at(meddler, 1), Ok(()));
    let report = sim.run_with_limit(100);
    let fault = SimError { kind: Misuse::AlreadyScheduled, key: holder };
    assert_eq!(
        report.halt,
        Halt::Fault(Event { time: 1, key: meddler, step: activate(holder) }, fault)
    );
    assert_eq!(report.events, 1);
    assert_eq!(sim.now(), 1);
    // The pending hold was not overridden.
    assert_eq!(sim.scheduled_time(holder), Some(9));
}

#[test]
fn failed_entity_ends_the_run() {
    let mut sim: Simulation<Actor> = Simulation::default();
    let flags = sim.state_mut().insert(Passivated::new());
    let lost = sim.add_generator(Actor::Entity(entity_b(Key::clone(&pair().a), flags)));
    assert_eq!(sim.state_mut().remove(flags), Some(Passivated::new()));
    assert_eq!(sim.schedule_at(lost, 3), Ok(()));
    let report = sim.run_with_limit(10);
    assert_eq!(
        report.halt,
        Halt::Fault(
            Event { time: 3, key: lost, step: Step::Failed },
            SimError { kind: Misuse::EntityFailed, key: lost }
        )
    );
    assert_eq!(report.events, 0);
    assert_eq!(sim.now(), 3);
}

#[test]
fn entity_a_fails_without_the_handle_of_b() {
    let mut store = State::new();
    let b_slot: StateKey<Option<Key>> = store.insert(None);
    let flags = store.insert(Passivated::new());
    let mut a = entity_a(b_slot, flags);
    assert!(a.is_stuck(&store));
    assert_eq!(a.resume(&mut store), Step::Failed);
    assert_eq!(a.phase, Phase::Start);
    assert_eq!(store.get(b_slot), Some(&None));
}

#[test]
fn entity_a_fails_on_a_slot_that_was_removed() {
    let Pair { mut sim, a, b, flags, b_slot } = pair();
    let store = sim.state_mut();
    let mut first = entity_a(b_slot, flags);
    assert!(!first.is_stuck(store));
    assert_eq!(first.resume(store), hold());
    assert_eq!(first.peer, Some(b));
    assert_eq!(store.get(b_slot), None);
    // A later value of the same type does not come back under the old key.
    let later = store.insert(Some(a));
    assert_eq!(store.get(b_slot), None);
    assert_eq!(store.get(later), Some(&Some(a)));
    let mut second = entity_a(b_slot, flags);
    assert!(second.is_stuck(store));
    assert_eq!(second.resume(store), Step::Failed);
    assert_eq!(second.phase, Phase::Start);
    assert_eq!(second.peer, None);
    assert_eq!(store.get(later), Some(&Some(a)));
}

#[test]
fn entity_b_fails_without_the_flags() {
    let Pair { mut sim, a, flags, .. } = pair();
    let store = sim.state_mut();
    let mut eb = entity_b(a, flags);
    assert_eq!(eb.resume(store), passivate());
    assert_eq!(store.remove(flags), Some(Passivated { entity_a: false, entity_b: true }));
    assert!(eb.is_stuck(store));
    assert_eq!(eb.resume(store), Step::Failed);
    assert_eq!(eb.phase, Phase::Passive);
    assert_eq!(store.slots(), 2);
}

#[test]
fn entity_b_alone_passivates_for_good() {
    let Pair { mut sim, a, b, flags, .. } = pair();
    assert_eq!(sim.schedule_now(b), Ok(()));
    let report = sim.run_with_limit(60);
    assert_eq!(report.halt, Halt::Exhausted);
    assert_eq!(report.events, 1);
    assert_eq!(sim.now(), 0);
    assert_eq!(sim.pending(), 0);
    assert_eq!(sim.scheduled_time(b), None);
    assert_eq!(
        sim.state().get(flags),
        Some(&Passivated { entity_a: false, entity_b: true })
    );
    assert!(sim.is_live(a) && sim.is_live(b));
}

#[test]
fn entity_a_alone_under_a_short_limit() {
    let Pair { mut sim, a, flags, .. } = pair();
    assert_eq!(sim.schedule_now(a), Ok(()));
    let report = sim.run_with_limit(4);
    assert_eq!(report.halt, Halt::Budget);
    assert_eq!(report.events, 1);
    assert_eq!(sim.now(), 0);
    assert_eq!(sim.scheduled_time(a), Some(5));
    assert_eq!(sim.state().get(flags), Some(&Passivated::new()));
    assert_eq!(sim.step(60), Tick::Ran(Event { time: 5, key: a, step: passivate() }));
    assert_eq!(sim.now(), 5);
    assert_eq!(
        sim.state().get(flags),
        Some(&Passivated { entity_a: true, entity_b: false })
    );
}

#[test]
fn third_process_wakes_b_which_wakes_a() {
    let Pair { mut sim, a, b, .. } = pair();
    let c = sim.add_generator(script(vec![activate(b)]));
    assert_eq!(sim.schedule_now(b), Ok(()));
    assert_eq!(sim.schedule_now(a), Ok(()));
    assert_eq!(sim.schedule_at(c, 1), Ok(()));
    let (trace, last) = collect(&mut sim, 6);
    assert_eq!(
        trace,
        vec![
            (0, b, passivate()),
            (0, a, hold()),
            (1, c, activate(b)),
            (1, b, hold()),
            (5, a, passivate()),
            (6, b, activate(a)),
            (6, a, hold()),
        ]
    );
    assert_eq!(last, Tick::Budget);
    assert_eq!(sim.now(), 6);
    assert_eq!(sim.scheduled_time(a), Some(11));
}

#[test]
fn entity_steps_follow_the_flags() {
    let Pair { mut sim, a, b, flags, .. } = pair();
    let mut eb = entity_b(a, flags);
    let store = sim.state_mut();
    assert_eq!(eb.resume(store), passivate());
    assert_eq!(store.get(flags), Some(&Passivated { entity_a: false, entity_b: true }));
    assert_eq!(eb.resume(store), hold());
    assert_eq!(store.get(flags), Some(&Passivated { entity_a: false, entity_b: false }));
    store.get_mut(flags).unwrap().entity_a = true;
    assert_eq!(eb.resume(store), activate(a));
    assert_eq!(eb.phase, Phase::Activating);
    assert_eq!(eb.resume(store), passivate());
    assert_eq!(store.get(flags), Some(&Passivated { entity_a: true, entity_b: true }));
    assert_eq!(eb.peer, Some(a));
    assert_eq!(eb.role, Role::B);
    assert!(a != b);
}

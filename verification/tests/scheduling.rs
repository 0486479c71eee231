use simkernel::effect::{Action, Halt, Misuse, SimError, Step, Tick};
use simkernel::entities::Script;
use simkernel::key::Key;
use simkernel::simulation::Simulation;

fn trace(sim: &mut Simulation<Script>, limit: u64) -> Vec<(u64, Key, Step)> {
    let mut out = Vec::new();
    loop {
        match sim.step(limit) {
            Tick::Ran(ev) => out.push((ev.time, ev.key, ev.step)),
            Tick::Faulted(ev, _) => {
                out.push((ev.time, ev.key, ev.step));
                return out;
            }
            Tick::Exhausted | Tick::Budget => return out,
        }
    }
}

#[test]
fn empty_simulation_halts_at_once() {
    let mut sim: Simulation<Script> = Simulation::default();
    let report = sim.run_with_limit(60);
    assert_eq!(report.halt, Halt::Exhausted);
    assert_eq!(report.events, 0);
    assert_eq!(sim.now(), 0);
    assert_eq!(sim.pending(), 0);
}

#[test]
fn equal_times_resume_in_scheduling_order() {
    let mut sim: Simulation<Script> = Simulation::default();
    let a = sim.add_generator(Script::new(vec![]));
    let b = sim.add_generator(Script::new(vec![]));
    assert_eq!(sim.schedule_at(b, 7), Ok(()));
    assert_eq!(sim.schedule_at(a, 7), Ok(()));
    let t = trace(&mut sim, 100);
    assert_eq!(t, vec![(7, b, Step::Completed), (7, a, Step::Completed)]);
}

#[test]
fn budget_halt_keeps_the_late_entry() {
    let mut sim: Simulation<Script> = Simulation::default();
    let a = sim.add_generator(Script::new(vec![Step::Suspended(Action::Hold(3))]));
    let b = sim.add_generator(Script::new(vec![]));
    assert_eq!(sim.schedule_now(a), Ok(()));
    assert_eq!(sim.schedule_at(b, 11), Ok(()));
    let report = sim.run_with_limit(10);
    assert_eq!(report.halt, Halt::Budget);
    assert_eq!(report.events, 2);
    assert_eq!(sim.now(), 3);
    assert_eq!(sim.scheduled_time(b), Some(11));
    assert_eq!(sim.pending(), 1);
    let report = sim.run_with_limit(8);
    assert_eq!(report.halt, Halt::Exhausted);
    assert_eq!(report.events, 1);
    assert_eq!(sim.now(), 11);
}

#[test]
fn double_scheduling_is_refused() {
    let mut sim: Simulation<Script> = Simulation::default();
    let a = sim.add_generator(Script::new(vec![]));
    assert_eq!(sim.schedule_now(a), Ok(()));
    assert_eq!(
        sim.schedule_at(a, 4),
        Err(SimError { kind: Misuse::AlreadyScheduled, key: a })
    );
    assert_eq!(sim.pending(), 1);
}

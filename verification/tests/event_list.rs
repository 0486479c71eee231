use simkernel::effect::{Action, Misuse, SimError, Step};
use simkernel::fel::Fel;
use simkernel::key::Key;
use simkernel::entities::{entity_b, Actor, Script};
use simkernel::passivated::Passivated;
use simkernel::registry::Registry;
use simkernel::scheduler::Scheduler;
use simkernel::state::State;

fn keys(n: usize) -> (Scheduler, Vec<Key>) {
    let mut s = Scheduler::new();
    let mut ks = Vec::new();
    for _ in 0..n {
        ks.push(s.register());
    }
    (s, ks)
}

#[test]
fn fel_pops_by_time_then_by_insertion() {
    let (_, k) = keys(5);
    let mut fel = Fel::new();
    assert!(fel.is_empty());
    assert_eq!(fel.insert(k[0], 30), Some(0));
    assert_eq!(fel.insert(k[1], 10), Some(1));
    assert_eq!(fel.insert(k[2], 20), Some(2));
    assert_eq!(fel.insert(k[3], 10), Some(3));
    assert_eq!(fel.insert(k[4], 0), Some(4));
    assert_eq!(fel.len(), 5);
    assert_eq!(fel.peek_earliest(), Some((0, k[4])));
    assert_eq!(fel.time_of(k[2]), Some(20));
    assert_eq!(fel.pop_earliest(), Some((0, k[4])));
    assert_eq!(fel.pop_earliest(), Some((10, k[1])));
    assert_eq!(fel.pop_earliest(), Some((10, k[3])));
    assert_eq!(fel.pop_earliest(), Some((20, k[2])));
    assert_eq!(fel.pop_earliest(), Some((30, k[0])));
    assert_eq!(fel.pop_earliest(), None);
    assert_eq!(fel.peek_earliest(), None);
    assert_eq!(fel.time_of(k[2]), None);
}

#[test]
fn fel_keeps_insertion_numbers_rising() {
    let (_, k) = keys(2);
    let mut fel = Fel::new();
    assert_eq!(fel.insert(k[0], 5), Some(0));
    assert_eq!(fel.pop_earliest(), Some((5, k[0])));
    assert_eq!(fel.insert(k[1], 5), Some(1));
    assert_eq!(fel.insert(k[0], 5), Some(2));
    assert_eq!(fel.pop_earliest(), Some((5, k[1])));
    assert_eq!(fel.pop_earliest(), Some((5, k[0])));
}

#[test]
fn many_entries_come_out_sorted() {
    let (_, k) = keys(200);
    let mut fel = Fel::new();
    for i in 0..200usize {
        let t = ((i * 37) % 50) as u64;
        assert!(fel.insert(k[i], t).is_some());
    }
    let mut last: Option<(u64, usize)> = None;
    let mut n = 0;
    while let Some((t, key)) = fel.pop_earliest() {
        if let Some((lt, li)) = last {
            assert!(lt < t || (lt == t && li < key.index()));
        }
        assert_eq!(t, ((key.index() * 37) % 50) as u64);
        last = Some((t, key.index()));
        n += 1;
    }
    assert_eq!(n, 200);
}

#[test]
fn scheduler_refuses_unknown_and_past() {
    let (mut s, k) = keys(1);
    let (_, others) = keys(3);
    let stranger = others[2];
    assert_eq!(
        s.schedule_at(stranger, 1),
        Err(SimError { kind: Misuse::UnknownHandle, key: stranger })
    );
    assert_eq!(s.schedule_at(k[0], 4), Ok(()));
    assert_eq!(s.pop_earliest(), Some((4, k[0])));
    assert_eq!(s.now(), 4);
    assert_eq!(
        s.schedule_at(k[0], 3),
        Err(SimError { kind: Misuse::PastTimestamp, key: k[0] })
    );
    assert_eq!(s.schedule_at(k[0], 4), Ok(()));
    assert!(s.is_scheduled(k[0]));
    assert_eq!(s.scheduled_time(k[0]), Some(4));
    assert_eq!(s.pending(), 1);
    assert_eq!(s.count(), 1);
}

#[test]
fn scheduler_applies_each_outcome() {
    let (mut s, k) = keys(2);
    let (a, b) = (k[0], k[1]);
    assert_eq!(s.schedule_at(a, 2), Ok(()));
    assert_eq!(s.pop_due(1), None);
    assert_eq!(s.now(), 0);
    assert_eq!(s.pop_due(2), Some((2, a)));
    assert_eq!(s.apply(a, Step::Suspended(Action::Hold(5))), Ok(()));
    assert_eq!(s.scheduled_time(a), Some(7));
    assert_eq!(s.apply(a, Step::Suspended(Action::ActivateOne(b))), Ok(()));
    assert_eq!(s.scheduled_time(b), Some(2));
    assert_eq!(s.next_time(), Some(2));
    assert_eq!(s.pop_earliest(), Some((2, b)));
    assert_eq!(s.apply(b, Step::Suspended(Action::Passivate)), Ok(()));
    assert!(!s.is_scheduled(b));
    assert!(s.is_live(b));
    assert_eq!(s.apply(b, Step::Completed), Ok(()));
    assert!(!s.is_live(b));
    assert_eq!(s.pop_earliest(), Some((7, a)));
    assert_eq!(s.pop_earliest(), None);
    assert_eq!(s.next_time(), None);
}

#[test]
fn scheduler_reports_each_misuse() {
    let (mut s, k) = keys(2);
    let (a, b) = (k[0], k[1]);
    assert_eq!(s.apply(b, Step::Completed), Ok(()));
    assert_eq!(
        s.apply(b, Step::Suspended(Action::Passivate)),
        Err(SimError { kind: Misuse::Completed, key: b })
    );
    assert_eq!(s.schedule_now(b), Err(SimError { kind: Misuse::Completed, key: b }));
    assert_eq!(
        s.apply(a, Step::Suspended(Action::ActivateOne(b))),
        Err(SimError { kind: Misuse::Completed, key: b })
    );
    assert_eq!(s.schedule_at(a, 10), Ok(()));
    assert_eq!(
        s.apply(a, Step::Suspended(Action::Hold(1))),
        Err(SimError { kind: Misuse::AlreadyScheduled, key: a })
    );
    assert_eq!(
        s.apply(a, Step::Suspended(Action::Passivate)),
        Err(SimError { kind: Misuse::AlreadyScheduled, key: a })
    );
    assert_eq!(
        s.apply(a, Step::Completed),
        Err(SimError { kind: Misuse::AlreadyScheduled, key: a })
    );
    assert_eq!(s.pop_earliest(), Some((10, a)));
    assert_eq!(
        s.apply(a, Step::Suspended(Action::Hold(u64::MAX))),
        Err(SimError { kind: Misuse::TimeOverflow, key: a })
    );
    assert_eq!(s.apply(a, Step::Failed), Err(SimError { kind: Misuse::EntityFailed, key: a }));
    assert_eq!(s.apply(a, Step::Suspended(Action::Hold(u64::MAX - 10))), Ok(()));
    assert_eq!(s.scheduled_time(a), Some(u64::MAX));
    assert_eq!(s.pending(), 1);
}

#[test]
fn registry_resumes_and_drops() {
    let mut store = State::new();
    let flags = store.insert(Passivated::new());
    let mut reg: Registry<Actor> = Registry::new();
    let a = reg.add(Actor::Script(Script::new(vec![Step::Suspended(Action::Hold(1))])));
    let b = reg.add(Actor::Script(Script::new(vec![])));
    let c = reg.add(Actor::Entity(entity_b(a, flags)));
    assert_eq!(reg.len(), 3);
    assert_eq!(reg.resume(a, &mut store), Ok(Step::Suspended(Action::Hold(1))));
    assert_eq!(reg.resume(b, &mut store), Ok(Step::Completed));
    assert!(reg.is_live(a));
    assert!(!reg.is_live(b));
    assert_eq!(
        reg.resume(b, &mut store),
        Err(SimError { kind: Misuse::Completed, key: b })
    );
    assert_eq!(reg.resume(a, &mut store), Ok(Step::Completed));
    assert_eq!(
        reg.resume(a, &mut store),
        Err(SimError { kind: Misuse::Completed, key: a })
    );
    // The store is lent to the process that is resumed: entity B sets its flag.
    assert_eq!(reg.resume(c, &mut store), Ok(Step::Suspended(Action::Passivate)));
    assert_eq!(store.get(flags), Some(&Passivated { entity_a: false, entity_b: true }));
    assert_eq!(reg.resume(c, &mut store), Ok(Step::Suspended(Action::Hold(5))));
    assert_eq!(store.get(flags), Some(&Passivated { entity_a: false, entity_b: false }));
    let (_, others) = keys(4);
    assert_eq!(
        reg.resume(others[3], &mut store),
        Err(SimError { kind: Misuse::UnknownHandle, key: others[3] })
    );
    assert_eq!(store.slots(), 1);
}

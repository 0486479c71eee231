use simkernel::entities::Script;
use simkernel::key::Key;
use simkernel::passivated::Passivated;
use simkernel::simulation::Simulation;
use simkernel::state::{State, StateKey};

#[test]
fn insert_then_get_returns_the_value() {
    let mut s = State::new();
    let n = s.insert(7u64);
    let f = s.insert(true);
    let p = s.insert(Passivated { entity_a: false, entity_b: true });
    assert_eq!(s.get(n), Some(&7u64));
    assert_eq!(s.get(f), Some(&true));
    assert_eq!(s.get(p), Some(&Passivated { entity_a: false, entity_b: true }));
    assert_eq!(s.slots(), 3);
}

#[test]
fn get_mut_writes_in_place() {
    let mut s = State::new();
    let n = s.insert(1u64);
    let p = s.insert(Passivated::new());
    *s.get_mut(n).unwrap() = 41;
    s.get_mut(p).unwrap().entity_a = true;
    *s.get_mut(n).unwrap() += 1;
    assert_eq!(s.get(n), Some(&42u64));
    assert_eq!(s.get(p), Some(&Passivated { entity_a: true, entity_b: false }));
}

#[test]
fn remove_returns_the_value_once() {
    let mut s = State::new();
    let n = s.insert(9u64);
    assert!(s.contains(n));
    assert_eq!(s.remove(n), Some(9));
    assert_eq!(s.remove(n), None);
    assert_eq!(s.get(n), None);
    assert!(s.get_mut(n).is_none());
    assert!(!s.contains(n));
}

#[test]
fn removed_key_never_reaches_later_values() {
    let mut s = State::new();
    let old = s.insert(1u64);
    assert_eq!(s.remove(old), Some(1));
    let newer = s.insert(2u64);
    let newest = s.insert(3u64);
    assert_eq!(s.get(old), None);
    assert_eq!(s.remove(old), None);
    assert_eq!(s.get(newer), Some(&2));
    assert_eq!(s.get(newest), Some(&3));
}

#[test]
fn keys_stay_valid_across_unrelated_changes() {
    let mut s = State::new();
    let a = s.insert(10u64);
    let b = s.insert(20u64);
    let c = s.insert(false);
    assert_eq!(s.remove(b), Some(20));
    let d = s.insert(30u64);
    *s.get_mut(c).unwrap() = true;
    assert_eq!(s.get(a), Some(&10));
    assert_eq!(s.get(c), Some(&true));
    assert_eq!(s.get(d), Some(&30));
}

#[test]
fn key_of_another_store_does_not_read_another_type() {
    let mut one = State::new();
    let flag = one.insert(true);
    let mut other = State::new();
    let count = other.insert(5u64);
    // Slot 0 of `one` holds a flag, not a count; slot 0 of `other` a count.
    assert_eq!(one.get(count), None);
    assert_eq!(other.get(flag), None);
    assert_eq!(one.remove(count), None);
    assert_eq!(one.get(flag), Some(&true));
    let empty = State::default();
    assert_eq!(empty.get(flag), None);
    assert_eq!(empty.slots(), 0);
}

#[test]
fn handles_are_stored_and_taken_out() {
    let mut sim: Simulation<Script> = Simulation::default();
    let slot: StateKey<Option<Key>> = sim.state_mut().insert(None);
    let k = sim.add_generator(Script::new(vec![]));
    *sim.state_mut().get_mut(slot).unwrap() = Some(k);
    assert_eq!(sim.state().get(slot), Some(&Some(k)));
    assert_eq!(sim.state_mut().remove(slot), Some(Some(k)));
    assert_eq!(sim.state().get(slot), None);
    assert_eq!(k.index(), 0);
}

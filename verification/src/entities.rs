//! Processes that come with the kernel: two cooperating entities that hold,
//! passivate and activate each other, each keeping a flag in the shared store
//! that tells the other whether it is passivated; a process that plays back
//! a list of outcomes; and the sum of the two kinds, for simulations that
//! hold both.

use vstd::prelude::*;
use crate::key::Key;
use crate::passivated::Passivated;
use crate::state::{State, StateKey, Value, Stored, reach};
use crate::effect::{Action, Step};
use crate::registry::Process;

verus! {

/// The simulated time for which an entity holds before it looks at the
/// other's flag.
pub const HOLD: u64 = 5;

/// Which of the two entities a process is.
#[derive(Clone, Copy, Debug, PartialEq, Eq, Structural)]
pub enum Role {
    A,
    B,
}

/// The suspension point at which an entity stands.
#[derive(Clone, Copy, Debug, PartialEq, Eq, Structural)]
pub enum Phase {
    /// Not yet started.
    Start,
    /// Holding.
    Holding,
    /// Has just activated the other entity.
    Activating,
    /// Passivated.
    Passive,
}

/// One of the two entities, suspended at `phase`.
pub struct Entity {
    pub role: Role,
    pub phase: Phase,
    /// The handle of the other entity, once it is known.
    pub peer: Option<Key>,
    /// Where entity A finds the handle of entity B when it starts.
    pub peer_slot: Option<StateKey<Option<Key>>>,
    /// Where the flags of the two entities are kept.
    pub flags: StateKey<Passivated>,
}

/// The flag of the entity `role` in `p`.
pub open spec fn own_flag(p: Passivated, role: Role) -> bool {
    match role {
        Role::A => p.entity_a,
        Role::B => p.entity_b,
    }
}

/// The flag of the entity other than `role` in `p`.
pub open spec fn other_flag(p: Passivated, role: Role) -> bool {
    match role {
        Role::A => p.entity_b,
        Role::B => p.entity_a,
    }
}

/// `p` with the flag of the entity `role` set to `value`.
pub open spec fn with_own_flag(p: Passivated, role: Role, value: bool) -> Passivated {
    match role {
        Role::A => Passivated { entity_a: value, ..p },
        Role::B => Passivated { entity_b: value, ..p },
    }
}

impl Entity {
    /// The slots with the entity's own flag set to `value`; unchanged where
    /// the flags are missing.
    pub open spec fn marked(self, slots: Seq<Option<Value>>, value: bool) -> Seq<Option<Value>> {
        match reach(slots, self.flags) {
            Some(p) => slots.update(
                self.flags.slot() as int,
                Some(Value::Flags(with_own_flag(p, self.role, value))),
            ),
            None => slots,
        }
    }

    /// The handle of entity B as entity A finds it in the store when it
    /// starts.
    pub open spec fn found_peer(self, slots: Seq<Option<Value>>) -> Option<Key> {
        match self.peer_slot {
            Some(slot) => match reach(slots, slot) {
                Some(Some(k)) => Some(k),
                _ => None,
            },
            None => None,
        }
    }

    /// Whether the entity cannot go on from where it stands: what it needs
    /// from the store, or the handle of the other entity, is missing.
    pub open spec fn stuck(self, slots: Seq<Option<Value>>) -> bool {
        match (self.phase, self.role) {
            (Phase::Start, Role::A) => self.found_peer(slots).is_none(),
            (Phase::Holding, _) => reach(slots, self.flags).is_none() || (other_flag(
                reach(slots, self.flags).unwrap(),
                self.role,
            ) && self.peer.is_none()),
            _ => reach(slots, self.flags).is_none(),
        }
    }

    /// What the next step yields, for an entity that is not stuck.
    pub open spec fn outcome(self, slots: Seq<Option<Value>>) -> Step {
        match (self.phase, self.role) {
            (Phase::Start, Role::A) => Step::Suspended(Action::Hold(HOLD)),
            (Phase::Start, Role::B) => Step::Suspended(Action::Passivate),
            (Phase::Holding, _) => if other_flag(reach(slots, self.flags).unwrap(), self.role) {
                Step::Suspended(Action::ActivateOne(self.peer.unwrap()))
            } else {
                Step::Suspended(Action::Passivate)
            },
            (Phase::Activating, _) => Step::Suspended(Action::Passivate),
            (Phase::Passive, _) => Step::Suspended(Action::Hold(HOLD)),
        }
    }

    /// The entity after its next step, for an entity that is not stuck.
    pub open spec fn successor(self, slots: Seq<Option<Value>>) -> Entity {
        match (self.phase, self.role) {
            (Phase::Start, Role::A) => Entity {
                phase: Phase::Holding,
                peer: self.found_peer(slots),
                ..self
            },
            (Phase::Start, Role::B) => Entity { phase: Phase::Passive, ..self },
            (Phase::Holding, _) => if other_flag(reach(slots, self.flags).unwrap(), self.role) {
                Entity { phase: Phase::Activating, ..self }
            } else {
                Entity { phase: Phase::Passive, ..self }
            },
            (Phase::Activating, _) => Entity { phase: Phase::Passive, ..self },
            (Phase::Passive, _) => Entity { phase: Phase::Holding, ..self },
        }
    }

    /// The slots after the entity's next step, for an entity that is not
    /// stuck.
    pub open spec fn store_after(self, slots: Seq<Option<Value>>) -> Seq<Option<Value>> {
        match (self.phase, self.role) {
            (Phase::Start, Role::A) => slots.update(self.peer_slot.unwrap().slot() as int, None),
            (Phase::Start, Role::B) => self.marked(slots, true),
            (Phase::Holding, _) => if other_flag(reach(slots, self.flags).unwrap(), self.role) {
                slots
            } else {
                self.marked(slots, true)
            },
            (Phase::Activating, _) => self.marked(slots, true),
            (Phase::Passive, _) => self.marked(slots, false),
        }
    }

    /// Sets the entity's own flag in the store to `value`. Returns whether
    /// the flags were there.
    fn mark(&self, store: &mut State, value: bool) -> (ok: bool)
        ensures
            ok == reach(old(store)@, self.flags).is_some(),
            final(store)@ == self.marked(old(store)@, value),
    {
        match store.get_mut(self.flags) {
            Some(p) => {
                match self.role {
                    Role::A => {
                        p.entity_a = value;
                    },
                    Role::B => {
                        p.entity_b = value;
                    },
                }
                true
            },
            None => false,
        }
    }

    /// Whether the other entity is passivated, if the flags are there.
    fn peer_passivated(&self, store: &State) -> (r: Option<bool>)
        ensures
            r == (match reach(store@, self.flags) {
                Some(p) => Some(other_flag(p, self.role)),
                None => None,
            }),
    {
        match store.get(self.flags) {
            Some(p) => Some(
                match self.role {
                    Role::A => p.entity_b,
                    Role::B => p.entity_a,
                },
            ),
            None => None,
        }
    }

    /// Whether the entity cannot go on from where it stands.
    pub fn is_stuck(&self, store: &State) -> (b: bool)
        ensures
            b == self.stuck(store@),
    {
        match self.phase {
            Phase::Start => match self.role {
                Role::A => match self.peer_slot {
                    Some(slot) => match store.get(slot) {
                        Some(Some(_)) => false,
                        _ => true,
                    },
                    None => true,
                },
                Role::B => !store.contains(self.flags),
            },
            Phase::Holding => match self.peer_passivated(store) {
                None => true,
                Some(passivated) => passivated && self.peer.is_none(),
            },
            _ => !store.contains(self.flags),
        }
    }

    /// Runs the entity to its next suspension point. The entity must find
    /// what it needs: an entity that is stuck has no next step.
    pub fn advance(&mut self, store: &mut State) -> (step: Step)
        requires
            !old(self).stuck(old(store)@),
        ensures
            step == old(self).outcome(old(store)@),
            *final(self) == old(self).successor(old(store)@),
            final(store)@ == old(self).store_after(old(store)@),
    {
        match self.phase {
            Phase::Start => match self.role {
                Role::A => {
                    let slot = self.peer_slot.unwrap();
                    let found: Option<Option<Key>> = store.remove(slot);
                    self.peer = found.unwrap();
                    self.phase = Phase::Holding;
                    Step::Suspended(Action::Hold(HOLD))
                },
                Role::B => {
                    let _ = self.mark(store, true);
                    self.phase = Phase::Passive;
                    Step::Suspended(Action::Passivate)
                },
            },
            Phase::Holding => {
                let passivated: bool = self.peer_passivated(store).unwrap();
                if passivated {
                    self.phase = Phase::Activating;
                    Step::Suspended(Action::ActivateOne(self.peer.unwrap()))
                } else {
                    let _ = self.mark(store, true);
                    self.phase = Phase::Passive;
                    Step::Suspended(Action::Passivate)
                }
            },
            Phase::Activating => {
                let _ = self.mark(store, true);
                self.phase = Phase::Passive;
                Step::Suspended(Action::Passivate)
            },
            Phase::Passive => {
                let _ = self.mark(store, false);
                self.phase = Phase::Holding;
                Step::Suspended(Action::Hold(HOLD))
            },
        }
    }
}

impl Process for Entity {
    /// An entity that is stuck fails; any other yields what its next step
    /// yields.
    open spec fn yields(self, slots: Seq<Option<Value>>) -> Step {
        if self.stuck(slots) {
            Step::Failed
        } else {
            self.outcome(slots)
        }
    }

    /// An entity that is stuck stays where it is.
    open spec fn resumed(self, slots: Seq<Option<Value>>) -> Entity {
        if self.stuck(slots) {
            self
        } else {
            self.successor(slots)
        }
    }

    /// An entity that is stuck leaves the store untouched.
    open spec fn leaves(self, slots: Seq<Option<Value>>) -> Seq<Option<Value>> {
        if self.stuck(slots) {
            slots
        } else {
            self.store_after(slots)
        }
    }

    fn resume(&mut self, store: &mut State) -> (step: Step) {
        if self.is_stuck(store) {
            Step::Failed
        } else {
            self.advance(store)
        }
    }
}

/// A process that yields the outcomes of a list, one at each resumption, and
/// runs to its end once the list is used up. It never touches the store.
pub struct Script {
    pub steps: Vec<Step>,
    /// How many of the outcomes were already yielded.
    pub at: usize,
}

impl Script {
    /// The process that will yield `steps` from the first one on.
    pub fn new(steps: Vec<Step>) -> (s: Script)
        ensures
            s.steps == steps,
            s.at == 0,
    {
        Script { steps, at: 0 }
    }
}

impl Process for Script {
    open spec fn yields(self, slots: Seq<Option<Value>>) -> Step {
        if self.at < self.steps@.len() {
            self.steps@[self.at as int]
        } else {
            Step::Completed
        }
    }

    open spec fn resumed(self, slots: Seq<Option<Value>>) -> Script {
        if self.at < self.steps@.len() {
            Script { at: (self.at + 1) as usize, ..self }
        } else {
            self
        }
    }

    open spec fn leaves(self, slots: Seq<Option<Value>>) -> Seq<Option<Value>> {
        slots
    }

    fn resume(&mut self, store: &mut State) -> (step: Step) {
        if self.at < self.steps.len() {
            let step: Step = self.steps[self.at];
            self.at = self.at + 1;
            step
        } else {
            Step::Completed
        }
    }
}

/// Either one of the two entities or a scripted process.
pub enum Actor {
    Entity(Entity),
    Script(Script),
}

impl Process for Actor {
    open spec fn yields(self, slots: Seq<Option<Value>>) -> Step {
        match self {
            Actor::Entity(e) => e.yields(slots),
            Actor::Script(s) => s.yields(slots),
        }
    }

    open spec fn resumed(self, slots: Seq<Option<Value>>) -> Actor {
        match self {
            Actor::Entity(e) => Actor::Entity(e.resumed(slots)),
            Actor::Script(s) => Actor::Script(s.resumed(slots)),
        }
    }

    open spec fn leaves(self, slots: Seq<Option<Value>>) -> Seq<Option<Value>> {
        match self {
            Actor::Entity(e) => e.leaves(slots),
            Actor::Script(s) => s.leaves(slots),
        }
    }

    fn resume(&mut self, store: &mut State) -> (step: Step) {
        match self {
            Actor::Entity(e) => e.resume(store),
            Actor::Script(s) => s.resume(store),
        }
    }
}

/// Entity A, not yet started. When it starts it takes the handle of entity B
/// out of the store, where `entity_b_key` reaches it. Then it holds, activates
/// entity B if B is passivated, and passivates, over and over.
pub fn entity_a(entity_b_key: StateKey<Option<Key>>, entity_states_key: StateKey<Passivated>) -> (e:
    Entity)
    ensures
        e == (Entity {
            role: Role::A,
            phase: Phase::Start,
            peer: None,
            peer_slot: Some(entity_b_key),
            flags: entity_states_key,
        }),
{
    Entity {
        role: Role::A,
        phase: Phase::Start,
        peer: None,
        peer_slot: Some(entity_b_key),
        flags: entity_states_key,
    }
}

/// Entity B, not yet started. It passivates at once; once activated it holds,
/// activates entity A if A is passivated, and passivates, over and over.
pub fn entity_b(entity_a_key: Key, entity_states_key: StateKey<Passivated>) -> (e: Entity)
    ensures
        e == (Entity {
            role: Role::B,
            phase: Phase::Start,
            peer: Some(entity_a_key),
            peer_slot: None,
            flags: entity_states_key,
        }),
{
    Entity {
        role: Role::B,
        phase: Phase::Start,
        peer: Some(entity_a_key),
        peer_slot: None,
        flags: entity_states_key,
    }
}

} // verus!

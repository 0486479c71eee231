//! The registry: the suspended processes, each under the handle that it was
//! registered with.

use vstd::prelude::*;
use crate::key::Key;
use crate::state::{State, Value};
use crate::effect::{Step, Misuse, SimError};

verus! {

broadcast use Key::lemma_id_index;

/// A resumable process. Each call of `resume` runs the process from where it
/// stopped to its next suspension point or to its end. The store is lent to
/// the process for that one step only.
///
/// What a step does is a function of the process and of the store as it
/// finds it: what it yields, what the process is afterwards, and what it
/// leaves in the store.
pub trait Process: Sized {
    /// What the next resumption yields, with the store holding `slots`.
    spec fn yields(self, slots: Seq<Option<Value>>) -> Step;

    /// The process after its next resumption.
    spec fn resumed(self, slots: Seq<Option<Value>>) -> Self;

    /// What the store holds after the next resumption.
    spec fn leaves(self, slots: Seq<Option<Value>>) -> Seq<Option<Value>>;

    fn resume(&mut self, store: &mut State) -> (step: Step)
        ensures
            step == old(self).yields(old(store)@),
            *final(self) == old(self).resumed(old(store)@),
            final(store)@ == old(self).leaves(old(store)@),
    ;
}

pub struct Registry<P: Process> {
    slots: Vec<Option<P>>,
}

impl<P: Process> View for Registry<P> {
    type V = Seq<Option<P>>;

    /// The registered processes by registration number: `None` where the
    /// process has run to its end.
    closed spec fn view(&self) -> Seq<Option<P>> {
        self.slots@
    }
}

impl<P: Process> Registry<P> {
    /// The handle was given out here and its process has not ended.
    pub open spec fn live(&self, key: Key) -> bool {
        key.id() < self@.len() && self@[key.id() as int].is_some()
    }

    /// An empty registry.
    pub fn new() -> (r: Registry<P>)
        ensures
            r@ == Seq::<Option<P>>::empty(),
    {
        Registry { slots: Vec::new() }
    }

    /// The number of processes registered so far.
    pub fn len(&self) -> (n: usize)
        ensures
            n == self@.len(),
    {
        self.slots.len()
    }

    /// Whether `key` was given out here and its process has not ended.
    pub fn is_live(&self, key: Key) -> (b: bool)
        ensures
            b == self.live(key),
    {
        key.index < self.slots.len() && self.slots[key.index].is_some()
    }

    /// Registers a process that has not started and returns its handle.
    pub fn add(&mut self, process: P) -> (key: Key)
        ensures
            key.id() == old(self)@.len(),
            final(self)@ == old(self)@.push(Some(process)),
    {
        let index: usize = self.slots.len();
        self.slots.push(Some(process));
        Key { index }
    }

    /// Resumes the process of `key` for one step, with the store as it
    /// stands, and returns what the process yields. The process is kept as
    /// the step left it, or dropped if it ran to its end. No other process is
    /// touched.
    /// For a handle that is unknown or whose process has ended, nothing is
    /// resumed and the misuse is returned.
    pub fn resume(&mut self, key: Key, store: &mut State) -> (r: Result<Step, SimError>)
        ensures
            final(self)@.len() == old(self)@.len(),
            forall|i: int|
                0 <= i < old(self)@.len() && i != key.id() ==> final(self)@[i] == old(self)@[i],
            key.id() >= old(self)@.len() ==> r == Err::<Step, SimError>(
                SimError { kind: Misuse::UnknownHandle, key },
            ),
            key.id() < old(self)@.len() && old(self)@[key.id() as int].is_none() ==> r == Err::<
                Step,
                SimError,
            >(SimError { kind: Misuse::Completed, key }),
            r.is_err() ==> final(self)@ == old(self)@ && *final(store) == *old(store),
            old(self).live(key) ==> {
                let process = old(self)@[key.id() as int].unwrap();
                let step = process.yields(old(store)@);
                &&& r == Ok::<Step, SimError>(step)
                &&& final(store)@ == process.leaves(old(store)@)
                &&& final(self)@[key.id() as int] == (if step is Completed {
                    None
                } else {
                    Some(process.resumed(old(store)@))
                })
            },
    {
        let i: usize = key.index;
        if i >= self.slots.len() {
            return Err(SimError { kind: Misuse::UnknownHandle, key });
        }
        let step: Step = match &mut self.slots[i] {
            Some(process) => process.resume(store),
            None => {
                return Err(SimError { kind: Misuse::Completed, key });
            },
        };
        if matches!(step, Step::Completed) {
            self.slots[i] = None;
        }
        Ok(step)
    }
}

} // verus!

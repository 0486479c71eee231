//! The typed state store that entities share between suspension points.
//!
//! The store holds values of several types. Each value is reached through a
//! key that carries the value's type, so a value can only be read back as
//! what it was stored as.

use vstd::prelude::*;
use std::marker::PhantomData;
use crate::key::Key;
use crate::passivated::Passivated;

verus! {

/// What a slot of the store can hold.
#[derive(Clone, Copy, Debug, PartialEq, Eq, Structural)]
pub enum Value {
    Flag(bool),
    Count(u64),
    Handle(Option<Key>),
    Flags(Passivated),
}

/// A type whose values the store can hold.
pub trait Stored: Sized {
    /// The slot content that stands for `self`.
    spec fn encode(self) -> Value;

    /// The value of this type that `v` stands for, if it stands for one.
    spec fn decode(v: Value) -> Option<Self>;

    /// What was encoded is decoded again.
    proof fn lemma_decode_encode(x: Self)
        ensures
            Self::decode(x.encode()) == Some(x),
    ;

    /// Only the encoding of a value decodes to it.
    proof fn lemma_encode_decode(v: Value)
        ensures
            Self::decode(v).is_some() ==> Self::decode(v).unwrap().encode() == v,
    ;

    fn into_value(self) -> (v: Value)
        ensures
            v == self.encode(),
    ;

    fn from_value(v: Value) -> (r: Option<Self>)
        ensures
            r == Self::decode(v),
    ;

    fn borrow_from(v: &Value) -> (r: Option<&Self>)
        ensures
            r.is_some() <==> Self::decode(*v).is_some(),
            r.is_some() ==> Self::decode(*v) == Some(*r.unwrap()),
    ;

    fn borrow_mut_from(v: &mut Value) -> (r: Option<&mut Self>)
        ensures
            r.is_some() <==> Self::decode(*old(v)).is_some(),
            r.is_some() ==> Self::decode(*old(v)) == Some(*r.unwrap()),
            r.is_some() ==> *final(v) == (*final(r.unwrap())).encode(),
            r.is_none() ==> *final(v) == *old(v),
    ;
}

impl Stored for bool {
    open spec fn encode(self) -> Value {
        Value::Flag(self)
    }

    open spec fn decode(v: Value) -> Option<bool> {
        match v {
            Value::Flag(b) => Some(b),
            _ => None,
        }
    }

    proof fn lemma_decode_encode(x: bool) {
    }

    proof fn lemma_encode_decode(v: Value) {
    }

    fn into_value(self) -> (v: Value) {
        Value::Flag(self)
    }

    fn from_value(v: Value) -> (r: Option<bool>) {
        match v {
            Value::Flag(b) => Some(b),
            _ => None,
        }
    }

    fn borrow_from(v: &Value) -> (r: Option<&bool>) {
        match v {
            Value::Flag(b) => Some(b),
            _ => None,
        }
    }

    fn borrow_mut_from(v: &mut Value) -> (r: Option<&mut bool>) {
        match v {
            Value::Flag(b) => Some(b),
            _ => None,
        }
    }
}

impl Stored for u64 {
    open spec fn encode(self) -> Value {
        Value::Count(self)
    }

    open spec fn decode(v: Value) -> Option<u64> {
        match v {
            Value::Count(n) => Some(n),
            _ => None,
        }
    }

    proof fn lemma_decode_encode(x: u64) {
    }

    proof fn lemma_encode_decode(v: Value) {
    }

    fn into_value(self) -> (v: Value) {
        Value::Count(self)
    }

    fn from_value(v: Value) -> (r: Option<u64>) {
        match v {
            Value::Count(n) => Some(n),
            _ => None,
        }
    }

    fn borrow_from(v: &Value) -> (r: Option<&u64>) {
        match v {
            Value::Count(n) => Some(n),
            _ => None,
        }
    }

    fn borrow_mut_from(v: &mut Value) -> (r: Option<&mut u64>) {
        match v {
            Value::Count(n) => Some(n),
            _ => None,
        }
    }
}

impl Stored for Option<Key> {
    open spec fn encode(self) -> Value {
        Value::Handle(self)
    }

    open spec fn decode(v: Value) -> Option<Option<Key>> {
        match v {
            Value::Handle(h) => Some(h),
            _ => None,
        }
    }

    proof fn lemma_decode_encode(x: Option<Key>) {
    }

    proof fn lemma_encode_decode(v: Value) {
    }

    fn into_value(self) -> (v: Value) {
        Value::Handle(self)
    }

    fn from_value(v: Value) -> (r: Option<Option<Key>>) {
        match v {
            Value::Handle(h) => Some(h),
            _ => None,
        }
    }

    fn borrow_from(v: &Value) -> (r: Option<&Option<Key>>) {
        match v {
            Value::Handle(h) => Some(h),
            _ => None,
        }
    }

    fn borrow_mut_from(v: &mut Value) -> (r: Option<&mut Option<Key>>) {
        match v {
            Value::Handle(h) => Some(h),
            _ => None,
        }
    }
}

impl Stored for Passivated {
    open spec fn encode(self) -> Value {
        Value::Flags(self)
    }

    open spec fn decode(v: Value) -> Option<Passivated> {
        match v {
            Value::Flags(p) => Some(p),
            _ => None,
        }
    }

    proof fn lemma_decode_encode(x: Passivated) {
    }

    proof fn lemma_encode_decode(v: Value) {
    }

    fn into_value(self) -> (v: Value) {
        Value::Flags(self)
    }

    fn from_value(v: Value) -> (r: Option<Passivated>) {
        match v {
            Value::Flags(p) => Some(p),
            _ => None,
        }
    }

    fn borrow_from(v: &Value) -> (r: Option<&Passivated>) {
        match v {
            Value::Flags(p) => Some(p),
            _ => None,
        }
    }

    fn borrow_mut_from(v: &mut Value) -> (r: Option<&mut Passivated>) {
        match v {
            Value::Flags(p) => Some(p),
            _ => None,
        }
    }
}

/// The key to one slot of a store, bound to the type of the value that the
/// slot was made for. A key is the number of its slot and the type, and
/// nothing else: it is meant for the store that gave it out. In another
/// store it reaches whatever value of its type stands in the slot of the same
/// number, and nothing where that slot is missing, empty or of another
/// type.
pub struct StateKey<T> {
    index: usize,
    marker: PhantomData<T>,
}

impl<T> StateKey<T> {
    /// The number of the slot: the first value inserted has slot 0.
    pub closed spec fn slot(self) -> nat {
        self.index as nat
    }
}

impl<T> Clone for StateKey<T> {
    fn clone(&self) -> (r: Self)
        ensures
            r == *self,
    {
        StateKey { index: self.index, marker: PhantomData }
    }
}

impl<T> Copy for StateKey<T> {

}

/// What `key` reaches in `slots`: the value in the slot of its number, if
/// that slot exists, is still filled, and holds a value of the key's type.
pub open spec fn reach<T: Stored>(slots: Seq<Option<Value>>, key: StateKey<T>) -> Option<T> {
    if key.slot() < slots.len() {
        match slots[key.slot() as int] {
            Some(v) => T::decode(v),
            None => None,
        }
    } else {
        None
    }
}

/// `later` is what the slots `earlier` can become: no slot is lost, and a slot
/// that was emptied is never filled again.
pub open spec fn succeeds(earlier: Seq<Option<Value>>, later: Seq<Option<Value>>) -> bool {
    &&& earlier.len() <= later.len()
    &&& forall|i: int| 0 <= i < earlier.len() && earlier[i].is_none() ==> (#[trigger] later[i]).is_none()
}

/// The store. Slots are numbered in the order of insertion, and a slot that
/// was emptied stays empty for good: with the keys that this store gave out,
/// a key never reaches a value that was inserted later.
pub struct State {
    slots: Vec<Option<Value>>,
}

impl View for State {
    type V = Seq<Option<Value>>;

    /// The slots, by number: `None` where the value was removed.
    closed spec fn view(&self) -> Seq<Option<Value>> {
        self.slots@
    }
}

impl State {
    /// What `key` reaches in this store.
    pub open spec fn lookup<T: Stored>(&self, key: StateKey<T>) -> Option<T> {
        reach(self@, key)
    }

    /// An empty store.
    pub fn new() -> (s: State)
        ensures
            s@ == Seq::<Option<Value>>::empty(),
    {
        State { slots: Vec::new() }
    }

    /// The number of slots ever made, removed ones included.
    pub fn slots(&self) -> (n: usize)
        ensures
            n == self@.len(),
    {
        self.slots.len()
    }

    /// Stores `value` in a new slot and returns the key to it.
    pub fn insert<T: Stored>(&mut self, value: T) -> (key: StateKey<T>)
        ensures
            key.slot() == old(self)@.len(),
            final(self)@ == old(self)@.push(Some(value.encode())),
            final(self).lookup(key) == Some(value),
            succeeds(old(self)@, final(self)@),
    {
        let index: usize = self.slots.len();
        proof {
            T::lemma_decode_encode(value);
        }
        self.slots.push(Some(value.into_value()));
        StateKey { index, marker: PhantomData }
    }

    /// The value that `key` reaches, or `None` if there is none.
    pub fn get<T: Stored>(&self, key: StateKey<T>) -> (r: Option<&T>)
        ensures
            r.is_some() <==> self.lookup(key).is_some(),
            r.is_some() ==> self.lookup(key) == Some(*r.unwrap()),
    {
        if key.index >= self.slots.len() {
            return None;
        }
        match &self.slots[key.index] {
            Some(v) => T::borrow_from(v),
            None => None,
        }
    }

    /// Whether `key` reaches a value.
    pub fn contains<T: Stored>(&self, key: StateKey<T>) -> (b: bool)
        ensures
            b == self.lookup(key).is_some(),
    {
        self.get(key).is_some()
    }

    /// The value that `key` reaches, for writing, or `None` if there is none.
    /// Whatever is written takes the value's place in its slot; no other slot
    /// changes.
    pub fn get_mut<T: Stored>(&mut self, key: StateKey<T>) -> (r: Option<&mut T>)
        ensures
            r.is_some() <==> old(self).lookup(key).is_some(),
            r.is_some() ==> old(self).lookup(key) == Some(*r.unwrap()),
            r.is_some() ==> final(self)@ == old(self)@.update(
                key.slot() as int,
                Some((*final(r.unwrap())).encode()),
            ),
            r.is_none() ==> final(self)@ == old(self)@,
            succeeds(old(self)@, final(self)@),
    {
        if key.index >= self.slots.len() {
            return None;
        }
        match &mut self.slots[key.index] {
            Some(v) => T::borrow_mut_from(v),
            None => None,
        }
    }

    /// Takes the value that `key` reaches out of the store and returns it.
    /// The slot stays empty from then on. Where `key` reaches nothing, the
    /// store is left as it is and `None` is returned.
    pub fn remove<T: Stored>(&mut self, key: StateKey<T>) -> (r: Option<T>)
        ensures
            r == old(self).lookup(key),
            r.is_some() ==> final(self)@ == old(self)@.update(key.slot() as int, None),
            r.is_none() ==> final(self)@ == old(self)@,
            final(self).lookup(key).is_none(),
            succeeds(old(self)@, final(self)@),
    {
        if !self.contains(key) {
            return None;
        }
        let taken = self.slots[key.index].take();
        match taken {
            Some(v) => T::from_value(v),
            None => None,
        }
    }
}

/// A key whose value was removed reaches nothing ever after, whatever is
/// inserted, written or removed in the meantime.
pub proof fn law_removed_stays_removed<T: Stored>(before: State, after: State, key: StateKey<T>)
    requires
        key.slot() < before@.len(),
        before@[key.slot() as int].is_none(),
        succeeds(before@, after@),
    ensures
        after.lookup(key).is_none(),
{
}

/// A key reaches only what was stored as a value of its type: where it
/// reaches a value, its slot holds that value's encoding and nothing else.
pub proof fn law_lookup_is_slot<T: Stored>(store: State, key: StateKey<T>)
    requires
        store.lookup(key).is_some(),
    ensures
        key.slot() < store@.len(),
        store@[key.slot() as int] == Some(store.lookup(key).unwrap().encode()),
{
    T::lemma_encode_decode(store@[key.slot() as int].unwrap());
}

/// What the slots can become is closed under going on: every store stands in
/// the relation to itself, and two steps make one.
pub proof fn law_succeeds_chain(
    a: Seq<Option<Value>>,
    b: Seq<Option<Value>>,
    c: Seq<Option<Value>>,
)
    requires
        succeeds(a, b),
        succeeds(b, c),
    ensures
        succeeds(a, a),
        succeeds(a, c),
{
}

/// A value that was inserted is reached by the key that the insertion
/// returned for as long as nothing is written or removed under that key,
/// whatever happens to other slots.
pub proof fn law_insert_then_get<T: Stored>(after: State, key: StateKey<T>, value: T)
    requires
        key.slot() < after@.len(),
        after@[key.slot() as int] == Some(value.encode()),
    ensures
        after.lookup(key) == Some(value),
{
    T::lemma_decode_encode(value);
}

impl Default for State {
    fn default() -> (s: State)
        ensures
            s@ == Seq::<Option<Value>>::empty(),
    {
        State::new()
    }
}

} // verus!

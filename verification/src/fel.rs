//! The future event list: pending activations ordered by time, and among
//! equal times by the order in which they were scheduled.

use vstd::prelude::*;
use std::collections::VecDeque;
use crate::key::Key;

verus! {

/// One pending activation.
#[derive(Clone, Copy, Debug, PartialEq, Eq, Structural)]
pub struct Entry {
    /// The simulated instant at which the process resumes.
    pub time: u64,
    /// The insertion number, which breaks ties between equal times.
    pub seq: u64,
    /// The process that resumes.
    pub key: Key,
}

/// `a` is served strictly before `b`.
pub open spec fn precedes(a: Entry, b: Entry) -> bool {
    a.time < b.time || (a.time == b.time && a.seq < b.seq)
}

/// The entries stand in the order in which they are served.
pub open spec fn ordered(q: Seq<Entry>) -> bool {
    forall|i: int, j: int| 0 <= i < j < q.len() ==> precedes(#[trigger] q[i], #[trigger] q[j])
}

/// Every insertion number in `q` is below `bound`.
pub open spec fn numbered_below(q: Seq<Entry>, bound: nat) -> bool {
    forall|i: int| 0 <= i < q.len() ==> (#[trigger] q[i]).seq < bound
}

/// The number of leading entries of `q` that are due no later than `time`.
pub open spec fn rank(q: Seq<Entry>, time: u64) -> nat
    decreases q.len(),
{
    if q.len() == 0 || q[0].time > time {
        0
    } else {
        1 + rank(q.drop_first(), time)
    }
}

/// The list after a new entry has taken its place: behind every entry that is
/// due no later, before every entry that is due later.
pub open spec fn enqueue(q: Seq<Entry>, e: Entry) -> Seq<Entry> {
    q.insert(rank(q, e.time) as int, e)
}

/// Some entry of `q` belongs to `key`.
pub open spec fn holds(q: Seq<Entry>, key: Key) -> bool {
    exists|i: int| 0 <= i < q.len() && (#[trigger] q[i]).key == key
}

/// No two entries of `q` belong to the same process.
pub open spec fn one_each(q: Seq<Entry>) -> bool {
    forall|i: int, j: int|
        0 <= i < q.len() && 0 <= j < q.len() && i != j ==> (#[trigger] q[i]).key != (
        #[trigger] q[j]).key
}

/// `rank` stays within the list, everything before it is due no later than
/// `time`, and the entry at it, if any, is due later.
pub proof fn lemma_rank_bounds(q: Seq<Entry>, time: u64)
    ensures
        rank(q, time) <= q.len(),
        forall|i: int| 0 <= i < rank(q, time) ==> (#[trigger] q[i]).time <= time,
        rank(q, time) < q.len() ==> q[rank(q, time) as int].time > time,
    decreases q.len(),
{
    if q.len() == 0 || q[0].time > time {
    } else {
        let rest = q.drop_first();
        lemma_rank_bounds(rest, time);
        assert forall|i: int| 0 <= i < rank(q, time) implies (#[trigger] q[i]).time <= time by {
            if i > 0 {
                assert(q[i] == rest[i - 1]);
            }
        }
        if rank(q, time) < q.len() {
            assert(q[rank(q, time) as int] == rest[rank(rest, time) as int]);
        }
    }
}

/// In an ordered list every entry at or behind `rank` is due later than `time`.
pub proof fn lemma_rank_splits(q: Seq<Entry>, time: u64)
    requires
        ordered(q),
    ensures
        forall|i: int| rank(q, time) <= i < q.len() ==> (#[trigger] q[i]).time > time,
{
    lemma_rank_bounds(q, time);
    let k = rank(q, time) as int;
    assert forall|i: int| k <= i < q.len() implies (#[trigger] q[i]).time > time by {
        if i > k {
            assert(precedes(q[k], q[i]));
        }
    }
}

/// The one position that splits the list at `time` is `rank`.
pub proof fn lemma_rank_unique(q: Seq<Entry>, time: u64, k: int)
    requires
        0 <= k <= q.len(),
        forall|i: int| 0 <= i < k ==> (#[trigger] q[i]).time <= time,
        forall|i: int| k <= i < q.len() ==> (#[trigger] q[i]).time > time,
    ensures
        rank(q, time) == k,
{
    lemma_rank_bounds(q, time);
    let r = rank(q, time) as int;
    if r < k {
        assert(q[r].time > time);
        assert(q[r].time <= time);
    } else if r > k {
        assert(q[k].time <= time);
        assert(q[k].time > time);
    }
}

/// Inserting an entry with a fresh insertion number keeps the list ordered.
pub proof fn lemma_enqueue_ordered(q: Seq<Entry>, e: Entry)
    requires
        ordered(q),
        numbered_below(q, e.seq as nat),
    ensures
        ordered(enqueue(q, e)),
        numbered_below(enqueue(q, e), (e.seq + 1) as nat),
        enqueue(q, e).len() == q.len() + 1,
{
    lemma_rank_bounds(q, e.time);
    lemma_rank_splits(q, e.time);
    let k = rank(q, e.time) as int;
    let r = enqueue(q, e);
    assert forall|i: int, j: int| 0 <= i < j < r.len() implies precedes(
        #[trigger] r[i],
        #[trigger] r[j],
    ) by {
        if j < k {
            assert(r[i] == q[i] && r[j] == q[j]);
        } else if j == k {
            assert(r[i] == q[i]);
            assert(q[i].seq < e.seq);
        } else if i < k {
            assert(r[i] == q[i] && r[j] == q[j - 1]);
            if i == j - 1 {
            } else {
                assert(precedes(q[i], q[j - 1]));
            }
        } else if i == k {
            assert(r[j] == q[j - 1]);
            assert(q[j - 1].time > e.time);
        } else {
            assert(r[i] == q[i - 1] && r[j] == q[j - 1]);
            assert(precedes(q[i - 1], q[j - 1]));
        }
    }
    assert forall|i: int| 0 <= i < r.len() implies (#[trigger] r[i]).seq < e.seq + 1 by {
        if i < k {
            assert(r[i] == q[i]);
        } else if i > k {
            assert(r[i] == q[i - 1]);
        }
    }
}

/// After an insertion the list holds the new entry's process and whatever it
/// held before.
pub proof fn lemma_enqueue_holds(q: Seq<Entry>, e: Entry, key: Key)
    ensures
        holds(enqueue(q, e), key) <==> (key == e.key || holds(q, key)),
{
    lemma_rank_bounds(q, e.time);
    let k = rank(q, e.time) as int;
    let r = enqueue(q, e);
    if holds(r, key) {
        let i = choose|i: int| 0 <= i < r.len() && (#[trigger] r[i]).key == key;
        if i < k {
            assert(q[i].key == key);
        } else if i > k {
            assert(q[i - 1].key == key);
        }
    }
    if key == e.key {
        assert(r[k].key == key);
    }
    if holds(q, key) {
        let i = choose|i: int| 0 <= i < q.len() && (#[trigger] q[i]).key == key;
        if i < k {
            assert(r[i].key == key);
        } else {
            assert(r[i + 1].key == key);
        }
    }
}

/// An insertion removes nothing.
pub proof fn lemma_enqueue_keeps(q: Seq<Entry>, e: Entry, x: Entry)
    requires
        q.contains(x),
    ensures
        enqueue(q, e).contains(x),
{
    lemma_rank_bounds(q, e.time);
    let k = rank(q, e.time) as int;
    let r = enqueue(q, e);
    let i = choose|i: int| 0 <= i < q.len() && q[i] == x;
    if i < k {
        assert(r[i] == x);
    } else {
        assert(r[i + 1] == x);
    }
}

/// Inserting an entry for a process that has none keeps one entry each.
pub proof fn lemma_enqueue_one_each(q: Seq<Entry>, e: Entry)
    requires
        one_each(q),
        !holds(q, e.key),
    ensures
        one_each(enqueue(q, e)),
{
    lemma_rank_bounds(q, e.time);
    let k = rank(q, e.time) as int;
    let r = enqueue(q, e);
    assert forall|i: int, j: int| 0 <= i < r.len() && 0 <= j < r.len() && i != j implies (
    #[trigger] r[i]).key != (#[trigger] r[j]).key by {
        let a = if i < k { i } else { i - 1 };
        let b = if j < k { j } else { j - 1 };
        if i == k {
            assert(r[j] == q[b]);
        } else if j == k {
            assert(r[i] == q[a]);
        } else {
            assert(r[i] == q[a] && r[j] == q[b]);
        }
    }
}

/// Taking the first entry away keeps the list ordered, and the rest holds
/// every process but the first entry's.
pub proof fn lemma_drop_first(q: Seq<Entry>, bound: nat)
    requires
        q.len() > 0,
        ordered(q),
        numbered_below(q, bound),
    ensures
        ordered(q.drop_first()),
        numbered_below(q.drop_first(), bound),
        forall|i: int| 0 <= i < q.drop_first().len() ==> q[0].time <= (#[trigger] q.drop_first()[i]).time,
{
    let r = q.drop_first();
    assert forall|i: int, j: int| 0 <= i < j < r.len() implies precedes(
        #[trigger] r[i],
        #[trigger] r[j],
    ) by {
        assert(precedes(q[i + 1], q[j + 1]));
    }
    assert forall|i: int| 0 <= i < r.len() implies q[0].time <= (#[trigger] r[i]).time by {
        assert(precedes(q[0], q[i + 1]));
    }
    assert forall|i: int| 0 <= i < r.len() implies (#[trigger] r[i]).seq < bound by {
        assert(r[i] == q[i + 1]);
    }
}

/// With one entry each, the rest of the list holds exactly the processes of
/// the list other than the first entry's.
pub proof fn lemma_drop_first_holds(q: Seq<Entry>, key: Key)
    requires
        q.len() > 0,
        one_each(q),
    ensures
        one_each(q.drop_first()),
        holds(q.drop_first(), key) <==> (holds(q, key) && key != q[0].key),
{
    let r = q.drop_first();
    assert forall|i: int, j: int| 0 <= i < r.len() && 0 <= j < r.len() && i != j implies (
    #[trigger] r[i]).key != (#[trigger] r[j]).key by {
        assert(r[i] == q[i + 1] && r[j] == q[j + 1]);
    }
    if holds(r, key) {
        let i = choose|i: int| 0 <= i < r.len() && (#[trigger] r[i]).key == key;
        assert(q[i + 1].key == key);
        assert(q[i + 1].key != q[0].key);
    }
    if holds(q, key) && key != q[0].key {
        let i = choose|i: int| 0 <= i < q.len() && (#[trigger] q[i]).key == key;
        assert(r[i - 1].key == key);
    }
}

/// The future event list.
pub struct Fel {
    entries: VecDeque<Entry>,
    next_seq: u64,
}

/// What an event list holds.
pub struct Pending {
    /// The pending entries, in the order in which they will be served.
    pub entries: Seq<Entry>,
    /// The insertion number that the next entry gets.
    pub next_seq: nat,
}

impl View for Fel {
    type V = Pending;

    closed spec fn view(&self) -> Pending {
        Pending { entries: self.entries@, next_seq: self.next_seq as nat }
    }
}

impl Fel {
    /// The entries stand in serving order and carry insertion numbers that
    /// were already handed out.
    pub open spec fn wf(&self) -> bool {
        &&& ordered(self@.entries)
        &&& numbered_below(self@.entries, self@.next_seq)
        &&& self@.next_seq <= u64::MAX
    }

    /// An empty list.
    pub fn new() -> (fel: Fel)
        ensures
            fel.wf(),
            fel@ == (Pending { entries: Seq::empty(), next_seq: 0 }),
    {
        Fel { entries: VecDeque::new(), next_seq: 0 }
    }

    /// The number of pending entries.
    pub fn len(&self) -> (n: usize)
        ensures
            n == self@.entries.len(),
    {
        self.entries.len()
    }

    /// Whether nothing is pending.
    pub fn is_empty(&self) -> (b: bool)
        ensures
            b == (self@.entries.len() == 0),
    {
        self.entries.len() == 0
    }

    /// The entry that is served next, if any; the list is left as it is.
    pub fn peek_earliest(&self) -> (r: Option<(u64, Key)>)
        ensures
            r == (if self@.entries.len() == 0 {
                None
            } else {
                Some((self@.entries[0].time, self@.entries[0].key))
            }),
    {
        if self.entries.len() == 0 {
            None
        } else {
            let e = self.entries[0];
            Some((e.time, e.key))
        }
    }

    /// Removes and returns the entry that is served next: the one with the
    /// least time, and among those the one scheduled first.
    pub fn pop_earliest(&mut self) -> (r: Option<(u64, Key)>)
        ensures
            old(self)@.entries.len() == 0 ==> r.is_none() && final(self)@ == old(self)@,
            old(self)@.entries.len() > 0 ==> {
                &&& r == Some((old(self)@.entries[0].time, old(self)@.entries[0].key))
                &&& final(self)@ == (Pending {
                    entries: old(self)@.entries.drop_first(),
                    ..old(self)@
                })
            },
    {
        match self.entries.pop_front() {
            Some(e) => Some((e.time, e.key)),
            None => None,
        }
    }

    /// The position at which an entry due at `time` is inserted.
    fn slot_for(&self, time: u64) -> (k: usize)
        requires
            ordered(self@.entries),
        ensures
            k == rank(self@.entries, time),
    {
        let mut lo: usize = 0;
        let mut hi: usize = self.entries.len();
        while lo < hi
            invariant
                0 <= lo <= hi <= self@.entries.len(),
                ordered(self@.entries),
                self@.entries == self.entries@,
                forall|i: int| 0 <= i < lo ==> (#[trigger] self@.entries[i]).time <= time,
                forall|i: int|
                    hi <= i < self@.entries.len() ==> (#[trigger] self@.entries[i]).time > time,
            decreases hi - lo,
        {
            let mid: usize = lo + (hi - lo) / 2;
            if self.entries[mid].time <= time {
                assert forall|i: int| 0 <= i < mid + 1 implies (#[trigger] self@.entries[i]).time
                    <= time by {
                    if i < mid {
                        assert(precedes(self@.entries[i], self@.entries[mid as int]));
                    }
                }
                lo = mid + 1;
            } else {
                assert forall|i: int| mid <= i < self@.entries.len() implies (
                #[trigger] self@.entries[i]).time > time by {
                    if i > mid {
                        assert(precedes(self@.entries[mid as int], self@.entries[i]));
                    }
                }
                hi = mid;
            }
        }
        proof {
            lemma_rank_unique(self@.entries, time, lo as int);
        }
        lo
    }

    /// Schedules `key` at `time` behind everything that is due no later.
    ///
    /// Returns the insertion number given to the new entry, or `None`, with
    /// the list unchanged, when the insertion numbers are used up.
    pub fn insert(&mut self, key: Key, time: u64) -> (r: Option<u64>)
        requires
            old(self).wf(),
        ensures
            final(self).wf(),
            old(self)@.next_seq == u64::MAX ==> r.is_none() && final(self)@ == old(self)@,
            old(self)@.next_seq < u64::MAX ==> {
                &&& r == Some(old(self)@.next_seq as u64)
                &&& final(self)@ == (Pending {
                    entries: enqueue(
                        old(self)@.entries,
                        Entry { time, seq: old(self)@.next_seq as u64, key },
                    ),
                    next_seq: old(self)@.next_seq + 1,
                })
            },
    {
        if self.next_seq == u64::MAX {
            return None;
        }
        let seq: u64 = self.next_seq;
        let e = Entry { time, seq, key };
        let k: usize = self.slot_for(time);
        proof {
            lemma_rank_bounds(self@.entries, time);
            lemma_enqueue_ordered(self@.entries, e);
        }
        self.entries.insert(k, e);
        self.next_seq = seq + 1;
        Some(seq)
    }

    /// The time at which `key` is scheduled, if it is.
    pub fn time_of(&self, key: Key) -> (r: Option<u64>)
        ensures
            r.is_some() <==> holds(self@.entries, key),
            r.is_some() ==> exists|i: int|
                0 <= i < self@.entries.len() && (#[trigger] self@.entries[i]).key == key
                    && self@.entries[i].time == r.unwrap(),
    {
        let mut i: usize = 0;
        while i < self.entries.len()
            invariant
                0 <= i <= self@.entries.len(),
                self@.entries == self.entries@,
                forall|j: int| 0 <= j < i ==> (#[trigger] self@.entries[j]).key != key,
            decreases self@.entries.len() - i,
        {
            let e = self.entries[i];
            if e.key == key {
                return Some(e.time);
            }
            i += 1;
        }
        None
    }
}

} // verus!

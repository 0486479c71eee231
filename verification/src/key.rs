//! Entity handles.

use vstd::prelude::*;

verus! {

/// Identifies one registered process. Handles are minted in registration
/// order and are never reused.
#[derive(Clone, Copy, Debug, PartialEq, Eq, Structural, PartialOrd, Ord, Hash)]
pub struct Key {
    pub(crate) index: usize,
}

impl Key {
    /// The registration number of the process: the first one registered has
    /// number 0.
    pub closed spec fn id(self) -> nat {
        self.index as nat
    }

    /// Two handles with the same registration number are the same handle.
    pub broadcast proof fn lemma_id_identifies(a: Key, b: Key)
        ensures
            (#[trigger] a.id() == #[trigger] b.id()) <==> a == b,
    {
    }

    /// The registration number is the stored index.
    pub(crate) broadcast proof fn lemma_id_index(k: Key)
        ensures
            #[trigger] k.id() == k.index as nat,
    {
    }

    pub fn index(&self) -> (i: usize)
        ensures
            i == self.id(),
    {
        self.index
    }
}

} // verus!

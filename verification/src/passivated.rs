//! A record of which of two cooperating entities is passivated.

use vstd::prelude::*;

verus! {

/// Tells, for each of two entities, whether it is suspended and waits to be
/// activated by the other.
#[derive(Clone, Copy, Debug, PartialEq, Eq, Structural)]
pub struct Passivated {
    pub entity_a: bool,
    pub entity_b: bool,
}

impl Passivated {
    /// The record in which neither entity is passivated.
    pub fn new() -> (p: Passivated)
        ensures
            p == (Passivated { entity_a: false, entity_b: false }),
    {
        Passivated { entity_a: false, entity_b: false }
    }
}

} // verus!

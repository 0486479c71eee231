//! What a process tells the kernel when it suspends, and what the kernel
//! reports when it is misused.

use vstd::prelude::*;
use crate::key::Key;

verus! {

/// The scheduling instruction that a process yields when it suspends.
#[derive(Clone, Copy, Debug, PartialEq, Eq, Structural)]
pub enum Action {
    /// Resume this process after the given amount of simulated time.
    Hold(u64),
    /// Suspend this process until another one activates it.
    Passivate,
    /// Schedule the named process at the current instant. The yielding
    /// process itself is not scheduled again by this instruction.
    ActivateOne(Key),
}

/// The outcome of resuming a process once.
#[derive(Clone, Copy, Debug, PartialEq, Eq, Structural)]
pub enum Step {
    /// The process reached a suspension point and yielded an instruction.
    Suspended(Action),
    /// The process ran to its end.
    Completed,
    /// The process found the shared state unfit to go on with.
    Failed,
}

/// The ways in which the kernel can be misused.
#[derive(Clone, Copy, Debug, PartialEq, Eq, Structural)]
pub enum Misuse {
    /// The handle was never given out by this kernel.
    UnknownHandle,
    /// The handle's process has run to its end.
    Completed,
    /// The handle already has a pending activation.
    AlreadyScheduled,
    /// The requested time lies before the current simulated time.
    PastTimestamp,
    /// The requested time does not fit the clock.
    TimeOverflow,
    /// The insertion numbers of the event list are used up.
    SequenceExhausted,
    /// The process reported that it cannot go on.
    EntityFailed,
}

/// A misuse, with the handle that it concerns.
#[derive(Clone, Copy, Debug, PartialEq, Eq, Structural)]
pub struct SimError {
    pub kind: Misuse,
    pub key: Key,
}

/// One resumption: when it happened, which process ran, and what came of it.
#[derive(Clone, Copy, Debug, PartialEq, Eq, Structural)]
pub struct Event {
    pub time: u64,
    pub key: Key,
    pub step: Step,
}

/// What one turn of the scheduler loop did.
#[derive(Clone, Copy, Debug, PartialEq, Eq, Structural)]
pub enum Tick {
    /// Nothing is pending.
    Exhausted,
    /// The next entry is due later than the limit; it stays pending.
    Budget,
    /// A process was resumed and its outcome applied.
    Ran(Event),
    /// A process was resumed and its outcome could not be applied.
    Faulted(Event, SimError),
}

/// Why a run ended.
#[derive(Clone, Copy, Debug, PartialEq, Eq, Structural)]
pub enum Halt {
    /// Nothing is pending any more.
    Exhausted,
    /// The next entry is due later than the limit; the run can be taken up
    /// again with a later limit.
    Budget,
    /// The outcome of the last resumption could not be applied.
    Fault(Event, SimError),
    /// The allowed number of resumptions was used up.
    StepCap,
}

/// The result of a run: why it ended, and how many resumptions it made.
#[derive(Clone, Copy, Debug, PartialEq, Eq, Structural)]
pub struct Report {
    pub halt: Halt,
    pub events: u64,
}

} // verus!

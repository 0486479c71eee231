//! A process-interaction discrete-event simulation kernel.
//!
//! Entities are resumable processes. Each resumption yields one scheduling
//! instruction; the kernel owns the simulated clock, the future event list and
//! a typed store that the entities share between suspension points.

pub mod key;
pub mod passivated;
pub mod state;
pub mod fel;
pub mod effect;
pub mod model;
pub mod scheduler;
pub mod registry;
pub mod world;
pub mod simulation;
pub mod entities;
pub mod laws;

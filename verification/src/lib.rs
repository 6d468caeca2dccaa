//! An event-driven periodic scheduler.
//!
//! Events are the primary entity: a [`TimedEvent`] carries its own period,
//! its message id and an optional payload, and registering an event is
//! scheduling it. The [`Scheduler`] keeps the registrations in a queue
//! ordered by deadline and decides, for a given clock reading, which event
//! fires next; the caller owns the clock and runs the callback.
use vstd::prelude::*;

pub mod event;
pub mod history;
pub mod laws;
pub mod queue;
pub mod scheduler;
pub mod trace;

pub use event::TimedEvent;
pub use scheduler::Scheduler;

verus! {

} // verus!

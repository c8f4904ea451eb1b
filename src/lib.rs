//! Group commit for a log store's write path: concurrent write requests are
//! merged into ordered groups, one submitter of each group is elected leader,
//! performs the shared write, and leaves every member's result for it.
//!
//! The coordination decisions live in [`barrier::BarrierState`], a state
//! machine whose transitions are specified over [`barrier::BarrierView`].
//! Blocking (a mutex and condition variables) belongs to the caller, which
//! performs the wake-ups that each transition asks for.

pub mod barrier;
pub mod laws;
pub mod writer;

pub use barrier::{Arrival, BarrierState, BarrierView, ExitAction, Slot, WriteGroup};
pub use writer::Writer;

//! Cooperative tasks: their identities, the executor that schedules them and
//! the bridge that carries keyboard input from the interrupt handler to the
//! task that consumes it.

pub mod executor;
pub mod keyboard;
pub mod shell;

use vstd::prelude::*;

verus! {

/// The identity of a task: a number that no other task of the same executor
/// gets.
#[derive(Clone, Copy, Debug, PartialEq, Eq, Structural)]
pub struct TaskId(pub u64);

/// What polling a source of values yields.
#[derive(Clone, Copy, Debug, PartialEq, Eq, Structural)]
pub enum Poll<T> {
    /// A value is there.
    Ready(T),
    /// Nothing is there yet; the waker handed in will be notified.
    Pending,
}

} // verus!

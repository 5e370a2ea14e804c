//! The stack that the double-fault handler runs on.
//!
//! A double fault that comes from a stack overflow cannot push its frame on
//! the stack that overflowed. The task state segment therefore names a stack
//! of its own for it, set aside before interrupts are enabled.

use vstd::prelude::*;

verus! {

/// Slot of the interrupt stack table that holds the double-fault stack.
pub const DOUBLE_FAULT_IST_INDEX: u16 = 0;

/// Size of the double-fault stack in bytes: five pages.
pub const DOUBLE_FAULT_STACK_SIZE: u64 = 20480;

/// The address to load as the stack pointer of a stack of
/// `DOUBLE_FAULT_STACK_SIZE` bytes that starts at `stack_start`: stacks grow
/// downwards, so it is the address just past the stack's end. `None` where
/// the stack would reach beyond the address space.
pub fn interrupt_stack_top(stack_start: u64) -> (top: Option<u64>)
    ensures
        top is Some <==> stack_start + DOUBLE_FAULT_STACK_SIZE <= u64::MAX,
        top matches Some(t) ==> t == stack_start + DOUBLE_FAULT_STACK_SIZE,
{
    if stack_start > u64::MAX - DOUBLE_FAULT_STACK_SIZE {
        None
    } else {
        Some(stack_start + DOUBLE_FAULT_STACK_SIZE)
    }
}

} // verus!

//! What the interrupt and exception handlers decide.
//!
//! A handler runs with interrupts disabled and must be short. What it does to
//! the machine (reading the keyboard port, telling the interrupt controller
//! that it is done, halting) is done by the code that is installed in the
//! descriptor table; what it does to the kernel's state, and what the
//! machine is to be told, is decided here.

use vstd::prelude::*;
use crate::gdt::DOUBLE_FAULT_IST_INDEX;
use crate::task::executor::{lemma_woken_once_polled_once, next_of, rest_of, woken, Executor};
use crate::task::keyboard::{after_scancode, ScanCodeStream, ScancodeOutcome};
use crate::task::TaskId;

verus! {

/// First vector of the primary interrupt controller.
pub const PIC_1_OFFSET: u8 = 32;

/// First vector of the secondary interrupt controller.
pub const PIC_2_OFFSET: u8 = 40;

/// Vector of the breakpoint exception.
pub const BREAKPOINT_VECTOR: u8 = 3;

/// Vector of the double-fault exception.
pub const DOUBLE_FAULT_VECTOR: u8 = 8;

/// Vector of the page-fault exception.
pub const PAGE_FAULT_VECTOR: u8 = 14;

/// The hardware interrupts that the kernel serves.
#[derive(Clone, Copy, Debug, PartialEq, Eq, Structural)]
pub enum InterruptIndex {
    Timer,
    Keyboard,
}

impl InterruptIndex {
    /// The vector that the interrupt arrives on: the timer on the first
    /// vector of the primary controller, the keyboard on the one after it.
    pub open spec fn vector(self) -> u8 {
        match self {
            InterruptIndex::Timer => 32,
            InterruptIndex::Keyboard => 33,
        }
    }

    /// The vector that the interrupt arrives on.
    pub fn as_u8(self) -> (vector: u8)
        ensures
            vector == self.vector(),
    {
        match self {
            InterruptIndex::Timer => PIC_1_OFFSET,
            InterruptIndex::Keyboard => PIC_1_OFFSET + 1,
        }
    }

    /// The interrupt that arrives on `vector`, if the kernel serves one there.
    pub fn from_vector(vector: u8) -> (index: Option<InterruptIndex>)
        ensures
            index matches Some(i) ==> i.vector() == vector,
            index is None ==> vector != 32 && vector != 33,
    {
        if vector == PIC_1_OFFSET {
            Some(InterruptIndex::Timer)
        } else if vector == PIC_1_OFFSET + 1 {
            Some(InterruptIndex::Keyboard)
        } else {
            None
        }
    }
}

impl From<InterruptIndex> for u8 {
    fn from(value: InterruptIndex) -> (vector: u8) {
        value.as_u8()
    }
}

impl vstd::std_specs::convert::FromSpecImpl<InterruptIndex> for u8 {
    open spec fn obeys_from_spec() -> bool {
        true
    }

    open spec fn from_spec(value: InterruptIndex) -> u8 {
        value.vector()
    }
}

/// The entries of the interrupt descriptor table.
#[derive(Clone, Copy, Debug, PartialEq, Eq, Structural)]
pub enum Handler {
    Breakpoint,
    DoubleFault,
    PageFault,
    Timer,
    Keyboard,
}

/// What the processor does once a handler is done.
#[derive(Clone, Copy, Debug, PartialEq, Eq, Structural)]
pub enum Disposition {
    /// Go on where the interrupt came in.
    Resume,
    /// Stop for good: the interrupted context cannot be trusted.
    Halt,
}

impl Handler {
    /// The vector of the descriptor table that the handler is installed at.
    pub open spec fn vector_of(self) -> u8 {
        match self {
            Handler::Breakpoint => 3,
            Handler::DoubleFault => 8,
            Handler::PageFault => 14,
            Handler::Timer => 32,
            Handler::Keyboard => 33,
        }
    }

    /// The vector of the descriptor table that the handler is installed at.
    pub fn vector(self) -> (vector: u8)
        ensures
            vector == self.vector_of(),
    {
        match self {
            Handler::Breakpoint => BREAKPOINT_VECTOR,
            Handler::DoubleFault => DOUBLE_FAULT_VECTOR,
            Handler::PageFault => PAGE_FAULT_VECTOR,
            Handler::Timer => InterruptIndex::Timer.as_u8(),
            Handler::Keyboard => InterruptIndex::Keyboard.as_u8(),
        }
    }

    /// The handler installed at `vector`, if there is one.
    pub fn installed_at(vector: u8) -> (handler: Option<Handler>)
        ensures
            handler matches Some(h) ==> h.vector_of() == vector,
            handler is None ==> forall|h: Handler| h.vector_of() != vector,
    {
        if vector == BREAKPOINT_VECTOR {
            Some(Handler::Breakpoint)
        } else if vector == DOUBLE_FAULT_VECTOR {
            Some(Handler::DoubleFault)
        } else if vector == PAGE_FAULT_VECTOR {
            Some(Handler::PageFault)
        } else if vector == PIC_1_OFFSET {
            Some(Handler::Timer)
        } else if vector == PIC_1_OFFSET + 1 {
            Some(Handler::Keyboard)
        } else {
            None
        }
    }

    /// The slot of the interrupt stack table whose stack the handler runs
    /// on: the double-fault handler has a stack of its own, the others run
    /// on the stack that was in use.
    pub fn stack_index(self) -> (index: Option<u16>)
        ensures
            index == if self == Handler::DoubleFault {
                Some(DOUBLE_FAULT_IST_INDEX)
            } else {
                None::<u16>
            },
    {
        match self {
            Handler::DoubleFault => Some(DOUBLE_FAULT_IST_INDEX),
            _ => None,
        }
    }

    /// What happens after the handler: a breakpoint and the hardware
    /// interrupts resume, the faults are fatal.
    pub fn disposition(self) -> (then: Disposition)
        ensures
            then == if self == Handler::DoubleFault || self == Handler::PageFault {
                Disposition::Halt
            } else {
                Disposition::Resume
            },
    {
        match self {
            Handler::DoubleFault | Handler::PageFault => Disposition::Halt,
            _ => Disposition::Resume,
        }
    }

    /// The vector that the interrupt controller has to be told of before the
    /// handler returns: the handler's own, for the hardware interrupts.
    /// Exceptions do not come from the controller.
    pub fn end_of_interrupt(self) -> (vector: Option<u8>)
        ensures
            vector == match self {
                Handler::Timer => Some(32u8),
                Handler::Keyboard => Some(33u8),
                _ => None::<u8>,
            },
    {
        match self {
            Handler::Timer => Some(InterruptIndex::Timer.as_u8()),
            Handler::Keyboard => Some(InterruptIndex::Keyboard.as_u8()),
            _ => None,
        }
    }
}

/// What the keyboard handler leaves for its caller to do.
#[derive(Clone, Copy, Debug, PartialEq, Eq, Structural)]
pub struct KeyboardResponse {
    /// The scancode found the queue full and is lost: worth a warning.
    pub dropped: bool,
    /// The vector to acknowledge to the interrupt controller.
    pub end_of_interrupt: u8,
}

/// The timer interrupt: nothing to do but to acknowledge it. Returns the
/// vector to acknowledge.
pub fn timer_interrupt() -> (end_of_interrupt: u8)
    ensures
        end_of_interrupt == InterruptIndex::Timer.vector(),
{
    InterruptIndex::Timer.as_u8()
}

/// The keyboard interrupt, after the scancode was read from the data port:
/// the scancode goes into the bridge, and the task that waits for it, if
/// one does, is put on the ready queue. A scancode that finds the bridge
/// full is dropped and wakes nobody.
pub fn keyboard_interrupt(
    stream: &mut ScanCodeStream<TaskId>,
    executor: &mut Executor,
    scancode: u8,
) -> (response: KeyboardResponse)
    ensures
        response.end_of_interrupt == InterruptIndex::Keyboard.vector(),
        response.dropped == (old(stream).pending().len() >= old(stream).capacity()),
        final(stream).capacity() == old(stream).capacity(),
        final(stream).pending() == after_scancode(
            old(stream).pending(),
            old(stream).capacity(),
            scancode,
        ),
        final(stream).registered() == if response.dropped {
            old(stream).registered()
        } else {
            None::<TaskId>
        },
        final(executor).live() == old(executor).live(),
        final(executor).next_id() == old(executor).next_id(),
        final(executor).ready() == match old(stream).registered() {
            Some(id) if !response.dropped => woken(
                old(executor).live(),
                old(executor).ready(),
                id.0,
            ),
            _ => old(executor).ready(),
        },
{
    let dropped = match stream.add_scancode(scancode) {
        ScancodeOutcome::Queued { wake: Some(id) } => {
            executor.wake(id);
            false
        },
        ScancodeOutcome::Queued { wake: None } => false,
        ScancodeOutcome::Dropped => true,
    };
    KeyboardResponse { dropped, end_of_interrupt: InterruptIndex::Keyboard.as_u8() }
}

/// A task that waits for a scancode, with nothing else ready, is resumed
/// once by the scancode that comes in: the scancode is the one that it
/// finds, the task is the next to be polled, and after it none is.
pub proof fn lemma_scancode_resumes_reader(
    live: Set<u64>,
    ready: Seq<u64>,
    capacity: nat,
    id: u64,
    scancode: u8,
)
    requires
        capacity > 0,
        live.contains(id),
        forall|i: int| 0 <= i < ready.len() ==> !live.contains(#[trigger] ready[i]),
    ensures
        after_scancode(Seq::empty(), capacity, scancode) == seq![scancode],
        next_of(live, woken(live, ready, id)) == Some(id),
        next_of(live, rest_of(live, woken(live, ready, id))) is None,
{
    lemma_woken_once_polled_once(live, ready, id);
    assert(Seq::<u8>::empty().push(scancode) =~= seq![scancode]);
}

} // verus!

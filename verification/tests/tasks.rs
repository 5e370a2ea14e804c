use rust_os::interrupts::{
    keyboard_interrupt, timer_interrupt, Disposition, Handler, InterruptIndex, KeyboardResponse,
};
use rust_os::task::executor::Executor;
use rust_os::task::keyboard::{ScanCodeStream, ScancodeOutcome, SCANCODE_QUEUE_CAPACITY};
use rust_os::task::{Poll, TaskId};

#[test]
fn scancodes_come_out_in_order() {
    let mut stream: ScanCodeStream<u32> = ScanCodeStream::new();
    let sent: Vec<u8> = (0..SCANCODE_QUEUE_CAPACITY as u8).map(|i| i.wrapping_mul(7)).collect();
    for &byte in &sent {
        assert!(matches!(stream.add_scancode(byte), ScancodeOutcome::Queued { wake: None }));
    }
    let mut got = Vec::new();
    while let Poll::Ready(byte) = stream.poll_next(1) {
        got.push(byte);
    }
    assert_eq!(got, sent);
}

#[test]
fn overflow_drops_only_the_excess() {
    let mut stream: ScanCodeStream<u32> = ScanCodeStream::new();
    for i in 0..150u8 {
        let outcome = stream.add_scancode(i);
        if (i as usize) < SCANCODE_QUEUE_CAPACITY {
            assert!(matches!(outcome, ScancodeOutcome::Queued { .. }));
        } else {
            assert!(matches!(outcome, ScancodeOutcome::Dropped));
        }
    }
    for i in 0..100u8 {
        assert_eq!(stream.poll_next(0), Poll::Ready(i));
    }
    assert_eq!(stream.poll_next(0), Poll::Pending);
    assert!(matches!(stream.add_scancode(200), ScancodeOutcome::Queued { wake: Some(0) }));
    assert_eq!(stream.poll_next(0), Poll::Ready(200));
}

#[test]
fn waker_is_handed_out_once_per_registration() {
    let mut stream: ScanCodeStream<&'static str> = ScanCodeStream::new();
    assert_eq!(stream.poll_next("first"), Poll::Pending);
    assert_eq!(stream.poll_next("second"), Poll::Pending);
    assert!(matches!(stream.add_scancode(1), ScancodeOutcome::Queued { wake: Some("second") }));
    assert!(matches!(stream.add_scancode(2), ScancodeOutcome::Queued { wake: None }));
    assert_eq!(stream.poll_next("third"), Poll::Ready(1));
    assert_eq!(stream.poll_next("third"), Poll::Ready(2));
    assert_eq!(stream.poll_next("third"), Poll::Pending);
    assert!(matches!(stream.add_scancode(3), ScancodeOutcome::Queued { wake: Some("third") }));
}

#[test]
fn a_full_queue_keeps_the_waker() {
    let mut stream: ScanCodeStream<u8> = ScanCodeStream::new();
    assert_eq!(stream.poll_next(9), Poll::Pending);
    assert!(matches!(stream.add_scancode(0), ScancodeOutcome::Queued { wake: Some(9) }));
    for i in 1..100 {
        assert!(matches!(stream.add_scancode(i), ScancodeOutcome::Queued { wake: None }));
    }
    assert!(matches!(stream.add_scancode(100), ScancodeOutcome::Dropped));
}

#[test]
fn spawn_hands_out_fresh_ids_in_order() {
    let mut executor = Executor::new();
    assert!(executor.is_idle());
    assert_eq!(executor.spawn(), Some(TaskId(0)));
    assert_eq!(executor.spawn(), Some(TaskId(1)));
    assert!(executor.is_live(TaskId(0)));
    assert!(!executor.is_live(TaskId(2)));
    assert_eq!(executor.next_ready(), Some(TaskId(0)));
    executor.complete(TaskId(0));
    assert_eq!(executor.spawn(), Some(TaskId(2)));
    assert_eq!(executor.next_ready(), Some(TaskId(1)));
    assert_eq!(executor.next_ready(), Some(TaskId(2)));
    assert_eq!(executor.next_ready(), None);
}

#[test]
fn wakes_collapse_and_stale_wakes_are_skipped() {
    let mut executor = Executor::new();
    let a = executor.spawn().unwrap();
    let b = executor.spawn().unwrap();
    assert_eq!(executor.next_ready(), Some(a));
    assert_eq!(executor.next_ready(), Some(b));
    assert_eq!(executor.next_ready(), None);
    executor.wake(b);
    executor.wake(b);
    executor.wake(a);
    executor.wake(b);
    executor.wake(TaskId(77));
    assert_eq!(executor.next_ready(), Some(b));
    // woken while it runs, then completes
    executor.wake(b);
    executor.complete(b);
    assert!(!executor.is_idle());
    assert_eq!(executor.next_ready(), Some(a));
    assert_eq!(executor.next_ready(), None);
    assert!(executor.is_idle());
    executor.wake(b);
    assert_eq!(executor.next_ready(), None);
}

#[test]
fn task_woken_once_is_polled_once_and_completes() {
    let mut executor = Executor::new();
    let mut stream: ScanCodeStream<TaskId> = ScanCodeStream::new();
    let reader = executor.spawn().unwrap();
    let mut polls = 0;
    let mut read = Vec::new();
    // first poll: nothing there, the task suspends
    assert_eq!(executor.next_ready(), Some(reader));
    polls += 1;
    assert_eq!(stream.poll_next(reader), Poll::Pending);
    assert_eq!(executor.next_ready(), None);
    // the wake source is signalled exactly once
    let response = keyboard_interrupt(&mut stream, &mut executor, 0x1e);
    assert_eq!(response, KeyboardResponse { dropped: false, end_of_interrupt: 33 });
    while let Some(id) = executor.next_ready() {
        assert_eq!(id, reader);
        polls += 1;
        if let Poll::Ready(byte) = stream.poll_next(id) {
            read.push(byte);
            executor.complete(id);
        }
    }
    assert_eq!(polls, 2);
    assert_eq!(read, vec![0x1e]);
    assert!(!executor.is_live(reader));
}

#[test]
fn spurious_wake_leaves_the_task_suspended() {
    let mut executor = Executor::new();
    let mut stream: ScanCodeStream<TaskId> = ScanCodeStream::new();
    let reader = executor.spawn().unwrap();
    assert_eq!(executor.next_ready(), Some(reader));
    assert_eq!(stream.poll_next(reader), Poll::Pending);
    executor.wake(reader);
    assert_eq!(executor.next_ready(), Some(reader));
    assert_eq!(stream.poll_next(reader), Poll::Pending);
    assert_eq!(executor.next_ready(), None);
    assert!(executor.is_live(reader));
    // the registration survived: the next scancode wakes the task
    keyboard_interrupt(&mut stream, &mut executor, 7);
    assert_eq!(executor.next_ready(), Some(reader));
    assert_eq!(stream.poll_next(reader), Poll::Ready(7));
}

#[test]
fn immediate_task_completes_and_reader_stays_suspended() {
    let mut executor = Executor::new();
    let mut stream: ScanCodeStream<TaskId> = ScanCodeStream::new();
    let reader = executor.spawn().unwrap();
    let immediate = executor.spawn().unwrap();
    let mut completed = Vec::new();
    let mut halts = 0;
    for _ in 0..10 {
        match executor.next_ready() {
            Some(id) if id == immediate => {
                completed.push(id);
                executor.complete(id);
            },
            Some(id) => {
                if let Poll::Ready(_) = stream.poll_next(id) {
                    completed.push(id);
                    executor.complete(id);
                }
            },
            None => halts += 1,
        }
    }
    assert_eq!(completed, vec![immediate]);
    assert_eq!(halts, 8);
    assert!(executor.is_live(reader));
    assert!(!executor.is_live(immediate));
    assert!(executor.is_idle());
}

#[test]
fn dropped_scancode_wakes_nobody() {
    let mut executor = Executor::new();
    let mut stream: ScanCodeStream<TaskId> = ScanCodeStream::new();
    let reader = executor.spawn().unwrap();
    assert_eq!(executor.next_ready(), Some(reader));
    for i in 0..100 {
        assert!(!keyboard_interrupt(&mut stream, &mut executor, i).dropped);
    }
    assert!(executor.is_idle());
    let response = keyboard_interrupt(&mut stream, &mut executor, 100);
    assert_eq!(response, KeyboardResponse { dropped: true, end_of_interrupt: 33 });
    assert!(executor.is_idle());
}

#[test]
fn vectors_and_dispositions() {
    assert_eq!(InterruptIndex::Timer.as_u8(), 32);
    assert_eq!(InterruptIndex::Keyboard.as_u8(), 33);
    assert_eq!(u8::from(InterruptIndex::Keyboard), 33);
    assert_eq!(InterruptIndex::from_vector(32), Some(InterruptIndex::Timer));
    assert_eq!(InterruptIndex::from_vector(34), None);
    assert_eq!(timer_interrupt(), 32);
    assert_eq!(Handler::installed_at(3), Some(Handler::Breakpoint));
    assert_eq!(Handler::installed_at(8), Some(Handler::DoubleFault));
    assert_eq!(Handler::installed_at(14), Some(Handler::PageFault));
    assert_eq!(Handler::installed_at(33), Some(Handler::Keyboard));
    assert_eq!(Handler::installed_at(13), None);
    assert_eq!(Handler::Keyboard.vector(), 33);
    assert_eq!(Handler::Breakpoint.disposition(), Disposition::Resume);
    assert_eq!(Handler::Timer.disposition(), Disposition::Resume);
    assert_eq!(Handler::DoubleFault.disposition(), Disposition::Halt);
    assert_eq!(Handler::PageFault.disposition(), Disposition::Halt);
    assert_eq!(Handler::DoubleFault.stack_index(), Some(0));
    assert_eq!(Handler::PageFault.stack_index(), None);
    assert_eq!(Handler::Timer.end_of_interrupt(), Some(32));
    assert_eq!(Handler::Keyboard.end_of_interrupt(), Some(33));
    assert_eq!(Handler::Breakpoint.end_of_interrupt(), None);
    assert_eq!(rust_os::gdt::interrupt_stack_top(0x8000), Some(0x8000 + 5 * 4096));
    assert_eq!(rust_os::gdt::interrupt_stack_top(u64::MAX - 100), None);
}

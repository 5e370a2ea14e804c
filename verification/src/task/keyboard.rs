//! The bridge between the keyboard interrupt and the task that reads keys.
//!
//! The interrupt handler is the only producer: it adds one scancode per
//! interrupt and never waits. The consuming task is the only reader: it takes
//! scancodes in the order in which they came, and leaves its waker behind
//! when it finds none. The queue has a fixed capacity; a scancode that finds
//! it full is dropped.

use crossbeam_queue::ArrayQueue;
use pc_keyboard::layouts::Us104Key;
use pc_keyboard::{DecodedKey, HandleControl, KeyCode, KeyEvent, PS2Keyboard, ScancodeSet1};
use vstd::prelude::*;
use crate::task::Poll;

verus! {

/// Number of scancodes that the bridge holds at most.
pub const SCANCODE_QUEUE_CAPACITY: usize = 100;

/// `crossbeam_queue::ArrayQueue`: a queue of fixed capacity. What it holds is
/// spoken of through `queue_contents` and `queue_capacity`.
#[verifier::external_type_specification]
#[verifier::external_body]
#[verifier::reject_recursive_types(T)]
pub struct ExArrayQueue<T>(ArrayQueue<T>);

/// `pc_keyboard::KeyEvent`: a key going down or up, before the layout and
/// the modifiers make a key press of it.
#[verifier::external_type_specification]
#[verifier::external_body]
pub struct ExKeyEvent(KeyEvent);

/// The scancodes in a queue, oldest first.
pub uninterp spec fn queue_contents(queue: ArrayQueue<u8>) -> Seq<u8>;

/// The capacity that a queue was made with.
pub uninterp spec fn queue_capacity(queue: ArrayQueue<u8>) -> nat;

/// `crossbeam_queue::ArrayQueue::new`: an empty queue of the given capacity.
/// The call panics on a capacity of zero and on one so large that the next
/// power of two above it does not fit the queue's index type.
#[verifier::external_body]
fn queue_new(capacity: usize) -> (queue: ArrayQueue<u8>)
    requires
        0 < capacity < 0x8000_0000,
    ensures
        queue_contents(queue) == Seq::<u8>::empty(),
        queue_capacity(queue) == capacity,
{
    ArrayQueue::new(capacity)
}

/// `crossbeam_queue::ArrayQueue::push`: appends the value where the queue
/// holds fewer values than its capacity, and refuses it where the queue is
/// full. The result says whether the value was appended.
#[verifier::external_body]
fn queue_push(queue: &mut ArrayQueue<u8>, value: u8) -> (stored: bool)
    ensures
        queue_capacity(*final(queue)) == queue_capacity(*old(queue)),
        stored == (queue_contents(*old(queue)).len() < queue_capacity(*old(queue))),
        queue_contents(*final(queue)) == after_scancode(
            queue_contents(*old(queue)),
            queue_capacity(*old(queue)),
            value,
        ),
{
    queue.push(value).is_ok()
}

/// `crossbeam_queue::ArrayQueue::pop`: removes and returns the oldest value,
/// or returns `None` where the queue is empty.
#[verifier::external_body]
fn queue_pop(queue: &mut ArrayQueue<u8>) -> (res: Option<u8>)
    ensures
        queue_capacity(*final(queue)) == queue_capacity(*old(queue)),
        queue_contents(*old(queue)).len() == 0 ==> res is None && queue_contents(*final(queue))
            == queue_contents(*old(queue)),
        queue_contents(*old(queue)).len() > 0 ==> res == Some(queue_contents(*old(queue))[0])
            && queue_contents(*final(queue)) == queue_contents(*old(queue)).subrange(
            1,
            queue_contents(*old(queue)).len() as int,
        ),
{
    queue.pop()
}

/// What a queue of capacity `capacity` holds after `scancode` came in.
pub open spec fn after_scancode(pending: Seq<u8>, capacity: nat, scancode: u8) -> Seq<u8> {
    if pending.len() < capacity {
        pending.push(scancode)
    } else {
        pending
    }
}

/// What a queue of capacity `capacity` holds after the scancodes came in,
/// one after the other.
pub open spec fn after_scancodes(pending: Seq<u8>, capacity: nat, scancodes: Seq<u8>) -> Seq<u8>
    decreases scancodes.len(),
{
    if scancodes.len() == 0 {
        pending
    } else {
        after_scancodes(
            after_scancode(pending, capacity, scancodes[0]),
            capacity,
            scancodes.subrange(1, scancodes.len() as int),
        )
    }
}

/// What a queue holds after `k` scancodes were taken from it.
pub open spec fn after_polls(pending: Seq<u8>, k: nat) -> Seq<u8>
    decreases k,
{
    if k == 0 || pending.len() == 0 {
        pending
    } else {
        after_polls(pending.subrange(1, pending.len() as int), (k - 1) as nat)
    }
}

/// What became of a scancode that the interrupt handler handed in.
#[derive(Debug)]
pub enum ScancodeOutcome<W> {
    /// It is in the queue. `wake` is the waker that was registered, which is
    /// now to be notified and is registered no more.
    Queued { wake: Option<W> },
    /// The queue was full: the scancode is lost, which is worth a warning.
    Dropped,
}

/// The bridge: the queue of scancodes and the waker of the task that waits
/// for them.
pub struct ScanCodeStream<W> {
    queue: ArrayQueue<u8>,
    waker: Option<W>,
}

impl<W> ScanCodeStream<W> {
    /// The scancodes that wait to be read, oldest first.
    pub closed spec fn pending(self) -> Seq<u8> {
        queue_contents(self.queue)
    }

    /// Number of scancodes that the bridge holds at most.
    pub closed spec fn capacity(self) -> nat {
        queue_capacity(self.queue)
    }

    /// The waker that the next scancode will notify.
    pub closed spec fn registered(self) -> Option<W> {
        self.waker
    }

    /// An empty bridge with room for `SCANCODE_QUEUE_CAPACITY` scancodes and
    /// no waker registered.
    pub fn new() -> (stream: ScanCodeStream<W>)
        ensures
            stream.pending() == Seq::<u8>::empty(),
            stream.capacity() == SCANCODE_QUEUE_CAPACITY,
            stream.registered() is None,
    {
        ScanCodeStream { queue: queue_new(SCANCODE_QUEUE_CAPACITY), waker: None }
    }

    /// The producer's side: stores `scancode` and takes the registered waker
    /// out for the caller to notify. Where the queue is full the scancode is
    /// dropped and the waker stays registered. Never waits.
    pub fn add_scancode(&mut self, scancode: u8) -> (outcome: ScancodeOutcome<W>)
        ensures
            final(self).capacity() == old(self).capacity(),
            final(self).pending() == after_scancode(
                old(self).pending(),
                old(self).capacity(),
                scancode,
            ),
            match outcome {
                ScancodeOutcome::Queued { wake } => {
                    &&& old(self).pending().len() < old(self).capacity()
                    &&& wake == old(self).registered()
                    &&& final(self).registered() is None
                },
                ScancodeOutcome::Dropped => {
                    &&& old(self).pending().len() >= old(self).capacity()
                    &&& final(self).registered() == old(self).registered()
                },
            },
    {
        if queue_push(&mut self.queue, scancode) {
            ScancodeOutcome::Queued { wake: self.waker.take() }
        } else {
            ScancodeOutcome::Dropped
        }
    }

    /// The consumer's side: takes the oldest scancode. Where there is none,
    /// `waker` is registered in place of any earlier one, and the queue is
    /// looked at once more before the task is told to wait, so that a
    /// scancode that came in between is not left behind.
    pub fn poll_next(&mut self, waker: W) -> (polled: Poll<u8>)
        ensures
            final(self).capacity() == old(self).capacity(),
            match polled {
                Poll::Ready(scancode) => {
                    &&& old(self).pending().len() > 0
                    &&& scancode == old(self).pending()[0]
                    &&& final(self).pending() == old(self).pending().subrange(
                        1,
                        old(self).pending().len() as int,
                    )
                    &&& final(self).registered() == old(self).registered()
                },
                Poll::Pending => {
                    &&& old(self).pending().len() == 0
                    &&& final(self).pending() == old(self).pending()
                    &&& final(self).registered() == Some(waker)
                },
            },
    {
        if let Some(scancode) = queue_pop(&mut self.queue) {
            return Poll::Ready(scancode);
        }
        self.waker = Some(waker);
        match queue_pop(&mut self.queue) {
            Some(scancode) => {
                self.waker = None;
                Poll::Ready(scancode)
            },
            None => Poll::Pending,
        }
    }
}

/// A key without a character of its own. The keys that the kernel treats
/// specially have their names; any other is known by the number of its key
/// code.
#[derive(Clone, Copy, Debug, PartialEq, Eq, Structural)]
pub enum RawKey {
    Escape,
    ArrowUp,
    ArrowDown,
    ArrowLeft,
    ArrowRight,
    Backspace,
    Return,
    Other(u8),
}

/// A key press as the decoder reports it.
#[derive(Clone, Copy, Debug, PartialEq, Eq, Structural)]
pub enum Key {
    /// A key that stands for a character, modifiers applied.
    Unicode(char),
    /// A key that stands for none.
    Raw(RawKey),
}

/// What a scancode amounts to.
#[derive(Clone, Copy, Debug, PartialEq, Eq, Structural)]
pub enum Decoded {
    /// Nothing yet: the scancode is part of a longer sequence, or it only
    /// changed the state of a modifier, or a key was released.
    Nothing,
    /// A key was pressed.
    Key(Key),
    /// The scancode does not belong where it came.
    Invalid,
}

/// A key going down or up, as plain values: the number of the key's code,
/// and the number of the state that the key went to.
pub struct Stroke {
    pub code: u8,
    pub state: u8,
}

/// What feeding a scancode to the decoder yields, as plain values.
pub enum ByteResult {
    /// The scancode is part of a sequence that is not complete.
    Incomplete,
    /// The scancode does not belong where it came.
    Invalid,
    /// The scancode completes the report of a key going down or up.
    Event(Stroke),
}

/// What `add_byte` made of a scancode.
enum ByteOutcome {
    Incomplete,
    Event(KeyEvent),
    Invalid,
}

/// The decoder of the keyboard's scancodes: a `pc_keyboard::PS2Keyboard`
/// for scancode set 1 and the US layout with 104 keys. Its inside is not
/// known here; what it does follows from the scancodes that it was fed
/// and the key events that it has worked off.
#[verifier::external_body]
pub struct KeyDecoder {
    keyboard: PS2Keyboard<Us104Key, ScancodeSet1>,
}

/// The scancodes that a decoder was fed since it was made, oldest first.
pub uninterp spec fn decoder_fed(decoder: KeyDecoder) -> Seq<u8>;

/// The key events that a decoder has worked off since it was made, oldest
/// first.
pub uninterp spec fn decoder_seen(decoder: KeyDecoder) -> Seq<Stroke>;

/// A key event as plain values.
pub uninterp spec fn stroke_of(event: KeyEvent) -> Stroke;

/// What `add_byte` yields for `scancode` on a decoder for scancode set 1
/// that was fed `fed` before.
pub uninterp spec fn byte_result(fed: Seq<u8>, scancode: u8) -> ByteResult;

/// The key press that `process_keyevent` makes of `stroke` on a decoder
/// for the US layout that has worked off `seen` before, the control key
/// left alone.
pub uninterp spec fn key_result(seen: Seq<Stroke>, stroke: Stroke) -> Option<Key>;

/// What `add_byte` made of a scancode, as plain values.
spec fn outcome_view(outcome: ByteOutcome) -> ByteResult {
    match outcome {
        ByteOutcome::Incomplete => ByteResult::Incomplete,
        ByteOutcome::Invalid => ByteResult::Invalid,
        ByteOutcome::Event(event) => ByteResult::Event(stroke_of(event)),
    }
}

/// `pc_keyboard::PS2Keyboard::new` for scancode set 1 and the US layout
/// with 104 keys, the control key left alone: a decoder that was fed
/// nothing and has worked off nothing.
#[verifier::external_body]
fn decoder_new() -> (decoder: KeyDecoder)
    ensures
        decoder_fed(decoder) == Seq::<u8>::empty(),
        decoder_seen(decoder) == Seq::<Stroke>::empty(),
{
    KeyDecoder { keyboard: PS2Keyboard::new(ScancodeSet1::new(), Us104Key, HandleControl::Ignore) }
}

/// `pc_keyboard::PS2Keyboard::add_byte`: feeds one scancode to the decoder.
/// What comes of it is settled by the scancodes that were fed before: the
/// call advances the state machine of the scancode set and touches nothing
/// else.
#[verifier::external_body]
fn decoder_add_byte(decoder: &mut KeyDecoder, scancode: u8) -> (outcome: ByteOutcome)
    ensures
        decoder_fed(*final(decoder)) == decoder_fed(*old(decoder)).push(scancode),
        decoder_seen(*final(decoder)) == decoder_seen(*old(decoder)),
        outcome_view(outcome) == byte_result(decoder_fed(*old(decoder)), scancode),
{
    match decoder.keyboard.add_byte(scancode) {
        Ok(Some(event)) => ByteOutcome::Event(event),
        Ok(None) => ByteOutcome::Incomplete,
        Err(_) => ByteOutcome::Invalid,
    }
}

/// `pc_keyboard::PS2Keyboard::process_keyevent`: turns a key event into a
/// key press, if it is one, the key named as it is named here. What comes
/// of it is settled by the key events that were worked off before: the call
/// reads and sets the modifiers and touches nothing else.
#[verifier::external_body]
fn decoder_process(decoder: &mut KeyDecoder, event: KeyEvent) -> (key: Option<Key>)
    ensures
        decoder_fed(*final(decoder)) == decoder_fed(*old(decoder)),
        decoder_seen(*final(decoder)) == decoder_seen(*old(decoder)).push(stroke_of(event)),
        key == key_result(decoder_seen(*old(decoder)), stroke_of(event)),
{
    Some(match decoder.keyboard.process_keyevent(event)? {
        DecodedKey::Unicode(c) => Key::Unicode(c),
        DecodedKey::RawKey(KeyCode::Escape) => Key::Raw(RawKey::Escape),
        DecodedKey::RawKey(KeyCode::ArrowUp) => Key::Raw(RawKey::ArrowUp),
        DecodedKey::RawKey(KeyCode::ArrowDown) => Key::Raw(RawKey::ArrowDown),
        DecodedKey::RawKey(KeyCode::ArrowLeft) => Key::Raw(RawKey::ArrowLeft),
        DecodedKey::RawKey(KeyCode::ArrowRight) => Key::Raw(RawKey::ArrowRight),
        DecodedKey::RawKey(KeyCode::Backspace) => Key::Raw(RawKey::Backspace),
        DecodedKey::RawKey(KeyCode::Return) => Key::Raw(RawKey::Return),
        DecodedKey::RawKey(code) => Key::Raw(RawKey::Other(code as u8)),
    })
}

/// What a scancode amounts to for a decoder that was fed `fed` and has
/// worked off `seen`: nothing where it completes no key event, or one that
/// is no key press; the key press that the key event makes; or that the
/// scancode does not belong there.
pub open spec fn decoded(fed: Seq<u8>, seen: Seq<Stroke>, scancode: u8) -> Decoded {
    match byte_result(fed, scancode) {
        ByteResult::Incomplete => Decoded::Nothing,
        ByteResult::Invalid => Decoded::Invalid,
        ByteResult::Event(stroke) => match key_result(seen, stroke) {
            Some(key) => Decoded::Key(key),
            None => Decoded::Nothing,
        },
    }
}

/// The key events that a decoder has worked off after it took a scancode:
/// one more where the scancode completes a key event.
pub open spec fn seen_after(fed: Seq<u8>, seen: Seq<Stroke>, scancode: u8) -> Seq<Stroke> {
    match byte_result(fed, scancode) {
        ByteResult::Event(stroke) => seen.push(stroke),
        _ => seen,
    }
}

impl KeyDecoder {
    /// The scancodes that the decoder was fed, oldest first.
    pub open spec fn fed(self) -> Seq<u8> {
        decoder_fed(self)
    }

    /// The key events that the decoder has worked off, oldest first.
    pub open spec fn seen(self) -> Seq<Stroke> {
        decoder_seen(self)
    }

    /// A decoder for scancode set 1 and the US layout that was fed nothing
    /// yet.
    pub fn new() -> (decoder: KeyDecoder)
        ensures
            decoder.fed() == Seq::<u8>::empty(),
            decoder.seen() == Seq::<Stroke>::empty(),
    {
        decoder_new()
    }

    /// Feeds one scancode to the decoder and reports what it amounts to.
    /// A key event that the scancode completes is worked off at once.
    pub fn decode(&mut self, scancode: u8) -> (what: Decoded)
        ensures
            final(self).fed() == old(self).fed().push(scancode),
            final(self).seen() == seen_after(old(self).fed(), old(self).seen(), scancode),
            what == decoded(old(self).fed(), old(self).seen(), scancode),
    {
        match decoder_add_byte(self, scancode) {
            ByteOutcome::Incomplete => Decoded::Nothing,
            ByteOutcome::Invalid => Decoded::Invalid,
            ByteOutcome::Event(event) => match decoder_process(self, event) {
                Some(key) => Decoded::Key(key),
                None => Decoded::Nothing,
            },
        }
    }
}

/// Scancodes that come in while there is room are all kept, in their order.
pub proof fn lemma_scancodes_kept(pending: Seq<u8>, capacity: nat, scancodes: Seq<u8>)
    requires
        pending.len() + scancodes.len() <= capacity,
    ensures
        after_scancodes(pending, capacity, scancodes) == pending + scancodes,
    decreases scancodes.len(),
{
    if scancodes.len() == 0 {
        assert(pending + scancodes =~= pending);
    } else {
        let rest = scancodes.subrange(1, scancodes.len() as int);
        lemma_scancodes_kept(pending.push(scancodes[0]), capacity, rest);
        assert(pending.push(scancodes[0]) + rest =~= pending + scancodes);
    }
}

/// Scancodes that come in when the queue is full change nothing.
pub proof fn lemma_scancodes_dropped(pending: Seq<u8>, capacity: nat, scancodes: Seq<u8>)
    requires
        pending.len() >= capacity,
    ensures
        after_scancodes(pending, capacity, scancodes) == pending,
    decreases scancodes.len(),
{
    if scancodes.len() > 0 {
        lemma_scancodes_dropped(pending, capacity, scancodes.subrange(1, scancodes.len() as int));
    }
}

/// Scancodes are taken in the order in which they wait: after `k` of them
/// were taken, the next is the one that stood at place `k`.
pub proof fn lemma_polls_in_order(pending: Seq<u8>, k: nat)
    requires
        k <= pending.len(),
    ensures
        after_polls(pending, k) == pending.subrange(k as int, pending.len() as int),
        k < pending.len() ==> after_polls(pending, k)[0] == pending[k as int],
    decreases k,
{
    if k == 0 || pending.len() == 0 {
        assert(pending.subrange(0, pending.len() as int) =~= pending);
    } else {
        let rest = pending.subrange(1, pending.len() as int);
        lemma_polls_in_order(rest, (k - 1) as nat);
        assert(rest.subrange(k - 1, rest.len() as int) =~= pending.subrange(
            k as int,
            pending.len() as int,
        ));
    }
}

/// Scancodes that are put into an empty queue with room for all of them
/// come out again, each at its place.
pub proof fn lemma_in_and_out(capacity: nat, scancodes: Seq<u8>, k: nat)
    requires
        k < scancodes.len() <= capacity,
    ensures
        after_polls(after_scancodes(Seq::empty(), capacity, scancodes), k)[0] == scancodes[k as int],
{
    lemma_scancodes_kept(Seq::empty(), capacity, scancodes);
    assert(Seq::<u8>::empty() + scancodes =~= scancodes);
    lemma_polls_in_order(scancodes, k);
}

/// An empty queue that is fed more scancodes than it has room for keeps the
/// first `capacity` of them and drops exactly the rest.
pub proof fn lemma_overflow_keeps_first(capacity: nat, scancodes: Seq<u8>)
    ensures
        after_scancodes(Seq::empty(), capacity, scancodes) == if scancodes.len() <= capacity {
            scancodes
        } else {
            scancodes.subrange(0, capacity as int)
        },
{
    lemma_fill(Seq::empty(), capacity, scancodes);
    if scancodes.len() <= capacity {
        assert(Seq::<u8>::empty() + scancodes =~= scancodes);
    } else {
        assert(Seq::<u8>::empty() + scancodes.subrange(0, capacity as int) =~= scancodes.subrange(
            0,
            capacity as int,
        ));
    }
}

proof fn lemma_fill(pending: Seq<u8>, capacity: nat, scancodes: Seq<u8>)
    requires
        pending.len() <= capacity,
    ensures
        after_scancodes(pending, capacity, scancodes) == if pending.len() + scancodes.len()
            <= capacity {
            pending + scancodes
        } else {
            pending + scancodes.subrange(0, capacity - pending.len())
        },
    decreases scancodes.len(),
{
    if pending.len() + scancodes.len() <= capacity {
        lemma_scancodes_kept(pending, capacity, scancodes);
    } else if pending.len() == capacity {
        lemma_scancodes_dropped(pending, capacity, scancodes);
        assert(pending + scancodes.subrange(0, 0) =~= pending);
    } else {
        let rest = scancodes.subrange(1, scancodes.len() as int);
        let grown = pending.push(scancodes[0]);
        lemma_fill(grown, capacity, rest);
        assert(grown + rest.subrange(0, capacity - grown.len()) =~= pending + scancodes.subrange(
            0,
            capacity - pending.len(),
        ));
    }
}

} // verus!

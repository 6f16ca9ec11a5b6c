//! Cancellation and prefetching, as decisions over plain state.
//!
//! The asynchronous plumbing (the waiting, the channel, the runtime) is elsewhere: it performs the
//! actions that are decided here and reports back what happened.

use vstd::prelude::*;

use crate::error::{Error, Status};

verus! {

// ---------------------------------------------------------------------------------------------
// Cancellation
// ---------------------------------------------------------------------------------------------

pub open spec fn cancelled_message() -> Seq<char> {
    "operation cancelled"@
}

/// The error of every cancelled operation.
pub fn cancelled_err() -> (e: Error)
    ensures
        e.says(Status::Cancelled, cancelled_message()),
{
    Error::with_message_and_status("operation cancelled".to_owned(), Status::Cancelled)
}

/// What an operation returns: its own result, where it completed before its signal was latched, else
/// the cancellation.
pub fn settle<T>(completed: Option<Result<T, Error>>) -> (r: Result<T, Error>)
    ensures
        match completed {
            Some(result) => r == result,
            None => r is Err && r->Err_0.says(Status::Cancelled, cancelled_message()),
        },
{
    match completed {
        Some(result) => result,
        None => Err(cancelled_err()),
    }
}

/// The signal of an operation.
#[derive(Debug, Clone, Copy, PartialEq, Eq, Structural)]
pub struct Signal {
    /// Whether the operation was cancelled.
    pub latched: bool,
    /// Whether anybody still looks at the signal.
    pub held: bool,
}

/// The signals of an object's operations, as far as they are held. Every operation has a signal of
/// its own, and goes by the place of it; a place is used again once its signal is released. A
/// latched signal stays latched for as long as it is held: a new operation gets a new signal, and
/// never clears an earlier one.
#[derive(Debug)]
pub struct CancelSlot {
    signals: Vec<Signal>,
    current: usize,
}

pub struct SlotView {
    pub signals: Seq<Signal>,
    /// The place of the current operation's signal.
    pub current: int,
}

impl SlotView {
    /// There always is a current operation, and its signal is held.
    pub open spec fn is_well_formed(self) -> bool {
        0 <= self.current < self.signals.len() && self.signals[self.current].held
    }

    /// Whether an operation has a signal here.
    pub open spec fn holds(self, operation: int) -> bool {
        0 <= operation < self.signals.len() && self.signals[operation].held
    }
}

/// The first place at or after `i` whose signal nobody holds, or the end.
pub open spec fn free_place(signals: Seq<Signal>, i: int) -> int
    decreases signals.len() - i,
{
    if i >= signals.len() {
        signals.len() as int
    } else if !signals[i].held {
        i
    } else {
        free_place(signals, i + 1)
    }
}

/// The slot after an operation began: a fresh signal, at the first free place, is the current one.
pub open spec fn begun(slot: SlotView) -> SlotView {
    let place = free_place(slot.signals, 0);
    let fresh = Signal { latched: false, held: true };
    SlotView {
        signals: if place < slot.signals.len() {
            slot.signals.update(place, fresh)
        } else {
            slot.signals.push(fresh)
        },
        current: place,
    }
}

/// The slot after its current operation was cancelled.
pub open spec fn signalled(slot: SlotView) -> SlotView {
    SlotView {
        signals: slot.signals.update(slot.current, Signal { latched: true, held: true }),
        ..slot
    }
}

/// The slot after the signal of a superseded operation was released.
pub open spec fn released(slot: SlotView, operation: int) -> SlotView {
    SlotView {
        signals: slot.signals.update(
            operation,
            Signal { held: false, ..slot.signals[operation] },
        ),
        ..slot
    }
}

proof fn lemma_free_place(signals: Seq<Signal>, i: int)
    requires
        0 <= i <= signals.len(),
    ensures
        i <= free_place(signals, i) <= signals.len(),
        free_place(signals, i) < signals.len() ==> !signals[free_place(signals, i)].held,
    decreases signals.len() - i,
{
    if i < signals.len() && signals[i].held {
        lemma_free_place(signals, i + 1);
    }
}

impl View for CancelSlot {
    type V = SlotView;

    closed spec fn view(&self) -> SlotView {
        SlotView { signals: self.signals@, current: self.current as int }
    }
}

impl CancelSlot {
    pub open spec fn is_well_formed(&self) -> bool {
        self@.is_well_formed()
    }

    /// An object with one signal, not latched.
    pub fn new() -> (r: CancelSlot)
        ensures
            r.is_well_formed(),
            r@.signals == seq![Signal { latched: false, held: true }],
            r@.current == 0,
    {
        let mut signals: Vec<Signal> = Vec::new();
        signals.push(Signal { latched: false, held: true });
        assert(signals@ =~= seq![Signal { latched: false, held: true }]);
        CancelSlot { signals, current: 0 }
    }

    /// Begins an operation: a fresh signal becomes the current one. The signals of earlier
    /// operations keep their state for as long as they are held.
    pub fn begin_operation(&mut self) -> (operation: usize)
        requires
            old(self).is_well_formed(),
        ensures
            final(self).is_well_formed(),
            final(self)@ == begun(old(self)@),
            operation == final(self)@.current,
    {
        let mut place: usize = 0;
        while place < self.signals.len() && self.signals[place].held
            invariant
                place <= self.signals@.len(),
                free_place(self.signals@, place as int) == free_place(self.signals@, 0),
                *self == *old(self),
            decreases self.signals@.len() - place,
        {
            place = place + 1;
        }
        let fresh = Signal { latched: false, held: true };
        if place < self.signals.len() {
            self.signals.set(place, fresh);
        } else {
            self.signals.push(fresh);
        }
        self.current = place;
        place
    }

    /// The current operation.
    pub fn current(&self) -> (operation: usize)
        requires
            self.is_well_formed(),
        ensures
            operation == self@.current,
    {
        self.current
    }

    /// Cancels the current operation, for good.
    pub fn signal(&mut self)
        requires
            old(self).is_well_formed(),
        ensures
            final(self).is_well_formed(),
            final(self)@ == signalled(old(self)@),
    {
        self.signals.set(self.current, Signal { latched: true, held: true });
    }

    /// Whether an operation was cancelled.
    pub fn is_cancelled(&self, operation: usize) -> (r: bool)
        requires
            self@.holds(operation as int),
        ensures
            r == self@.signals[operation as int].latched,
    {
        self.signals[operation].latched
    }

    /// Releases the signal of a superseded operation that nobody looks at any more. Its place may be
    /// used again.
    pub fn release(&mut self, operation: usize)
        requires
            old(self).is_well_formed(),
            old(self)@.holds(operation as int),
            operation != old(self)@.current,
        ensures
            final(self).is_well_formed(),
            final(self)@ == released(old(self)@, operation as int),
    {
        let signal = self.signals[operation];
        self.signals.set(operation, Signal { latched: signal.latched, held: false });
    }
}

/// What happens to a slot.
pub enum SlotEvent {
    Begin,
    Cancel,
    /// The signal of an operation is released, if it is held and the operation superseded.
    Release(int),
}

/// The slot after an event.
pub open spec fn slot_after(slot: SlotView, event: SlotEvent) -> SlotView {
    match event {
        SlotEvent::Begin => begun(slot),
        SlotEvent::Cancel => signalled(slot),
        SlotEvent::Release(operation) => if slot.holds(operation) && operation != slot.current {
            released(slot, operation)
        } else {
            slot
        },
    }
}

/// The slot after a sequence of events.
pub open spec fn slot_after_all(slot: SlotView, events: Seq<SlotEvent>) -> SlotView
    decreases events.len(),
{
    if events.len() == 0 {
        slot
    } else {
        slot_after(slot_after_all(slot, events.drop_last()), events.last())
    }
}

/// Whether the signal of an operation is not released among the events.
pub open spec fn keeps(events: Seq<SlotEvent>, operation: int) -> bool {
    forall|i: int| 0 <= i < events.len() ==> #[trigger] events[i] != SlotEvent::Release(operation)
}

/// A slot has a current operation whatever happens.
pub proof fn lemma_slot_stays_well_formed(slot: SlotView, events: Seq<SlotEvent>)
    requires
        slot.is_well_formed(),
    ensures
        slot_after_all(slot, events).is_well_formed(),
    decreases events.len(),
{
    if events.len() > 0 {
        let before = slot_after_all(slot, events.drop_last());
        lemma_slot_stays_well_formed(slot, events.drop_last());
        lemma_free_place(before.signals, 0);
    }
}

/// While the signal of an operation is held, a latched one stays latched whatever happens, and that
/// of an operation that has been superseded keeps the state it had: a later cancel does not reach
/// it, and a later operation does not revive it.
pub proof fn lemma_cancellation_is_sticky(
    slot: SlotView,
    events: Seq<SlotEvent>,
    operation: int,
)
    requires
        slot.is_well_formed(),
        slot.holds(operation),
        keeps(events, operation),
    ensures
        slot_after_all(slot, events).holds(operation),
        slot.signals[operation].latched ==> slot_after_all(slot, events).signals[operation].latched,
        operation != slot.current ==> slot_after_all(slot, events).current != operation
            && slot_after_all(slot, events).signals[operation] == slot.signals[operation],
    decreases events.len(),
{
    if events.len() > 0 {
        let before = slot_after_all(slot, events.drop_last());
        assert(keeps(events.drop_last(), operation)) by {
            assert forall|i: int| 0 <= i < events.drop_last().len() implies (
            #[trigger] events.drop_last()[i]) != SlotEvent::Release(operation) by {
                assert(events.drop_last()[i] == events[i]);
            }
        }
        assert(events[events.len() - 1] != SlotEvent::Release(operation));
        lemma_slot_stays_well_formed(slot, events.drop_last());
        lemma_cancellation_is_sticky(slot, events.drop_last(), operation);
        lemma_free_place(before.signals, 0);
    }
}

/// A cancel before an operation begins does not reach that operation: its signal is not latched,
/// and only a cancel after it began latches it.
pub proof fn lemma_fresh_operation_is_not_cancelled(slot: SlotView, earlier: Seq<SlotEvent>)
    requires
        slot.is_well_formed(),
    ensures
        ({
            let fresh = slot_after_all(slot, earlier.push(SlotEvent::Begin));
            let cancelled = slot_after_all(
                slot,
                earlier.push(SlotEvent::Begin).push(SlotEvent::Cancel),
            );
            &&& !fresh.signals[fresh.current].latched
            &&& cancelled.current == fresh.current
            &&& cancelled.signals[fresh.current].latched
        }),
{
    let start = slot_after_all(slot, earlier);
    let begins = earlier.push(SlotEvent::Begin);
    let cancels = begins.push(SlotEvent::Cancel);
    lemma_slot_stays_well_formed(slot, earlier);
    lemma_free_place(start.signals, 0);
    assert(begins.drop_last() =~= earlier);
    assert(cancels.drop_last() =~= begins);
    assert(slot_after_all(slot, begins) == begun(start));
    assert(slot_after_all(slot, cancels) == signalled(begun(start)));
}

/// An operation that was cancelled and then superseded stays cancelled for good, whatever comes
/// later, for as long as its signal is held; the one that superseded it is not cancelled, and a
/// later cancel reaches that one alone.
pub proof fn lemma_superseded_operation_stays_cancelled(
    slot: SlotView,
    earlier: Seq<SlotEvent>,
    later: Seq<SlotEvent>,
)
    requires
        slot.is_well_formed(),
        keeps(later, begun(slot_after_all(slot, earlier)).current),
    ensures
        ({
            let start = slot_after_all(slot, earlier);
            let old_operation = begun(start).current;
            let after = begun(signalled(begun(start)));
            let fresh = after.current;
            &&& slot_after_all(
                slot,
                earlier.push(SlotEvent::Begin).push(SlotEvent::Cancel).push(SlotEvent::Begin),
            ) == after
            &&& old_operation != fresh
            &&& after.holds(old_operation)
            &&& after.signals[old_operation].latched
            &&& after.holds(fresh)
            &&& !after.signals[fresh].latched
            &&& slot_after_all(after, later).signals[old_operation].latched
            &&& signalled(after).signals[fresh].latched
            &&& forall|i: int|
                0 <= i < after.signals.len() && i != fresh ==> #[trigger] signalled(
                    after,
                ).signals[i] == after.signals[i]
        }),
{
    let start = slot_after_all(slot, earlier);
    lemma_slot_stays_well_formed(slot, earlier);
    let first = earlier.push(SlotEvent::Begin);
    let second = first.push(SlotEvent::Cancel);
    let third = second.push(SlotEvent::Begin);
    assert(first.drop_last() =~= earlier);
    assert(second.drop_last() =~= first);
    assert(third.drop_last() =~= second);
    lemma_free_place(start.signals, 0);
    let cancelled = signalled(begun(start));
    assert(slot_after_all(slot, first) == begun(start));
    assert(slot_after_all(slot, second) == cancelled);
    assert(slot_after_all(slot, third) == begun(cancelled));
    lemma_free_place(cancelled.signals, 0);
    lemma_cancellation_is_sticky(begun(cancelled), later, begun(start).current);
}

// ---------------------------------------------------------------------------------------------
// Prefetching
// ---------------------------------------------------------------------------------------------

/// What a prefetch task is waiting for.
#[derive(Debug, Clone, Copy, PartialEq, Eq, Structural)]
pub enum PrefetchState {
    /// The next chunk of the source.
    Fetching,
    /// Room in the channel for the chunk it holds.
    Sending,
    /// Nothing: the task has ended, which closes the channel.
    Ended,
}

/// What a prefetch task is told. A latched cancellation is reported before anything else.
pub enum PrefetchEvent<R> {
    /// The operation was cancelled.
    Cancelled,
    /// The source delivered a chunk; an empty one means it is drained.
    Pulled(Vec<R>),
    /// The source failed.
    PullFailed(Error),
    /// The channel took the chunk.
    Sent,
    /// The receiver is gone.
    ReceiverDropped,
}

/// What a prefetch task does next.
pub enum PrefetchAction<R> {
    /// Pull the next chunk.
    Fetch,
    /// Send the chunk, waiting for room.
    Send(Vec<R>),
    /// Send the error, waiting for room, and end.
    SendError(Error),
    /// Send the error if there is room, and end.
    TrySendError(Error),
    /// End.
    Stop,
}

/// Whether a task in `state` can be told of `event`.
pub open spec fn expects<R>(state: PrefetchState, event: PrefetchEvent<R>) -> bool {
    match event {
        PrefetchEvent::Cancelled => state != PrefetchState::Ended,
        PrefetchEvent::Pulled(_) => state == PrefetchState::Fetching,
        PrefetchEvent::PullFailed(_) => state == PrefetchState::Fetching,
        PrefetchEvent::Sent => state == PrefetchState::Sending,
        PrefetchEvent::ReceiverDropped => state == PrefetchState::Sending,
    }
}

/// The state after `event`.
pub open spec fn prefetch_after<R>(state: PrefetchState, event: PrefetchEvent<R>) -> PrefetchState {
    match event {
        PrefetchEvent::Pulled(rows) => if rows@.len() == 0 {
            PrefetchState::Ended
        } else {
            PrefetchState::Sending
        },
        PrefetchEvent::Sent => PrefetchState::Fetching,
        _ => PrefetchState::Ended,
    }
}

/// Whether `action` is what follows from `event` in `state`.
pub open spec fn follows<R>(
    state: PrefetchState,
    event: PrefetchEvent<R>,
    action: PrefetchAction<R>,
) -> bool {
    match event {
        PrefetchEvent::Cancelled => if state == PrefetchState::Fetching {
            match action {
                PrefetchAction::TrySendError(e) => e.says(Status::Cancelled, cancelled_message()),
                _ => false,
            }
        } else {
            action is Stop
        },
        PrefetchEvent::Pulled(rows) => if rows@.len() == 0 {
            action is Stop
        } else {
            action == PrefetchAction::<R>::Send(rows)
        },
        PrefetchEvent::PullFailed(e) => action == PrefetchAction::<R>::SendError(e),
        PrefetchEvent::Sent => action is Fetch,
        PrefetchEvent::ReceiverDropped => action is Stop,
    }
}

/// One step of a prefetch task: it pulls chunk after chunk and sends each, until the source is
/// drained or fails, the receiver is gone, or the operation is cancelled. A cancellation while a
/// fetch is in flight is surfaced as far as there is room; one while a send is waiting is not,
/// since the receiver looks at the same signal.
pub fn prefetch_step<R>(state: PrefetchState, event: PrefetchEvent<R>) -> (r: (
    PrefetchState,
    PrefetchAction<R>,
))
    requires
        expects(state, event),
    ensures
        r.0 == prefetch_after(state, event),
        follows(state, event, r.1),
{
    match event {
        PrefetchEvent::Cancelled => match state {
            PrefetchState::Fetching => (
                PrefetchState::Ended,
                PrefetchAction::TrySendError(cancelled_err()),
            ),
            _ => (PrefetchState::Ended, PrefetchAction::Stop),
        },
        PrefetchEvent::Pulled(rows) => {
            if rows.len() == 0 {
                (PrefetchState::Ended, PrefetchAction::Stop)
            } else {
                (PrefetchState::Sending, PrefetchAction::Send(rows))
            }
        },
        PrefetchEvent::PullFailed(e) => (PrefetchState::Ended, PrefetchAction::SendError(e)),
        PrefetchEvent::Sent => (PrefetchState::Fetching, PrefetchAction::Fetch),
        PrefetchEvent::ReceiverDropped => (PrefetchState::Ended, PrefetchAction::Stop),
    }
}

/// The state after a sequence of events.
pub open spec fn prefetch_after_all<R>(state: PrefetchState, events: Seq<PrefetchEvent<R>>) -> PrefetchState
    decreases events.len(),
{
    if events.len() == 0 {
        state
    } else {
        prefetch_after(prefetch_after_all(state, events.drop_last()), events.last())
    }
}

/// Whether a task that starts in `state` can be told of `events` one after the other.
pub open spec fn is_run<R>(state: PrefetchState, events: Seq<PrefetchEvent<R>>) -> bool
    decreases events.len(),
{
    events.len() > 0 ==> is_run(state, events.drop_last()) && expects(
        prefetch_after_all(state, events.drop_last()),
        events.last(),
    )
}

/// The chunks that a sequence of events makes a task send.
pub open spec fn sent_chunks<R>(events: Seq<PrefetchEvent<R>>) -> Seq<Seq<R>>
    decreases events.len(),
{
    if events.len() == 0 {
        Seq::empty()
    } else {
        let sent = sent_chunks(events.drop_last());
        match events.last() {
            PrefetchEvent::Pulled(rows) => if rows@.len() == 0 {
                sent
            } else {
                sent.push(rows@)
            },
            _ => sent,
        }
    }
}

/// A task sends at most one chunk more than the channel has taken, so that at most one chunk is in
/// its hands, and it sends no empty chunk.
pub proof fn lemma_prefetch_holds_one_chunk<R>(events: Seq<PrefetchEvent<R>>)
    requires
        is_run(PrefetchState::Fetching, events),
    ensures
        sent_chunks(events).len() <= taken(events) + 1,
        prefetch_after_all(PrefetchState::Fetching, events) == PrefetchState::Fetching
            ==> sent_chunks(events).len() == taken(events),
        prefetch_after_all(PrefetchState::Fetching, events) == PrefetchState::Sending
            ==> sent_chunks(events).len() == taken(events) + 1,
        forall|i: int| 0 <= i < sent_chunks(events).len() ==> (#[trigger] sent_chunks(events)[i]).len() > 0,
    decreases events.len(),
{
    if events.len() > 0 {
        lemma_prefetch_holds_one_chunk(events.drop_last());
    }
}

/// The number of chunks that the channel took.
pub open spec fn taken<R>(events: Seq<PrefetchEvent<R>>) -> nat
    decreases events.len(),
{
    if events.len() == 0 {
        0
    } else {
        taken(events.drop_last()) + if events.last() is Sent {
            1nat
        } else {
            0nat
        }
    }
}

/// A task that has ended is told of nothing more.
pub proof fn lemma_prefetch_ends_for_good<R>(
    events: Seq<PrefetchEvent<R>>,
    next: PrefetchEvent<R>,
)
    requires
        prefetch_after_all(PrefetchState::Fetching, events) == PrefetchState::Ended,
    ensures
        !is_run(PrefetchState::Fetching, events.push(next)),
{
    assert(events.push(next).drop_last() =~= events);
}

} // verus!

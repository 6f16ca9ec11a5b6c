//! What stands behind an exported handle, and how a call may reach it.
//!
//! A handle is empty before it is populated and after it is released. A populated one serves calls
//! until one of them panics: from then on it refuses them, since what the call was changing may be
//! torn. Cancelling is the exception, which neither waits for a call nor minds a panicked one.

use vstd::prelude::*;

use crate::error::{code_of, invalid_state, not_found, Error, Status};
use crate::guard::{caught_panic, missing_argument, missing_message, panic_text, PanicPayload};
use crate::options::OptionValue;
use crate::text::eq_str;

verus! {

// ---------------------------------------------------------------------------------------------
// Options before initialization
// ---------------------------------------------------------------------------------------------

/// The options set before an object is initialized, in the order in which their keys were first
/// set, each with its last value.
#[derive(Debug)]
pub struct OptionBuffer {
    pub entries: Vec<(String, OptionValue)>,
}

/// A buffered option.
pub type Entry = (Seq<char>, OptionValue);

impl View for OptionBuffer {
    type V = Seq<Entry>;

    open spec fn view(&self) -> Seq<Entry> {
        self.entries@.map_values(|e: (String, OptionValue)| (e.0@, e.1))
    }
}

/// The keys of buffered options.
pub open spec fn keys(entries: Seq<Entry>) -> Seq<Seq<char>> {
    entries.map_values(|e: Entry| e.0)
}

/// What setting `key` to `value` makes of buffered options: the value replaces an earlier one in
/// its place, and a new key comes last.
pub open spec fn buffered(entries: Seq<Entry>, key: Seq<char>, value: OptionValue) -> Seq<Entry> {
    if keys(entries).contains(key) {
        entries.update(keys(entries).index_of_first(key)->Some_0, (key, value))
    } else {
        entries.push((key, value))
    }
}

impl OptionBuffer {
    /// No options.
    pub fn new() -> (r: OptionBuffer)
        ensures
            r@ == Seq::<Entry>::empty(),
    {
        let r = OptionBuffer { entries: Vec::new() };
        assert(r@ =~= Seq::<Entry>::empty());
        r
    }

    /// Sets an option. The last value of a key wins, in the place of the first.
    pub fn set(&mut self, key: String, value: OptionValue)
        ensures
            final(self)@ == buffered(old(self)@, key@, value),
    {
        let ghost before = self@;
        let mut i: usize = 0;
        while i < self.entries.len()
            invariant
                i <= self.entries@.len(),
                self@ == before,
                before == old(self)@,
                forall|k: int| 0 <= k < i ==> keys(before)[k] != key@,
            decreases self.entries@.len() - i,
        {
            assert(keys(before)[i as int] == self.entries@[i as int].0@);
            if eq_str(self.entries[i].0.as_str(), key.as_str()) {
                proof {
                    assert(keys(before).contains(key@));
                    keys(before).index_of_first_ensures(key@);
                    assert(keys(before).index_of_first(key@)->Some_0 == i as int);
                }
                self.entries.set(i, (key, value));
                assert(self@ =~= before.update(i as int, (key@, value)));
                return ;
            }
            i = i + 1;
        }
        assert(!keys(before).contains(key@));
        self.entries.push((key, value));
        assert(self@ =~= before.push((key@, value)));
    }
}

/// Setting an option keeps every key once, in the order of its first setting; the key then has the
/// value, and every other key keeps its own.
pub proof fn lemma_last_write_wins(entries: Seq<Entry>, key: Seq<char>, value: OptionValue)
    requires
        keys(entries).no_duplicates(),
    ensures
        keys(buffered(entries, key, value)).no_duplicates(),
        keys(entries).contains(key) ==> keys(buffered(entries, key, value)) == keys(entries),
        !keys(entries).contains(key) ==> keys(buffered(entries, key, value)) == keys(entries).push(
            key,
        ),
        buffered(entries, key, value).contains((key, value)),
        forall|other: Entry|
            other.0 != key ==> (buffered(entries, key, value).contains(other)
                <==> #[trigger] entries.contains(other)),
{
    let after = buffered(entries, key, value);
    if keys(entries).contains(key) {
        keys(entries).index_of_first_ensures(key);
        let i = keys(entries).index_of_first(key)->Some_0;
        assert(entries[i].0 == key);
        assert(keys(after) =~= keys(entries));
        assert(after[i] == (key, value));
        assert forall|other: Entry| other.0 != key implies (after.contains(other)
            <==> #[trigger] entries.contains(other)) by {
            if entries.contains(other) {
                let k = choose|k: int| 0 <= k < entries.len() && entries[k] == other;
                assert(after[k] == other);
            }
            if after.contains(other) {
                let k = choose|k: int| 0 <= k < after.len() && after[k] == other;
                assert(entries[k] == other);
            }
        }
    } else {
        assert(keys(after) =~= keys(entries).push(key));
        assert(after.last() == (key, value));
        assert forall|other: Entry| other.0 != key implies (after.contains(other)
            <==> #[trigger] entries.contains(other)) by {
            if entries.contains(other) {
                let k = choose|k: int| 0 <= k < entries.len() && entries[k] == other;
                assert(after[k] == other);
            }
            if after.contains(other) {
                let k = choose|k: int| 0 <= k < after.len() && after[k] == other;
                assert(entries[k] == other);
            }
        }
    }
}

/// An object that is still collecting options, or initialized.
#[derive(Debug)]
pub enum Staged<S> {
    Pending(OptionBuffer),
    Ready(S),
}

pub open spec fn uninitialized_message(kind: Seq<char>) -> Seq<char> {
    kind + " is uninitialized or already released"@
}

pub open spec fn initialized_message(kind: Seq<char>) -> Seq<char> {
    kind + " is already initialized"@
}

pub open spec fn too_early_message(kind: Seq<char>, key: Seq<char>) -> Seq<char> {
    "Spanner "@ + kind + " option "@ + key + " cannot be read before the "@ + kind
        + " is initialized; initialize it first"@
}

/// The refusal of a handle without a usable object: one that is not initialized yet, or that was
/// released.
pub fn uninitialized(kind: &str) -> (e: Error)
    ensures
        e.says(Status::InvalidState, uninitialized_message(kind@)),
{
    let mut message = kind.to_owned();
    message.append(" is uninitialized or already released");
    invalid_state(message)
}

/// What a set option is for: the buffer has taken it, or the object is to.
#[derive(Debug)]
pub enum StagedSet {
    Buffered,
    Live(String, OptionValue),
}

impl<S> Staged<S> {
    /// A fresh handle collects options.
    pub fn new() -> (r: Staged<S>)
        ensures
            r is Pending,
            r->Pending_0@ == Seq::<Entry>::empty(),
    {
        Staged::Pending(OptionBuffer::new())
    }

    /// The initialized object.
    pub fn ready(&self, kind: &str) -> (r: Result<&S, Error>)
        ensures
            match *self {
                Staged::Ready(state) => r is Ok && *r->Ok_0 == state,
                Staged::Pending(_) => r is Err && r->Err_0.says(
                    Status::InvalidState,
                    uninitialized_message(kind@),
                ),
            },
    {
        match self {
            Staged::Ready(state) => Ok(state),
            Staged::Pending(_) => Err(uninitialized(kind)),
        }
    }

    /// The options collected so far, for the call that initializes the object. They stay in place,
    /// so that a failed initialization can be tried again.
    pub fn pending(&self, kind: &str) -> (r: Result<&OptionBuffer, Error>)
        ensures
            match *self {
                Staged::Pending(options) => r is Ok && *r->Ok_0 == options,
                Staged::Ready(_) => r is Err && r->Err_0.says(
                    Status::InvalidState,
                    initialized_message(kind@),
                ),
            },
    {
        match self {
            Staged::Pending(options) => Ok(options),
            Staged::Ready(_) => {
                let mut message = kind.to_owned();
                message.append(" is already initialized");
                Err(invalid_state(message))
            },
        }
    }

    /// Publishes the initialized object.
    pub fn initialize(&mut self, state: S)
        ensures
            *final(self) == Staged::Ready(state),
    {
        *self = Staged::Ready(state);
    }

    /// Sets an option: it is buffered verbatim before initialization, and the object's to take
    /// afterwards.
    pub fn set(&mut self, key: String, value: OptionValue) -> (r: StagedSet)
        ensures
            match *old(self) {
                Staged::Pending(options) => r is Buffered && *final(self) is Pending && final(
                    self)->Pending_0@ == buffered(options@, key@, value),
                Staged::Ready(_) => r == StagedSet::Live(key, value) && *final(self) == *old(self),
            },
    {
        match self {
            Staged::Pending(options) => {
                options.set(key, value);
                StagedSet::Buffered
            },
            Staged::Ready(_) => StagedSet::Live(key, value),
        }
    }

    /// The object that an option is read from. Before initialization every key is not found: what
    /// was buffered has not been accepted yet.
    pub fn options(&self, kind: &str, key: &str) -> (r: Result<&S, Error>)
        ensures
            match *self {
                Staged::Ready(state) => r is Ok && *r->Ok_0 == state,
                Staged::Pending(_) => r is Err && r->Err_0.says(
                    Status::NotFound,
                    too_early_message(kind@, key@),
                ),
            },
    {
        match self {
            Staged::Ready(state) => Ok(state),
            Staged::Pending(_) => {
                let mut message = "Spanner ".to_owned();
                message.append(kind);
                message.append(" option ");
                message.append(key);
                message.append(" cannot be read before the ");
                message.append(kind);
                message.append(" is initialized; initialize it first");
                Err(not_found(message))
            },
        }
    }
}

// ---------------------------------------------------------------------------------------------
// Handles
// ---------------------------------------------------------------------------------------------

/// What a handle stands for.
#[derive(Debug, Clone, Copy, PartialEq, Eq, Structural)]
pub enum Slot {
    /// Nothing: not populated yet, or released.
    Empty,
    /// An object.
    Live {
        /// Whether a call on the object panicked.
        poisoned: bool,
        /// Whether the object has something to cancel through.
        cancellable: bool,
    },
}

pub open spec fn populated_message(kind: Seq<char>) -> Seq<char> {
    kind
        + " already holds a driver object; release it before creating another, and pass a zero-initialized struct to a first one"@
}

pub open spec fn poisoned_message(kind: Seq<char>) -> Seq<char> {
    kind + " is unusable after an earlier panic in the driver"@
}

/// The refusal of a handle that already carries an object.
pub fn already_populated(kind: &str) -> (e: Error)
    ensures
        e.says(Status::InvalidState, populated_message(kind@)),
{
    let mut message = kind.to_owned();
    message.append(
        " already holds a driver object; release it before creating another, and pass a zero-initialized struct to a first one",
    );
    invalid_state(message)
}

/// Whether a call is refused, and how.
pub open spec fn refuses_call(slot: Slot, kind: Seq<char>) -> Option<(Status, Seq<char>)> {
    match slot {
        Slot::Empty => Some((Status::InvalidState, uninitialized_message(kind))),
        Slot::Live { poisoned, .. } => if poisoned {
            Some((Status::Internal, poisoned_message(kind)))
        } else {
            None
        },
    }
}

/// How a call on an object came out.
#[derive(Debug)]
pub enum Outcome<'a> {
    Returned(Result<(), Error>),
    Panicked(PanicPayload<'a>),
}

impl Slot {
    /// Populates a handle. A null handle is a bad argument, and one that holds an object is
    /// refused: overwriting it would leak the object.
    pub fn new_handle(&mut self, handle_is_null: bool, kind: &str, cancellable: bool) -> (r: Result<
        (),
        Error,
    >)
        ensures
            handle_is_null ==> *final(self) == *old(self) && r is Err && r->Err_0.says(
                Status::InvalidArguments,
                missing_message(kind@),
            ),
            !handle_is_null && *old(self) is Live ==> *final(self) == *old(self) && r is Err
                && r->Err_0.says(Status::InvalidState, populated_message(kind@)),
            !handle_is_null && *old(self) is Empty ==> r is Ok,
            !handle_is_null ==> *final(self) == slot_step(
                *old(self),
                SlotStep::New { cancellable },
            ),
    {
        if handle_is_null {
            return Err(missing_argument(kind));
        }
        match *self {
            Slot::Live { .. } => Err(already_populated(kind)),
            Slot::Empty => {
                *self = Slot::Live { poisoned: false, cancellable };
                Ok(())
            },
        }
    }

    /// Whether a call may go ahead on the object.
    pub fn enter(&self, kind: &str) -> (r: Result<(), Error>)
        ensures
            match refuses_call(*self, kind@) {
                Some((status, message)) => r is Err && r->Err_0.says(status, message),
                None => r is Ok,
            },
    {
        match *self {
            Slot::Empty => Err(uninitialized(kind)),
            Slot::Live { poisoned, .. } => {
                if poisoned {
                    let mut message = kind.to_owned();
                    message.append(" is unusable after an earlier panic in the driver");
                    Err(Error::with_message_and_status(message, Status::Internal))
                } else {
                    Ok(())
                }
            },
        }
    }

    /// What a call that went ahead is answered. A panic poisons the object; an error does not.
    pub fn leave(&mut self, outcome: Outcome) -> (r: Result<(), Error>)
        requires
            *old(self) is Live,
        ensures
            match outcome {
                Outcome::Returned(result) => r == result,
                Outcome::Panicked(cause) => r is Err && r->Err_0.says(
                    Status::Internal,
                    "Uncaught panic in the Spanner driver: "@ + panic_text(cause),
                ),
            },
            *final(self) == slot_step(
                *old(self),
                SlotStep::Called { panicked: outcome is Panicked },
            ),
    {
        match outcome {
            Outcome::Returned(result) => result,
            Outcome::Panicked(cause) => {
                if let Slot::Live { cancellable, .. } = *self {
                    *self = Slot::Live { poisoned: true, cancellable };
                }
                Err(caught_panic(cause))
            },
        }
    }

    /// Gives the object something to cancel through. An empty handle stays empty.
    pub fn install_cancel_handle(&mut self)
        ensures
            *final(self) == slot_step(*old(self), SlotStep::InstallCancel),
    {
        if let Slot::Live { poisoned, .. } = *self {
            *self = Slot::Live { poisoned, cancellable: true };
        }
    }

    /// Whether the object's operation may be cancelled. That an earlier call panicked is no
    /// obstacle.
    pub fn cancel(&self, kind: &str) -> (r: Result<(), Error>)
        ensures
            match *self {
                Slot::Live { cancellable: true, .. } => r is Ok,
                _ => r is Err && r->Err_0.says(Status::InvalidState, uninitialized_message(kind@)),
            },
    {
        match *self {
            Slot::Live { cancellable: true, .. } => Ok(()),
            _ => Err(uninitialized(kind)),
        }
    }

    /// Releases the object: the handle is empty from then on. Releasing an empty one is an error.
    pub fn release(&mut self, handle_is_null: bool, kind: &str) -> (r: Result<(), Error>)
        ensures
            handle_is_null ==> *final(self) == *old(self) && r is Err && r->Err_0.says(
                Status::InvalidArguments,
                missing_message(kind@),
            ),
            !handle_is_null ==> *final(self) == slot_step(*old(self), SlotStep::Release),
            !handle_is_null && *old(self) is Live ==> r is Ok,
            !handle_is_null && *old(self) is Empty ==> r is Err && r->Err_0.says(
                Status::InvalidState,
                uninitialized_message(kind@),
            ),
    {
        if handle_is_null {
            return Err(missing_argument(kind));
        }
        match *self {
            Slot::Empty => Err(uninitialized(kind)),
            Slot::Live { .. } => {
                *self = Slot::Empty;
                Ok(())
            },
        }
    }
}

/// The status code that a result is answered with.
pub fn finish(result: &Result<(), Error>) -> (r: u8)
    ensures
        r == match *result {
            Ok(_) => 0,
            Err(e) => code_of(e.status),
        },
{
    match result {
        Ok(_) => 0,
        Err(e) => e.status.code(),
    }
}

/// What happens to a handle.
pub enum SlotStep {
    New { cancellable: bool },
    Called { panicked: bool },
    InstallCancel,
    Release,
}

/// The handle after a step. A call that is refused changes nothing.
pub open spec fn slot_step(slot: Slot, step: SlotStep) -> Slot {
    match (slot, step) {
        (Slot::Empty, SlotStep::New { cancellable }) => Slot::Live { poisoned: false, cancellable },
        (Slot::Live { poisoned, cancellable }, SlotStep::Called { panicked }) => Slot::Live {
            poisoned: poisoned || panicked,
            cancellable,
        },
        (Slot::Live { poisoned, .. }, SlotStep::InstallCancel) => Slot::Live {
            poisoned,
            cancellable: true,
        },
        (Slot::Live { .. }, SlotStep::Release) => Slot::Empty,
        _ => slot,
    }
}

/// The handle after a sequence of steps.
pub open spec fn slot_steps(slot: Slot, steps: Seq<SlotStep>) -> Slot
    decreases steps.len(),
{
    if steps.len() == 0 {
        slot
    } else {
        slot_step(slot_steps(slot, steps.drop_last()), steps.last())
    }
}

/// A poisoned object refuses every call until it is released, whatever else happens to its handle,
/// and can be cancelled for as long as it could be before.
pub proof fn lemma_poison_is_permanent(slot: Slot, steps: Seq<SlotStep>, kind: Seq<char>)
    requires
        slot is Live,
        slot->poisoned,
        forall|i: int| 0 <= i < steps.len() ==> !(#[trigger] steps[i] is Release),
    ensures
        slot_steps(slot, steps) is Live,
        slot_steps(slot, steps)->poisoned,
        refuses_call(slot_steps(slot, steps), kind) == Some(
            (Status::Internal, poisoned_message(kind)),
        ),
        slot->cancellable ==> slot_steps(slot, steps)->cancellable,
    decreases steps.len(),
{
    if steps.len() > 0 {
        assert(!(steps[steps.len() - 1] is Release));
        assert forall|i: int| 0 <= i < steps.drop_last().len() implies !(
        #[trigger] steps.drop_last()[i] is Release) by {
            assert(steps.drop_last()[i] == steps[i]);
        }
        lemma_poison_is_permanent(slot, steps.drop_last(), kind);
    }
}

/// A released handle refuses every call, and stays empty until it is populated again.
pub proof fn lemma_released_handle_refuses(steps: Seq<SlotStep>, kind: Seq<char>)
    requires
        forall|i: int| 0 <= i < steps.len() ==> !(#[trigger] steps[i] is New),
    ensures
        slot_steps(Slot::Empty, steps) == Slot::Empty,
        refuses_call(slot_steps(Slot::Empty, steps), kind) == Some(
            (Status::InvalidState, uninitialized_message(kind)),
        ),
    decreases steps.len(),
{
    if steps.len() > 0 {
        assert(!(steps[steps.len() - 1] is New));
        assert forall|i: int| 0 <= i < steps.drop_last().len() implies !(
        #[trigger] steps.drop_last()[i] is New) by {
            assert(steps.drop_last()[i] == steps[i]);
        }
        lemma_released_handle_refuses(steps.drop_last(), kind);
    }
}

} // verus!

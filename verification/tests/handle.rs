use adbc_spanner::error::{Error, Status};
use adbc_spanner::guard::PanicPayload;
use adbc_spanner::handle::{finish, OptionBuffer, Outcome, Slot, Staged};
use adbc_spanner::options::OptionValue;

fn text(v: &str) -> OptionValue {
    OptionValue::Text(v.to_string())
}

fn live() -> Slot {
    let mut slot = Slot::Empty;
    slot.new_handle(false, "statement", false).unwrap();
    slot
}

/// A call on the object behind a handle.
fn dispatch(slot: &mut Slot, kind: &str, outcome: Outcome) -> u8 {
    let result = match slot.enter(kind) {
        Ok(()) => slot.leave(outcome),
        Err(e) => Err(e),
    };
    finish(&result)
}

#[test]
fn option_buffer_keeps_order_and_collapses_repeats() {
    let mut buffer = OptionBuffer::new();
    buffer.set("uri".to_string(), text("first"));
    buffer.set("x".to_string(), text("y"));
    buffer.set("uri".to_string(), text("second"));

    assert_eq!(buffer.entries.len(), 2);
    assert_eq!(buffer.entries[0], ("uri".to_string(), text("second")));
    assert_eq!(buffer.entries[1], ("x".to_string(), text("y")));
}

#[test]
fn a_pending_object_is_not_ready() {
    let mut staged: Staged<u8> = Staged::new();
    let error = staged.ready("database").unwrap_err();
    assert_eq!(error.status, Status::InvalidState);
    assert_eq!(error.message, "database is uninitialized or already released");

    staged.initialize(3);
    assert_eq!(*staged.ready("database").unwrap(), 3);
}

#[test]
fn initializing_twice_is_an_invalid_state() {
    let mut staged: Staged<u8> = Staged::new();
    assert!(staged.pending("database").is_ok());
    staged.initialize(3);
    let error = staged.pending("database").unwrap_err();
    assert_eq!(error.status, Status::InvalidState);
    assert_eq!(error.message, "database is already initialized");
}

#[test]
fn getters_report_a_pre_init_connection_option_as_not_found() {
    let mut staged: Staged<u8> = Staged::new();
    staged.set("adbc.connection.autocommit".to_string(), text("false"));
    let error = staged.options("connection", "adbc.connection.autocommit").unwrap_err();
    assert_eq!(error.status, Status::NotFound);
    assert_eq!(
        error.message,
        "Spanner connection option adbc.connection.autocommit cannot be read before the \
         connection is initialized; initialize it first"
    );
    staged.initialize(7);
    assert_eq!(*staged.options("connection", "anything").unwrap(), 7);
}

#[test]
fn a_second_new_on_a_populated_handle_is_refused() {
    let mut slot = live();
    let error = slot.new_handle(false, "database", false).unwrap_err();
    assert_eq!(error.status, Status::InvalidState);
    assert!(
        error.message.starts_with("database already holds a driver object"),
        "{}",
        error.message
    );
}

#[test]
fn a_null_handle_is_a_bad_argument_not_a_crash() {
    let mut slot = Slot::Empty;
    let error = slot.new_handle(true, "connection", false).unwrap_err();
    assert_eq!(error.status, Status::InvalidArguments);
    assert_eq!(error.message, "connection must not be null");
    let error = slot.release(true, "connection").unwrap_err();
    assert_eq!(error.status, Status::InvalidArguments);
}

#[test]
fn a_panicking_call_poisons_only_that_object() {
    let mut first = live();
    let mut second = live();
    let panicked = Outcome::Panicked(PanicPayload::Borrowed("inside the driver"));
    assert_eq!(dispatch(&mut first, "statement", panicked), Status::Internal.code());

    assert_eq!(
        dispatch(&mut first, "statement", Outcome::Returned(Ok(()))),
        Status::Internal.code()
    );
    let error = first.enter("statement").unwrap_err();
    assert_eq!(
        error.message,
        "statement is unusable after an earlier panic in the driver"
    );
    assert_eq!(dispatch(&mut second, "statement", Outcome::Returned(Ok(()))), 0);
}

#[test]
fn returning_an_error_does_not_poison() {
    let mut slot = live();
    let error = Error::with_message_and_status("nope".to_string(), Status::NotFound);
    assert_eq!(
        dispatch(&mut slot, "statement", Outcome::Returned(Err(error))),
        Status::NotFound.code()
    );
    assert_eq!(dispatch(&mut slot, "statement", Outcome::Returned(Ok(()))), 0);
}

#[test]
fn dispatching_on_a_released_handle_is_an_invalid_state() {
    let mut slot = live();
    assert_eq!(finish(&slot.release(false, "database")), 0);
    assert_eq!(slot, Slot::Empty);
    assert_eq!(
        finish(&slot.release(false, "database")),
        Status::InvalidState.code()
    );
    assert_eq!(
        dispatch(&mut slot, "database", Outcome::Returned(Ok(()))),
        Status::InvalidState.code()
    );
}

#[test]
fn cancel_still_works_after_a_panic_poisoned_the_object() {
    let mut slot = Slot::Empty;
    slot.new_handle(false, "statement", true).unwrap();
    let panicked = Outcome::Panicked(PanicPayload::Borrowed("inside the driver"));
    assert_eq!(dispatch(&mut slot, "statement", panicked), Status::Internal.code());
    assert!(slot.cancel("statement").is_ok());
}

#[test]
fn cancel_without_an_installed_handle_is_an_invalid_state() {
    let mut slot = Slot::Empty;
    assert_eq!(
        slot.cancel("connection").unwrap_err().status,
        Status::InvalidState
    );
    slot.install_cancel_handle();
    assert_eq!(slot, Slot::Empty);

    let mut slot = live();
    assert_eq!(
        slot.cancel("connection").unwrap_err().status,
        Status::InvalidState
    );
    slot.install_cancel_handle();
    assert!(slot.cancel("connection").is_ok());
}

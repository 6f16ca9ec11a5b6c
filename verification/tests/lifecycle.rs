use adbc_core::constants::{
    ADBC_CONNECTION_OPTION_AUTOCOMMIT, ADBC_CONNECTION_OPTION_CURRENT_CATALOG,
    ADBC_CONNECTION_OPTION_CURRENT_DB_SCHEMA, ADBC_CONNECTION_OPTION_ISOLATION_LEVEL,
    ADBC_CONNECTION_OPTION_READ_ONLY, ADBC_OPTION_URI,
};
use adbc_spanner::entry::{objects_request, statistics_request, table_lookup};
use adbc_spanner::error::{Error, Status};
use adbc_spanner::guard::{byte_slice, required_output, required_str};
use adbc_spanner::handle::{finish, Outcome, Slot, Staged, StagedSet};
use adbc_spanner::keys::{
    OPTION_EMULATOR, OPTION_ENDPOINT, OPTION_READ_STALENESS, OPTION_REQUEST_PRIORITY,
    OPTION_RETRY_MAX_ATTEMPTS, OPTION_TRANSACTION_TAG,
};
use adbc_spanner::options::{bool_option, Double, OptionValue};

const OK: u8 = 0;
const INVALID_ARGUMENT: u8 = 5;
const INVALID_STATE: u8 = 6;
const NOT_FOUND: u8 = 3;

/// A handle of the C interface with an object that is initialized in a step of its own.
struct Handle {
    kind: &'static str,
    slot: Slot,
    state: Staged<u8>,
}

fn pending(kind: &'static str) -> Handle {
    let mut slot = Slot::Empty;
    slot.new_handle(false, kind, false).unwrap();
    Handle { kind, slot, state: Staged::new() }
}

fn initialized(kind: &'static str) -> Handle {
    let mut handle = pending(kind);
    handle.state.initialize(1);
    handle
}

impl Handle {
    /// A call whose arguments come to `arguments` and which needs an initialized object.
    fn call(&mut self, arguments: Result<(), Error>) -> u8 {
        let result = match self.slot.enter(self.kind) {
            Err(e) => Err(e),
            Ok(()) => {
                let outcome = match arguments {
                    Err(e) => Err(e),
                    Ok(()) => self.state.ready(self.kind).map(|_| ()),
                };
                self.slot.leave(Outcome::Returned(outcome))
            }
        };
        finish(&result)
    }

    fn set(&mut self, key: &str, value: OptionValue) -> u8 {
        let result = self.slot.enter(self.kind);
        if result.is_ok() {
            self.state.set(key.to_string(), value);
        }
        finish(&result)
    }

    fn get(&mut self, key: &str) -> Result<(), Error> {
        self.slot.enter(self.kind)?;
        self.state.options(self.kind, key).map(|_| ())
    }

    /// Applies the buffered options, of which one is a truth value, and publishes the object.
    fn initialize(&mut self) -> Result<(), Error> {
        for (key, value) in self.buffered() {
            if key == OPTION_EMULATOR {
                bool_option(value, &format!("option {key}"))?;
            }
        }
        self.state.initialize(1);
        Ok(())
    }

    fn release(&mut self) -> u8 {
        finish(&self.slot.release(false, self.kind))
    }

    fn buffered(&self) -> Vec<(String, OptionValue)> {
        self.state.pending(self.kind).unwrap().entries.clone()
    }
}

fn text(v: &str) -> OptionValue {
    OptionValue::Text(v.to_string())
}

#[test]
fn setting_the_same_option_twice_keeps_the_later_value() {
    let mut database = pending("database");
    let first = "spanner:///projects/p/instances/i/databases/first";
    let second = "spanner:///projects/p/instances/i/databases/second";
    assert_eq!(database.set(ADBC_OPTION_URI, text(first)), OK);
    assert_eq!(database.set(ADBC_OPTION_URI, text(second)), OK);
    assert_eq!(database.set(OPTION_EMULATOR, text("true")), OK);
    let error = database.get(ADBC_OPTION_URI).unwrap_err();
    assert_eq!(error.status.code(), NOT_FOUND);
    assert_eq!(
        database.buffered(),
        vec![
            (ADBC_OPTION_URI.to_string(), text(second)),
            (OPTION_EMULATOR.to_string(), text("true")),
        ]
    );
    assert_eq!(database.release(), OK);
}

#[test]
fn a_failed_init_keeps_the_buffered_options_for_a_retry() {
    let mut database = pending("database");
    let uri = "spanner:///projects/a-project/instances/an-instance/databases/a-database";
    assert_eq!(database.set(ADBC_OPTION_URI, text(uri)), OK);
    assert_eq!(database.set(OPTION_ENDPOINT, text("http://127.0.0.1:1")), OK);
    assert_eq!(database.set(OPTION_EMULATOR, text("maybe")), OK);
    let error = database.initialize().unwrap_err();
    assert_eq!(error.status.code(), INVALID_ARGUMENT);
    assert_eq!(database.buffered().len(), 3);
    assert_eq!(database.set(OPTION_EMULATOR, text("true")), OK);
    assert_eq!(
        database.buffered(),
        vec![
            (ADBC_OPTION_URI.to_string(), text(uri)),
            (OPTION_ENDPOINT.to_string(), text("http://127.0.0.1:1")),
            (OPTION_EMULATOR.to_string(), text("true")),
        ]
    );
    database.initialize().unwrap();
    assert!(database.get(ADBC_OPTION_URI).is_ok());
    assert!(database.get(OPTION_ENDPOINT).is_ok());
    assert_eq!(database.release(), OK);
}

#[test]
fn a_released_handle_rejects_every_call_including_a_second_release() {
    let mut database = initialized("database");
    assert_eq!(database.release(), OK);
    assert_eq!(database.slot, Slot::Empty);
    assert_eq!(database.release(), INVALID_STATE);
    assert_eq!(
        database.set(OPTION_ENDPOINT, text("http://127.0.0.1:2")),
        INVALID_STATE
    );
    let error = database.get(OPTION_ENDPOINT).unwrap_err();
    assert_eq!(error.status.code(), INVALID_STATE);
}

#[test]
fn null_handles_and_keys_are_rejected() {
    let mut slot = Slot::Empty;
    assert_eq!(finish(&slot.new_handle(true, "database", false)), INVALID_ARGUMENT);
    let error = required_str(None, "key").unwrap_err();
    assert_eq!(error.status.code(), INVALID_ARGUMENT);
    let error = required_str(None, "value").unwrap_err();
    assert_eq!(error.status.code(), INVALID_ARGUMENT);
    assert_eq!(error.message, "value must not be null");
}

#[test]
fn releasing_twice_reports_invalid_state_rather_than_double_freeing() {
    let mut connection = pending("connection");
    assert_eq!(connection.release(), OK);
    assert_eq!(connection.slot, Slot::Empty);
    assert_eq!(connection.release(), INVALID_STATE);
}

#[test]
fn options_set_before_init_are_buffered_in_order_with_last_write_winning() {
    let mut connection = pending("connection");
    for value in ["true", "false"] {
        assert_eq!(connection.set(ADBC_CONNECTION_OPTION_AUTOCOMMIT, text(value)), OK);
    }
    assert_eq!(connection.set(OPTION_RETRY_MAX_ATTEMPTS, OptionValue::Int(4096)), OK);
    let half = Double { bits: 0.5_f64.to_bits() };
    assert_eq!(connection.set(OPTION_READ_STALENESS, OptionValue::Double(half)), OK);
    assert_eq!(
        connection.set(OPTION_TRANSACTION_TAG, OptionValue::Bytes(b"xy".to_vec())),
        OK
    );

    let entries = connection.buffered();
    assert_eq!(entries.len(), 4, "the repeated key must not add an entry");
    assert_eq!(entries[0].0, ADBC_CONNECTION_OPTION_AUTOCOMMIT);
    assert_eq!(entries[0].1, text("false"));
    assert_eq!(entries[1].1, OptionValue::Int(4096));
    assert_eq!(entries[2].1, OptionValue::Double(half));
    assert_eq!(entries[3].1, OptionValue::Bytes(b"xy".to_vec()));
}

#[test]
fn an_initialized_object_takes_its_options_itself() {
    let mut staged: Staged<u8> = Staged::new();
    staged.initialize(0);
    match staged.set("a".to_string(), text("4")) {
        StagedSet::Live(key, value) => assert_eq!((key.as_str(), value), ("a", text("4"))),
        StagedSet::Buffered => panic!("a live object takes its options itself"),
    }
}

#[test]
fn setters_reject_a_null_or_non_utf8_key_or_value() {
    let invalid: Option<&[u8]> = Some(&[0xFF]);
    for error in [
        required_str(None, "key").unwrap_err(),
        required_str(None, "value").unwrap_err(),
        required_str(invalid, "key").unwrap_err(),
        byte_slice(true, 3, "value").unwrap_err(),
    ] {
        assert_eq!(error.status.code(), INVALID_ARGUMENT);
    }
}

#[test]
fn transaction_cancel_and_init_entry_points_check_their_state() {
    let mut connection = pending("connection");
    // Committing and rolling back need an initialized connection.
    assert_eq!(connection.call(Ok(())), INVALID_STATE);
    assert_eq!(finish(&connection.slot.cancel("connection")), INVALID_STATE);
    // Initializing needs a database.
    let database = Slot::Empty;
    assert_eq!(finish(&database.enter("database")), INVALID_STATE);
    assert_eq!(connection.release(), OK);
}

#[test]
fn metadata_streams_require_an_initialized_connection() {
    let mut connection = pending("connection");
    for arguments in [
        required_output(false, "out"),
        statistics_request(false, None, None, None, 1).map(|_| ()),
        byte_slice(false, 4, "serialized_partition"),
    ] {
        assert!(arguments.is_ok());
        assert_eq!(connection.call(arguments), INVALID_STATE);
    }
    let missing = byte_slice(true, 7, "serialized_partition");
    assert_eq!(connection.call(missing), INVALID_ARGUMENT);
    assert_eq!(connection.release(), OK);
}

#[test]
fn metadata_outputs_are_checked_before_initialization_or_network_work() {
    let mut connection = pending("connection");
    for (output, arguments) in [
        ("out", required_output(true, "out")),
        ("out", objects_request(true, 0, None, None, None, None, None).map(|_| ())),
        ("schema", table_lookup(true, None, None, Some(b"Singers")).map(|_| ())),
        ("out", statistics_request(true, None, None, None, 1).map(|_| ())),
    ] {
        let message = format!("{output} must not be null");
        assert_eq!(arguments.as_ref().unwrap_err().message, message);
        assert_eq!(connection.call(arguments), INVALID_ARGUMENT);
    }
    assert!(connection.buffered().is_empty());
    assert_eq!(connection.release(), OK);
}

#[test]
fn borrow_rejects_an_uninitialized_or_released_connection() {
    let mut connection = pending("connection");
    assert!(connection.slot.enter("connection").is_ok());
    let error = connection.state.ready("connection").unwrap_err();
    assert_eq!(error.status, Status::InvalidState);
    assert_eq!(connection.release(), OK);
    let error = connection.slot.enter("connection").unwrap_err();
    assert_eq!(error.status, Status::InvalidState);
}

#[test]
fn every_key_is_buffered_before_init_whether_the_driver_knows_it_or_not() {
    let mut connection = pending("connection");
    let keys = [
        ADBC_CONNECTION_OPTION_AUTOCOMMIT,
        ADBC_CONNECTION_OPTION_CURRENT_CATALOG,
        ADBC_CONNECTION_OPTION_CURRENT_DB_SCHEMA,
        ADBC_CONNECTION_OPTION_READ_ONLY,
        ADBC_CONNECTION_OPTION_ISOLATION_LEVEL,
        "adbc.connection.no_such_option",
        "spanner.read.stalenes",
        OPTION_READ_STALENESS,
        OPTION_REQUEST_PRIORITY,
        OPTION_TRANSACTION_TAG,
    ];
    for key in keys {
        assert_eq!(connection.set(key, text("true")), OK, "{key}");
    }
    assert_eq!(connection.buffered().len(), keys.len());
}

#[test]
fn the_current_namespace_keys_buffer_before_init_and_read_back_as_not_found() {
    let mut connection = pending("connection");
    for name in [
        ADBC_CONNECTION_OPTION_CURRENT_CATALOG,
        ADBC_CONNECTION_OPTION_CURRENT_DB_SCHEMA,
    ] {
        assert_eq!(connection.set(name, text("changed")), OK, "{name}");
        let error = connection.get(name).unwrap_err();
        assert_eq!(error.status, Status::NotFound, "{name}");
        assert_eq!(
            error.message,
            format!(
                "Spanner connection option {name} cannot be read before the connection is \
                 initialized; initialize it first"
            )
        );
    }
    assert_eq!(connection.buffered().len(), 2);
}

#[test]
fn tests_every_entry_point_refuses_a_released_handle() {
    for kind in ["connection", "statement"] {
        let mut handle = pending(kind);
        assert_eq!(handle.release(), OK);
        // The handle is looked at before the arguments.
        assert_eq!(handle.call(required_output(true, "out")), INVALID_STATE);
        assert_eq!(handle.call(Ok(())), INVALID_STATE);
        assert_eq!(finish(&handle.slot.cancel(kind)), INVALID_STATE);
        assert_eq!(
            handle.set(ADBC_CONNECTION_OPTION_AUTOCOMMIT, text("x")),
            INVALID_STATE
        );
        let error = handle.get(ADBC_CONNECTION_OPTION_AUTOCOMMIT).unwrap_err();
        assert_eq!(error.status, Status::InvalidState);
        assert_eq!(handle.release(), INVALID_STATE);
    }
}

#[test]
fn creating_a_statement_needs_an_initialized_connection() {
    let connection = pending("connection");
    let error = connection.state.ready("connection").unwrap_err();
    assert_eq!(error.status, Status::InvalidState);
    assert!(error.message.contains("connection"), "{}", error.message);
}

#[test]
fn init_against_an_allocated_but_uninitialized_database_is_refused() {
    let connection = pending("connection");
    let database = pending("database");
    assert!(database.slot.enter("database").is_ok());
    let error = database.state.ready("database").unwrap_err();
    assert_eq!(error.status, Status::InvalidState);
    assert!(error.message.contains("database"), "{}", error.message);
    assert!(connection.state.pending("connection").is_ok());
}

#[test]
fn rejects_a_null_statement_handle() {
    let mut slot = Slot::Empty;
    let result = slot.new_handle(true, "statement", true);
    assert_eq!(result.unwrap_err().status, Status::InvalidArguments);
    let result = slot.release(true, "statement");
    assert_eq!(result.unwrap_err().status, Status::InvalidArguments);
    // Any other call takes a null handle for an uninitialized one.
    let result = slot.enter("statement");
    assert_eq!(result.unwrap_err().status, Status::InvalidState);
}

#[test]
fn a_call_passes_its_result_through() {
    let mut slot = Slot::Empty;
    slot.new_handle(false, "statement", true).unwrap();
    assert!(slot.leave(Outcome::Returned(Ok(()))).is_ok());
    let nope = Error::with_message_and_status("nope".to_string(), Status::NotFound);
    let inner = slot.leave(Outcome::Returned(Err(nope))).unwrap_err();
    assert_eq!(inner.status, Status::NotFound);
    assert_eq!(inner.message, "nope");
}

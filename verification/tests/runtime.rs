use adbc_spanner::error::{Error, Status};
use adbc_spanner::runtime::{
    prefetch_step, settle, CancelSlot, PrefetchAction, PrefetchEvent, PrefetchState,
};

fn run(slot: &CancelSlot, operation: usize, value: i32) -> Result<i32, Error> {
    settle(if slot.is_cancelled(operation) { None } else { Some(Ok(value)) })
}

#[test]
fn uncancelled_operation_completes() {
    let mut slot = CancelSlot::new();
    let operation = slot.begin_operation();
    assert_eq!(run(&slot, operation, 42).unwrap(), 42);
}

#[test]
fn signal_between_operations_cancels_the_next_one() {
    let mut slot = CancelSlot::new();
    let operation = slot.begin_operation();
    assert_eq!(run(&slot, operation, 1).unwrap(), 1);
    slot.signal();
    let error = run(&slot, operation, 2).unwrap_err();
    assert_eq!(error.status, Status::Cancelled);
    assert_eq!(error.message, "operation cancelled");
    assert_eq!(run(&slot, operation, 3).unwrap_err().status, Status::Cancelled);
}

#[test]
fn begin_operation_shields_a_new_operation_from_a_stale_cancel() {
    let mut slot = CancelSlot::new();
    slot.signal();
    let operation = slot.begin_operation();
    assert_eq!(run(&slot, operation, 7).unwrap(), 7);
}

#[test]
fn begin_operation_does_not_uncancel_an_earlier_operations_signal() {
    let mut slot = CancelSlot::new();
    let old = slot.begin_operation();
    slot.signal();
    let fresh = slot.begin_operation();
    assert_eq!(run(&slot, old, 1).unwrap_err().status, Status::Cancelled);
    assert_eq!(run(&slot, fresh, 2).unwrap(), 2);
    slot.signal();
    assert_eq!(slot.current(), fresh);
    assert_eq!(
        run(&slot, slot.current(), 3).unwrap_err().status,
        Status::Cancelled
    );
}

#[test]
fn cancel_handle_reports_ok_when_nothing_is_in_flight() {
    let mut slot = CancelSlot::new();
    slot.signal();
    let operation = slot.begin_operation();
    assert_eq!(run(&slot, operation, 5).unwrap(), 5);
}

#[test]
fn prefetch_delivers_chunks_in_order_and_runs_ahead() {
    let mut state = PrefetchState::Fetching;
    let mut sent = Vec::new();
    for chunk in [vec![1], vec![2, 3], vec![4]] {
        let (next, action) = prefetch_step(state, PrefetchEvent::Pulled(chunk));
        assert_eq!(next, PrefetchState::Sending);
        match action {
            PrefetchAction::Send(rows) => sent.push(rows),
            _ => panic!("a chunk is sent"),
        }
        let (next, action) = prefetch_step(next, PrefetchEvent::Sent);
        assert!(matches!(action, PrefetchAction::<i32>::Fetch));
        state = next;
    }
    assert_eq!(sent, vec![vec![1], vec![2, 3], vec![4]]);
    let (state, action) = prefetch_step(state, PrefetchEvent::Pulled(Vec::<i32>::new()));
    assert_eq!(state, PrefetchState::Ended);
    assert!(matches!(action, PrefetchAction::Stop));
}

#[test]
fn prefetch_surfaces_a_fetch_error_then_stops() {
    let broken = Error::with_message_and_status("stream broke".to_string(), Status::IO);
    let (state, action) =
        prefetch_step::<i32>(PrefetchState::Fetching, PrefetchEvent::PullFailed(broken));
    assert_eq!(state, PrefetchState::Ended);
    match action {
        PrefetchAction::SendError(error) => assert_eq!(error.status, Status::IO),
        _ => panic!("the error is sent"),
    }
}

#[test]
fn prefetch_cancel_aborts_an_in_flight_fetch() {
    let (state, action) =
        prefetch_step::<i32>(PrefetchState::Fetching, PrefetchEvent::Cancelled);
    assert_eq!(state, PrefetchState::Ended);
    match action {
        PrefetchAction::TrySendError(error) => assert_eq!(error.status, Status::Cancelled),
        _ => panic!("the cancellation is surfaced"),
    }
    let (state, action) = prefetch_step::<i32>(PrefetchState::Sending, PrefetchEvent::Cancelled);
    assert_eq!(state, PrefetchState::Ended);
    assert!(matches!(action, PrefetchAction::Stop));
}

#[test]
fn prefetch_stops_when_the_receiver_is_dropped() {
    let (state, action) =
        prefetch_step::<i32>(PrefetchState::Sending, PrefetchEvent::ReceiverDropped);
    assert_eq!(state, PrefetchState::Ended);
    assert!(matches!(action, PrefetchAction::Stop));
}

#[test]
fn a_slot_keeps_only_the_signals_that_are_held() {
    let mut slot = CancelSlot::new();
    let reader = slot.begin_operation();
    slot.signal();
    // A hundred operations of which nobody keeps the signal take up one place after another's
    // release, and leave the one that is kept alone.
    let mut last = slot.begin_operation();
    for _ in 0..100 {
        let next = slot.begin_operation();
        slot.release(last);
        last = next;
    }
    assert!(last <= 4, "{last}");
    assert!(slot.is_cancelled(reader));
    assert!(!slot.is_cancelled(last));
    slot.release(reader);
    assert_eq!(slot.begin_operation(), reader);
    assert!(!slot.is_cancelled(reader));
}

#[test]
fn an_operation_that_did_not_complete_was_cancelled() {
    let failed = Error::with_message_and_status("nope".to_string(), Status::NotFound);
    assert_eq!(settle(Some(Ok(3))).unwrap(), 3);
    assert_eq!(settle::<i32>(Some(Err(failed))).unwrap_err().status, Status::NotFound);
    let error = settle::<i32>(None).unwrap_err();
    assert_eq!(error.status, Status::Cancelled);
    assert_eq!(error.message, "operation cancelled");
}

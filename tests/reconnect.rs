use cxdb::error::{Error, IoError, IoErrorKind};
use cxdb::reconnect::{
    admit_request, give_up_error, queue_admission, should_reconnect, sleep_step, wait_step,
    with_max_retries, with_max_retry_delay, with_queue_size, with_retry_delay, worker_precheck,
    ReconnectConfig, ReconnectPlan, ReconnectStep, WaitEvent, POLL_STEP_MS,
};

#[test]
fn defaults() {
    let c = ReconnectConfig::default();
    assert_eq!((c.max_retries, c.retry_delay_ms, c.max_retry_delay_ms, c.queue_size), (5, 100, 30_000, 10_000));
}

#[test]
fn queue_full_with_one_slot() {
    let mut c = ReconnectConfig::default();
    c.apply(with_queue_size(1));
    // one request is with the worker, one waits in the queue
    assert!(matches!(queue_admission(1, c.queue_size), Err(Error::QueueFull)));
    assert!(queue_admission(0, c.queue_size).is_ok());
}

#[test]
fn admission_order() {
    assert!(matches!(admit_request(true, true, true), Err(Error::ClientClosed)));
    assert!(matches!(admit_request(false, true, true), Err(Error::Cancelled)));
    assert!(matches!(admit_request(false, false, true), Err(Error::Timeout)));
    assert!(admit_request(false, false, false).is_ok());
    assert!(matches!(worker_precheck(true, false), Err(Error::Cancelled)));
    assert!(matches!(worker_precheck(false, true), Err(Error::Timeout)));
    assert!(worker_precheck(false, false).is_ok());
}

#[test]
fn reset_then_successful_redial_retries() {
    let first: Result<(), Error> = Err(Error::Io(IoError::new(IoErrorKind::ConnectionReset, "reset")));
    assert!(should_reconnect(&first));
    let mut plan = ReconnectPlan::new(&ReconnectConfig::default());
    assert_eq!(plan.next_step(), ReconnectStep::Dial);
    assert!(!should_reconnect(&Ok(())));
    assert!(!should_reconnect(&Err(Error::Timeout)));
}

#[test]
fn three_refused_dials_give_up_with_that_error() {
    let mut c = ReconnectConfig::default();
    c.apply(with_max_retries(3));
    c.apply(with_retry_delay(50));
    let mut plan = ReconnectPlan::new(&c);
    assert_eq!(plan.next_step(), ReconnectStep::Dial);
    assert_eq!(plan.next_step(), ReconnectStep::SleepThenDial(50));
    assert_eq!(plan.next_step(), ReconnectStep::SleepThenDial(100));
    assert_eq!(plan.next_step(), ReconnectStep::GiveUp);
    let last = Error::Io(IoError::new(IoErrorKind::ConnectionRefused, "refused"));
    match give_up_error(Some(last)) {
        Error::Io(io) => assert_eq!(io.kind, IoErrorKind::ConnectionRefused),
        other => panic!("unexpected {other:?}"),
    }
    assert!(matches!(give_up_error(None), Error::ClientClosed));
}

#[test]
fn backoff_doubles_up_to_the_cap() {
    let mut c = ReconnectConfig::default();
    c.apply(with_max_retries(6));
    c.apply(with_retry_delay(100));
    c.apply(with_max_retry_delay(300));
    let mut plan = ReconnectPlan::new(&c);
    let mut waits = Vec::new();
    loop {
        match plan.next_step() {
            ReconnectStep::Dial => {}
            ReconnectStep::SleepThenDial(d) => waits.push(d),
            ReconnectStep::GiveUp => break,
        }
    }
    assert_eq!(waits, vec![100, 200, 300, 300, 300]);
    let mut zero = ReconnectPlan::new(&ReconnectConfig { max_retries: 0, ..ReconnectConfig::default() });
    assert_eq!(zero.next_step(), ReconnectStep::GiveUp);
}

#[test]
fn cancelled_sleep_stops_within_one_step() {
    assert!(matches!(sleep_step(10, 100, false, true, false), Err(Error::Cancelled)));
    assert!(matches!(sleep_step(10, 100, true, true, false), Err(Error::ClientClosed)));
    assert!(matches!(sleep_step(10, 100, false, false, true), Err(Error::Timeout)));
    assert_eq!(sleep_step(0, 100, false, false, false).unwrap(), Some(POLL_STEP_MS));
    assert_eq!(sleep_step(80, 100, false, false, false).unwrap(), Some(20));
    assert!(matches!(sleep_step(100, 100, false, true, false), Err(Error::Cancelled)));
    assert_eq!(sleep_step(100, 100, false, false, false).unwrap(), None);
}

#[test]
fn waiting_for_a_result() {
    assert!(matches!(wait_step(WaitEvent::Delivered(Ok(())), true, true), Some(Ok(()))));
    assert!(matches!(wait_step(WaitEvent::Disconnected, false, false), Some(Err(Error::ClientClosed))));
    assert!(matches!(wait_step(WaitEvent::Pending, true, false), Some(Err(Error::Cancelled))));
    assert!(matches!(wait_step(WaitEvent::Pending, false, true), Some(Err(Error::Timeout))));
    assert!(wait_step(WaitEvent::Pending, false, false).is_none());
}

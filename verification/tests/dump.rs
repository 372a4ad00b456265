//! Dumps: gathering frames, restarts, and what a failed dump becomes.
use netlink_exporter::dump::{
    nl_err_to_collect, DumpAction, DumpEvent, DumpReceiver, DumpRetry, DumpStep, Reply,
    MAX_DUMP_RESTARTS, MIN_RCVBUF,
};
use netlink_exporter::error::{CollectError, TransportError};

/// Requests that are sent when every reply is an interruption.
fn requests(max_restarts: u32) -> u32 {
    let mut retry = DumpRetry::new(max_restarts);
    let mut sent = 1;
    while matches!(retry.step(Err(TransportError::DumpIntr)), DumpStep::Retry) {
        sent += 1;
    }
    sent
}

/// However often a dump is interrupted, the number of restarts is bounded.
#[test]
fn requests_are_bounded() {
    assert_eq!(MAX_DUMP_RESTARTS, 8);
    assert_eq!(requests(MAX_DUMP_RESTARTS), 9);
    assert_eq!(requests(3), 4);
    assert_eq!(requests(1), 2);
    assert_eq!(requests(0), 1);
}

#[test]
fn reply_after_interruptions_is_kept() {
    let mut retry = DumpRetry::new(MAX_DUMP_RESTARTS);
    assert!(matches!(retry.step(Err(TransportError::DumpIntr)), DumpStep::Retry));
    match retry.step(Ok(vec![vec![1, 2]])) {
        DumpStep::Done(frames) => assert_eq!(frames, vec![vec![1, 2]]),
        _ => panic!("the reply ends the dump"),
    }
}

#[test]
fn other_errors_end_the_dump() {
    let mut retry = DumpRetry::new(MAX_DUMP_RESTARTS);
    let step = retry.step(Err(TransportError::NlError { errno: -13 }));
    assert!(matches!(
        step,
        DumpStep::Fail(TransportError::NlError { errno: -13 })
    ));
}

#[test]
fn transport_errors_become_collector_errors() {
    assert_eq!(nl_err_to_collect(TransportError::DumpIntr), CollectError::DumpIntr);
    assert_eq!(
        nl_err_to_collect(TransportError::RecvBufOverflow),
        CollectError::RecvBufOverflow
    );
    assert_eq!(
        nl_err_to_collect(TransportError::NlError { errno: -2 }),
        CollectError::Io("netlink error response: errno=-2".to_owned())
    );
}

/// Runs a dump that receives `events`; the reply, and the buffer sizes asked for.
fn run(events: Vec<DumpEvent>) -> (Option<Reply>, Vec<usize>) {
    let mut receiver = DumpReceiver::new(MIN_RCVBUF);
    let mut sizes = Vec::new();
    for event in events {
        match receiver.handle(event) {
            DumpAction::Receive => {}
            DumpAction::Grow(size) => sizes.push(size),
            DumpAction::Finish(reply) => return (Some(reply), sizes),
        }
    }
    (None, sizes)
}

#[test]
fn frames_are_gathered_until_the_end() {
    let events = vec![
        DumpEvent::Frame(vec![1]),
        DumpEvent::Frame(vec![2, 3]),
        DumpEvent::Done,
        DumpEvent::Frame(vec![4]),
    ];
    assert_eq!(run(events), (Some(Ok(vec![vec![1], vec![2, 3]])), vec![]));
    assert_eq!(run(vec![DumpEvent::Done]), (Some(Ok(vec![])), vec![]));
    assert_eq!(run(vec![DumpEvent::Frame(vec![1])]), (None, vec![]));
}

#[test]
fn first_overflow_doubles_the_buffer() {
    let events = vec![
        DumpEvent::Frame(vec![1]),
        DumpEvent::Overflow,
        DumpEvent::Frame(vec![2]),
        DumpEvent::Done,
    ];
    let doubled = 8 * 1024 * 1024;
    assert_eq!(run(events), (Some(Ok(vec![vec![1], vec![2]])), vec![doubled]));
    let mut largest = DumpReceiver::new(usize::MAX);
    assert!(matches!(
        largest.handle(DumpEvent::Overflow),
        DumpAction::Grow(usize::MAX)
    ));
}

#[test]
fn second_overflow_ends_the_dump() {
    let events = vec![
        DumpEvent::Overflow,
        DumpEvent::Frame(vec![1]),
        DumpEvent::Overflow,
    ];
    let (reply, sizes) = run(events);
    assert_eq!(reply, Some(Err(TransportError::RecvBufOverflow)));
    assert_eq!(sizes.len(), 1);
}

#[test]
fn interruption_and_refusal_end_the_dump() {
    let events = vec![DumpEvent::Frame(vec![1]), DumpEvent::Interrupted];
    assert_eq!(run(events).0, Some(Err(TransportError::DumpIntr)));
    let events = vec![DumpEvent::Refused(-1)];
    assert_eq!(run(events).0, Some(Err(TransportError::NlError { errno: -1 })));
}

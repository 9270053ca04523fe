use ping_template::connection_handle::{ConnectionHandle, EchoStatus};
use ping_template::echo_handle::Instant;
use ping_template::net::Ipv4Addr;
use ping_template::ping_app::{ConnectionHandleMap, ReplyWait, RunError};
use ping_template::utils::{needs_interval_tick, payload_delay_seconds};

fn dest() -> Ipv4Addr {
    Ipv4Addr::new(8, 8, 8, 8)
}

fn pending(seq: u16) -> ConnectionHandle {
    let t = Instant::from_nanos(1_000_000);
    ConnectionHandle::new(dest(), seq, 77, t, t, EchoStatus::Pending)
}

#[test]
fn register_keeps_an_existing_entry() {
    let mut m = ConnectionHandleMap::new();
    assert_eq!(m.register_pending(pending(1)), EchoStatus::Pending);
    assert_eq!(m.mark_sent(1, 40), EchoStatus::Sent);
    assert_eq!(m.register_pending(pending(1)), EchoStatus::Sent);
    assert_eq!(m.get(1).unwrap().elapsed_micros, 40);
    assert_eq!(m.handles().len(), 1);
}

#[test]
fn reply_is_accepted_once() {
    let mut m = ConnectionHandleMap::new();
    m.register_pending(pending(3));
    m.mark_sent(3, 12);
    let answered = m.accept_reply(dest(), Some((dest(), 3)), Instant::from_nanos(3_500_000)).unwrap();
    assert_eq!(answered.status, EchoStatus::Received);
    assert_eq!(answered.elapsed_micros, 2_500);
    assert_eq!(m.get(3), Some(answered));
    match m.accept_reply(dest(), Some((dest(), 3)), Instant::from_nanos(9_000_000)) {
        Err(RunError::UnexpectedReplyEchoStatus(EchoStatus::Received)) => {}
        other => panic!("unexpected {:?}", other),
    }
    assert_eq!(m.get(3), Some(answered));
}

#[test]
fn replies_that_do_not_fit_are_refused() {
    let mut m = ConnectionHandleMap::new();
    m.register_pending(pending(1));
    m.register_pending(pending(2));
    m.mark_sent(2, 1);
    let now = Instant::from_nanos(2_000_000);
    assert!(matches!(m.accept_reply(dest(), None, now), Err(RunError::EchoReplyFailure)));
    match m.accept_reply(dest(), Some((Ipv4Addr::new(9, 9, 9, 9), 2)), now) {
        Err(RunError::UnexpectedIP(ip)) => assert_eq!(ip, "9.9.9.9"),
        other => panic!("unexpected {:?}", other),
    }
    assert!(matches!(m.accept_reply(dest(), Some((dest(), 5)), now), Err(RunError::UnknownSequenceNumber(5))));
    assert!(matches!(
        m.accept_reply(dest(), Some((dest(), 1)), now),
        Err(RunError::UnexpectedReplyEchoStatus(EchoStatus::Pending))
    ));
    assert_eq!(m.mark_elapsed(2), EchoStatus::Elapsed);
    assert!(matches!(m.accept_reply(dest(), Some((dest(), 2)), now), Err(RunError::ElapsedReply)));
    assert_eq!(m.get(2).unwrap().status, EchoStatus::Elapsed);
}

#[test]
fn marks_on_missing_entries_change_nothing() {
    let mut m = ConnectionHandleMap::new();
    assert_eq!(m.mark_elapsed(4), EchoStatus::Failed);
    assert_eq!(m.mark_sent(4, 1), EchoStatus::Failed);
    assert_eq!(m.mark_failed(4), None);
    assert_eq!(m.handles().len(), 0);
    m.register_pending(pending(4));
    assert_eq!(m.mark_failed(4), Some(EchoStatus::Pending));
    assert_eq!(m.get(4).unwrap().status, EchoStatus::Failed);
}

#[test]
fn scheduling_decisions() {
    assert!(needs_interval_tick(0, 3));
    assert!(needs_interval_tick(1, 3));
    assert!(!needs_interval_tick(2, 3));
    assert!(!needs_interval_tick(0, 1));
    assert_eq!(payload_delay_seconds(0), Some(3));
    assert_eq!(payload_delay_seconds(2), Some(6));
    assert_eq!(payload_delay_seconds(7), Some(4));
    assert_eq!(payload_delay_seconds(9), Some(2));
    assert_eq!(payload_delay_seconds(10), None);
}

#[test]
fn settling_a_reply_wait() {
    let mut m = ConnectionHandleMap::new();
    m.register_pending(pending(1));
    m.register_pending(pending(2));
    m.register_pending(pending(3));
    m.mark_sent(1, 5);
    m.mark_sent(2, 5);
    m.mark_sent(3, 5);
    let (status, line) = m.settle_reply_wait(dest(), 1, ReplyWait::TimedOut);
    assert_eq!((status, line.as_deref()), (EchoStatus::Elapsed, Some("8.8.8.8,1,time out")));
    assert_eq!(m.get(1).unwrap().status, EchoStatus::Elapsed);
    let (status, line) = m.settle_reply_wait(dest(), 9, ReplyWait::TimedOut);
    assert_eq!((status, line.as_deref()), (EchoStatus::Failed, Some("8.8.8.8,9,time out")));
    assert_eq!(m.settle_reply_wait(dest(), 2, ReplyWait::TaskFailed), (EchoStatus::Failed, None));
    assert_eq!(m.get(2).unwrap().status, EchoStatus::Failed);
    let answered = m.accept_reply(dest(), Some((dest(), 3)), Instant::from_nanos(1_250_000)).unwrap();
    let (status, line) = m.settle_reply_wait(dest(), 3, ReplyWait::Replied(answered));
    assert_eq!((status, line.as_deref()), (EchoStatus::Received, Some("8.8.8.8,3,250 - Received")));
    assert_eq!(m.get(3), Some(answered));
    assert_eq!(m.settle_reply_wait(dest(), 3, ReplyWait::ReplyFailed), (EchoStatus::Failed, None));
    assert_eq!(m.get(3).unwrap().status, EchoStatus::Failed);
}

#[test]
fn handles_lists_each_entry_once() {
    let mut m = ConnectionHandleMap::new();
    for seq in [4u16, 1, 9, 1, 4] {
        m.register_pending(pending(seq));
    }
    let mut seqs: Vec<u16> = m.handles().iter().map(|h| h.seq).collect();
    seqs.sort();
    assert_eq!(seqs, vec![1, 4, 9]);
}

use piper::channel::crossbeam_queue;
use piper::channel::{
    no_endpoints, no_senders, receiver_is_closed, recv_outcome, recv_timeout_outcome, send_outcome,
    sender_is_closed, try_recv_outcome, unbounded, EndpointCounts, Polled, RecvError,
    RecvTimeoutError, SendError, TryRecvError, Waited,
};
use std::time::Duration;

#[test]
fn send_recv_round_trip() {
    let (tx, rx) = unbounded::<u32>();
    tx.send(7).unwrap();
    assert_eq!(rx.recv().unwrap(), 7);
}

#[test]
fn try_recv_empty() {
    let (_tx, rx) = unbounded::<u32>();
    assert_eq!(rx.try_recv(), Err(TryRecvError::Empty));
}

#[test]
fn recv_timeout_times_out() {
    let (_tx, rx) = unbounded::<u32>();
    assert_eq!(rx.recv_timeout(Duration::from_millis(1)), Err(RecvTimeoutError::Timeout));
}

#[test]
fn closed_after_sender_drop() {
    let (tx, rx) = unbounded::<u32>();
    tx.send(1).unwrap();
    drop(tx);
    assert_eq!(rx.recv().unwrap(), 1);
    assert!(rx.is_terminated());
    assert_eq!(rx.try_recv(), Err(TryRecvError::Closed));
    assert_eq!(rx.recv_timeout(Duration::ZERO), Err(RecvTimeoutError::Closed));
}

#[test]
fn send_fails_after_receiver_drop() {
    let (tx, rx) = unbounded::<u32>();
    drop(rx);
    assert!(tx.is_closed());
    assert_eq!(tx.send(1), Err(SendError));
}

#[test]
fn len_is_empty_and_closed_checks() {
    let (tx, rx) = unbounded::<u32>();
    assert!(rx.is_empty());
    assert_eq!(rx.len(), 0);
    tx.send(1).unwrap();
    tx.send(2).unwrap();
    assert!(!rx.is_empty());
    assert_eq!(rx.len(), 2);
    drop(tx);
    assert!(!rx.is_closed());
    assert_eq!(rx.recv().unwrap(), 1);
    assert_eq!(rx.recv().unwrap(), 2);
    assert!(rx.is_empty());
    assert!(rx.is_terminated());
    drop(rx);
}

#[test]
fn cloned_endpoints_share_channel() {
    let (tx, rx) = unbounded::<u32>();
    let tx2 = tx.clone();
    let rx2 = rx.clone();
    tx.send(1).unwrap();
    tx2.send(2).unwrap();
    assert_eq!(rx.recv().unwrap(), 1);
    assert_eq!(rx2.recv().unwrap(), 2);
}

#[test]
fn a_clone_keeps_the_channel_open() {
    let (tx, rx) = unbounded::<u32>();
    let tx2 = tx.clone();
    drop(tx);
    assert!(!rx.is_terminated());
    assert!(!tx2.is_closed());
    drop(tx2);
    assert!(rx.is_terminated());
    assert!(rx.is_closed());
    assert_eq!(rx.recv(), Err(RecvError));
}

#[test]
fn crossbeam_round_trip_and_clones() {
    let (tx, rx) = crossbeam_queue::unbounded::<u32>();
    let tx2 = tx.clone();
    let rx2 = rx.clone();
    tx.send(1).unwrap();
    tx2.send(2).unwrap();
    assert_eq!(rx.len(), 2);
    assert_eq!(rx.recv().unwrap(), 1);
    assert_eq!(rx2.recv().unwrap(), 2);
    assert!(rx.is_empty());
    assert_eq!(rx.try_recv(), Err(TryRecvError::Empty));
    assert_eq!(rx.recv_timeout(Duration::from_millis(1)), Err(RecvTimeoutError::Timeout));
}

#[test]
fn crossbeam_closes_with_its_senders() {
    let (tx, rx) = crossbeam_queue::unbounded::<u32>();
    tx.send(1).unwrap();
    drop(tx);
    assert!(rx.is_terminated());
    assert!(!rx.is_closed());
    assert_eq!(rx.recv().unwrap(), 1);
    assert!(rx.is_closed());
    assert_eq!(rx.try_recv(), Err(TryRecvError::Closed));
    assert_eq!(rx.recv_timeout(Duration::ZERO), Err(RecvTimeoutError::Closed));
    assert_eq!(rx.recv(), Err(RecvError));
}

#[test]
fn crossbeam_send_fails_after_receiver_drop() {
    let (tx, rx) = crossbeam_queue::unbounded::<u32>();
    assert!(!tx.is_closed());
    drop(rx);
    assert!(tx.is_closed());
    assert_eq!(tx.send(1), Err(SendError));
}

#[test]
fn outcomes_follow_the_queue() {
    assert_eq!(send_outcome(true), Ok(()));
    assert_eq!(send_outcome(false), Err(SendError));
    assert_eq!(recv_outcome(Some(3)), Ok(3));
    assert_eq!(recv_outcome::<u8>(None), Err(RecvError));
    assert_eq!(try_recv_outcome(Polled::Item(3), true), Ok(3));
    assert_eq!(try_recv_outcome::<u8>(Polled::Nothing, false), Err(TryRecvError::Empty));
    assert_eq!(try_recv_outcome::<u8>(Polled::Nothing, true), Err(TryRecvError::Closed));
    assert_eq!(try_recv_outcome::<u8>(Polled::Closed, false), Err(TryRecvError::Closed));
    assert_eq!(recv_timeout_outcome(Waited::Item(3), true), Ok(3));
    assert_eq!(recv_timeout_outcome::<u8>(Waited::Timeout, false), Err(RecvTimeoutError::Timeout));
    assert_eq!(recv_timeout_outcome::<u8>(Waited::Timeout, true), Err(RecvTimeoutError::Closed));
    assert_eq!(recv_timeout_outcome::<u8>(Waited::Closed, false), Err(RecvTimeoutError::Closed));
}

#[test]
fn endpoint_counts_rise_and_fall() {
    let counts = EndpointCounts::new();
    assert_eq!((counts.senders(), counts.receivers()), (1, 1));
    let more = counts.sender_clone();
    assert_eq!(more.senders(), 2);
    let _same = counts.receiver_clone();
    assert_eq!(counts.receivers(), 2);
    more.drop_sender();
    counts.drop_sender();
    assert!(counts.is_terminated());
    assert!(!counts.is_closed());
    counts.drop_receiver();
    counts.drop_receiver();
    assert!(counts.shared().is_closed());
}

#[test]
fn closed_predicates_on_counts() {
    assert!(no_senders(0));
    assert!(!no_senders(2));
    assert!(no_endpoints(0, 0));
    assert!(!no_endpoints(0, 1));
    assert!(!sender_is_closed(1, 1, false));
    assert!(sender_is_closed(1, 0, false));
    assert!(sender_is_closed(1, 1, true));
    assert!(receiver_is_closed(0, 1, true));
    assert!(!receiver_is_closed(0, 1, false));
    assert!(!receiver_is_closed(1, 1, true));
}

#[test]
fn channel_errors_have_words() {
    assert_eq!(SendError.describe(), "channel send failed");
    assert_eq!(RecvError.describe(), "channel receive failed");
}

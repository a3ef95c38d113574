use piper::channel::kanal_queue;
use piper::error::InternalFailure;
use piper::lease::{recycled_or_new, LeasePool};
use piper::link::{loss_is_fatal, signals};
use piper::{BufferLease, Recycle};
use std::sync::atomic::{AtomicBool, Ordering};
use std::sync::Arc;

#[test]
fn lease_returns_recycled_value_on_drop() {
    let (recycle_sender, recycle_receiver) = kanal::unbounded();
    let (runtime, _failures) =
        signals(Arc::new(AtomicBool::new(false)), Arc::new(AtomicBool::new(false)));

    {
        let mut lease = BufferLease::new(vec![1, 2, 3], recycle_sender, runtime);
        lease.get_mut().push(4);
        lease.give_back();
    }

    let recycled: Vec<i32> = recycle_receiver.recv().unwrap();
    assert!(recycled.is_empty());
    assert!(recycled.capacity() >= 4);
}

#[test]
fn lease_recycle_failure_is_fatal_outside_shutdown() {
    let (recycle_sender, recycle_receiver) = kanal::unbounded::<Vec<i32>>();
    drop(recycle_receiver);
    let abort = Arc::new(AtomicBool::new(false));
    let (runtime, failures) = signals(Arc::new(AtomicBool::new(false)), Arc::clone(&abort));

    BufferLease::new(vec![1], recycle_sender, runtime).give_back();

    assert!(abort.load(Ordering::Acquire));
    let InternalFailure::Internal { message } = failures.next().unwrap() else {
        panic!("expected internal recycle failure");
    };
    assert!(message.contains("recycle"));
}

#[test]
fn lease_recycle_failure_is_quiet_during_shutdown() {
    let (recycle_sender, recycle_receiver) = kanal::unbounded::<Vec<i32>>();
    drop(recycle_receiver);
    let abort = Arc::new(AtomicBool::new(false));
    let (runtime, failures) = signals(Arc::new(AtomicBool::new(true)), Arc::clone(&abort));

    BufferLease::new(vec![1], recycle_sender, runtime).give_back();

    assert!(!abort.load(Ordering::Acquire));
    assert!(failures.next().is_none());
}

#[test]
fn a_kept_buffer_is_not_returned() {
    let (recycle_sender, recycle_receiver) = kanal::unbounded::<Vec<i32>>();
    let (runtime, _failures) =
        signals(Arc::new(AtomicBool::new(false)), Arc::new(AtomicBool::new(false)));
    let lease = BufferLease::new(vec![5], recycle_sender, runtime);
    assert_eq!(lease.get(), &vec![5]);
    assert_eq!(lease.into_inner(), vec![5]);
    assert_eq!(recycle_receiver.len(), 0);
}

#[test]
fn a_pool_lends_what_was_given_back() {
    let (runtime, _failures) =
        signals(Arc::new(AtomicBool::new(false)), Arc::new(AtomicBool::new(false)));
    let pool = LeasePool::<Vec<u8>>::new(runtime);
    let factory = || Vec::with_capacity(3);
    let mut first = pool.acquire(&factory);
    first.get_mut().extend_from_slice(&[1; 64]);
    first.give_back();
    let second = pool.acquire(&factory);
    assert!(second.get().is_empty());
    assert!(second.get().capacity() >= 64);
    let third = pool.acquire(&factory);
    assert!(third.get().capacity() < 64);
}

#[test]
fn recycling_and_choice_of_buffers() {
    let mut values = vec![1, 2];
    values.recycle();
    assert!(values.is_empty());
    assert_eq!(recycled_or_new(Some(4), &|| 9), 4);
    assert_eq!(recycled_or_new(None, &|| 9), 9);
}

#[test]
fn only_an_unexpected_loss_is_fatal() {
    assert!(loss_is_fatal(false, false, false));
    assert!(!loss_is_fatal(true, false, false));
    assert!(!loss_is_fatal(false, true, false));
    assert!(!loss_is_fatal(false, false, true));
}

#[test]
fn the_queue_behind_a_lease_is_shared() {
    let (tx, rx) = kanal_queue::unbounded::<u8>();
    tx.send(3).unwrap();
    assert_eq!(rx.clone().recv(), Ok(3));
}

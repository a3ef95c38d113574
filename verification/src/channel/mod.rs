//! Unbounded channels with one interface over two queues. What a queue holds
//! depends on the threads at its other ends, so each answer of a queue is judged
//! by a function of its own.
//!
//! Where an answer rests on other threads, a relation whose name begins with
//! `may_` says which answers a call can have given: it holds of an answer that
//! the call did give on these very ends.
use std::sync::atomic::{AtomicUsize, Ordering};
use std::sync::Arc;
use vstd::prelude::*;
use vstd::string::*;

pub mod crossbeam_queue;
pub mod kanal_queue;

pub use kanal_queue::{unbounded, Receiver, Sender};

verus! {

/// Why nothing was received at once.
#[derive(Debug, Clone, Copy, PartialEq, Eq, Structural)]
pub enum TryRecvError {
    Empty,
    Closed,
}

/// Why nothing was received in time.
#[derive(Debug, Clone, Copy, PartialEq, Eq, Structural)]
pub enum RecvTimeoutError {
    Timeout,
    Closed,
}

/// Nobody can receive any more.
#[derive(Debug, Clone, Copy, PartialEq, Eq, Structural)]
pub struct SendError;

/// Nothing can be received any more.
#[derive(Debug, Clone, Copy, PartialEq, Eq, Structural)]
pub struct RecvError;

impl SendError {
    pub fn describe(self) -> (text: String)
        ensures
            text@ == "channel send failed"@,
    {
        "channel send failed".to_string()
    }
}

impl RecvError {
    pub fn describe(self) -> (text: String)
        ensures
            text@ == "channel receive failed"@,
    {
        "channel receive failed".to_string()
    }
}

/// What a queue answers when it is asked for an item at once.
#[derive(Debug)]
pub enum Polled<T> {
    Item(T),
    Nothing,
    Closed,
}

/// What a queue answers when it is asked to wait for an item.
#[derive(Debug)]
pub enum Waited<T> {
    Item(T),
    Timeout,
    Closed,
}

/// The answer to a sender, by whether the queue took the item.
pub fn send_outcome(delivered: bool) -> (outcome: Result<(), SendError>)
    ensures
        outcome == if delivered {
            Ok::<(), SendError>(())
        } else {
            Err(SendError)
        },
{
    if delivered {
        Ok(())
    } else {
        Err(SendError)
    }
}

/// The answer to a receiver that waits as long as it takes.
pub fn recv_outcome<T>(item: Option<T>) -> (outcome: Result<T, RecvError>)
    ensures
        outcome == match item {
            Some(value) => Ok::<T, RecvError>(value),
            None => Err(RecvError),
        },
{
    match item {
        Some(value) => Ok(value),
        None => Err(RecvError),
    }
}

/// What a receiver that does not wait is told. `drained` says that every sender
/// is gone and the queue is empty.
pub open spec fn polled_result<T>(polled: Polled<T>, drained: bool) -> Result<T, TryRecvError> {
    match polled {
        Polled::Item(value) => Ok::<T, TryRecvError>(value),
        Polled::Nothing => if drained {
            Err(TryRecvError::Closed)
        } else {
            Err(TryRecvError::Empty)
        },
        Polled::Closed => Err(TryRecvError::Closed),
    }
}

/// The answer to a receiver that does not wait.
pub fn try_recv_outcome<T>(polled: Polled<T>, drained: bool) -> (outcome: Result<T, TryRecvError>)
    ensures
        outcome == polled_result(polled, drained),
{
    match polled {
        Polled::Item(value) => Ok(value),
        Polled::Nothing => if drained {
            Err(TryRecvError::Closed)
        } else {
            Err(TryRecvError::Empty)
        },
        Polled::Closed => Err(TryRecvError::Closed),
    }
}

/// What a receiver that waits for some time is told. `drained` says that every
/// sender is gone and the queue is empty.
pub open spec fn waited_result<T>(waited: Waited<T>, drained: bool) -> Result<T, RecvTimeoutError> {
    match waited {
        Waited::Item(value) => Ok::<T, RecvTimeoutError>(value),
        Waited::Timeout => if drained {
            Err(RecvTimeoutError::Closed)
        } else {
            Err(RecvTimeoutError::Timeout)
        },
        Waited::Closed => Err(RecvTimeoutError::Closed),
    }
}

/// The answer to a receiver that waits for some time.
pub fn recv_timeout_outcome<T>(waited: Waited<T>, drained: bool) -> (outcome: Result<
    T,
    RecvTimeoutError,
>)
    ensures
        outcome == waited_result(waited, drained),
{
    match waited {
        Waited::Item(value) => Ok(value),
        Waited::Timeout => if drained {
            Err(RecvTimeoutError::Closed)
        } else {
            Err(RecvTimeoutError::Timeout)
        },
        Waited::Closed => Err(RecvTimeoutError::Closed),
    }
}

/// Nobody sends any more.
pub fn no_senders(senders: usize) -> (yes: bool)
    ensures
        yes == (senders == 0),
{
    senders == 0
}

/// Nobody holds either end.
pub fn no_endpoints(senders: usize, receivers: usize) -> (yes: bool)
    ensures
        yes == (senders == 0 && receivers == 0),
{
    senders == 0 && receivers == 0
}

/// A sender's channel is closed: one side has no endpoint left, or the queue
/// says so.
pub fn sender_is_closed(senders: usize, receivers: usize, queue_closed: bool) -> (yes: bool)
    ensures
        yes == (senders == 0 || receivers == 0 || queue_closed),
{
    receivers == 0 || senders == 0 || queue_closed
}

/// A receiver's channel is closed: nobody holds either end, or no sender is left
/// and nothing is queued.
pub fn receiver_is_closed(senders: usize, receivers: usize, empty: bool) -> (yes: bool)
    ensures
        yes == (senders == 0 && (receivers == 0 || empty)),
{
    no_endpoints(senders, receivers) || (no_senders(senders) && empty)
}

/// How many senders and receivers a channel has. The counts are shared by all
/// of its endpoints and may change at any time.
pub struct EndpointCounts {
    senders: Arc<AtomicUsize>,
    receivers: Arc<AtomicUsize>,
}

/// `AtomicUsize::fetch_sub` of std by one: it wraps around and cannot panic. The
/// count before it depends on other threads, and nothing is said of it.
#[verifier::external_body]
fn lower(count: &AtomicUsize)
    opens_invariants none
    no_unwind
{
    count.fetch_sub(1, Ordering::Relaxed);
}

impl EndpointCounts {
    /// The counts were made for one sender and one receiver.
    pub closed spec fn begins_with_one_of_each(self) -> bool {
        &&& call_ensures(AtomicUsize::new, (1usize,), *self.senders)
        &&& call_ensures(AtomicUsize::new, (1usize,), *self.receivers)
    }

    /// A look at the senders may show this count.
    pub closed spec fn may_show_senders(self, count: usize) -> bool {
        call_ensures(AtomicUsize::load, (&*self.senders, Ordering::Relaxed), count)
    }

    /// A look at the receivers may show this count.
    pub closed spec fn may_show_receivers(self, count: usize) -> bool {
        call_ensures(AtomicUsize::load, (&*self.receivers, Ordering::Relaxed), count)
    }

    /// One was added to the senders.
    pub closed spec fn has_raised_senders(self) -> bool {
        exists|before: usize|
            call_ensures(AtomicUsize::fetch_add, (&*self.senders, 1usize, Ordering::Relaxed), before)
    }

    /// One was added to the receivers.
    pub closed spec fn has_raised_receivers(self) -> bool {
        exists|before: usize|
            call_ensures(
                AtomicUsize::fetch_add,
                (&*self.receivers, 1usize, Ordering::Relaxed),
                before,
            )
    }

    /// One was taken from the senders.
    pub closed spec fn has_lowered_senders(self) -> bool {
        call_ensures(lower, (&*self.senders,), ())
    }

    /// One was taken from the receivers.
    pub closed spec fn has_lowered_receivers(self) -> bool {
        call_ensures(lower, (&*self.receivers,), ())
    }

    /// A look at the senders may find none, or may find some.
    pub open spec fn may_be_terminated(self, yes: bool) -> bool {
        exists|senders: usize| #[trigger] self.may_show_senders(senders) && yes == (senders == 0)
    }

    /// One of each.
    pub fn new() -> (counts: Self)
        ensures
            counts.begins_with_one_of_each(),
    {
        EndpointCounts {
            senders: Arc::new(AtomicUsize::new(1)),
            receivers: Arc::new(AtomicUsize::new(1)),
        }
    }

    /// The same counts, for one sender more.
    pub fn sender_clone(&self) -> (counts: Self)
        ensures
            counts == *self,
            self.has_raised_senders(),
    {
        self.senders.fetch_add(1, Ordering::Relaxed);
        self.shared()
    }

    /// The same counts, for one receiver more.
    pub fn receiver_clone(&self) -> (counts: Self)
        ensures
            counts == *self,
            self.has_raised_receivers(),
    {
        self.receivers.fetch_add(1, Ordering::Relaxed);
        self.shared()
    }

    /// The same counts.
    pub fn shared(&self) -> (counts: Self)
        ensures
            counts == *self,
    {
        EndpointCounts {
            senders: Arc::clone(&self.senders),
            receivers: Arc::clone(&self.receivers),
        }
    }

    /// Counts one sender less.
    pub fn drop_sender(&self)
        ensures
            self.has_lowered_senders(),
        opens_invariants none
        no_unwind
    {
        lower(&self.senders);
    }

    /// Counts one receiver less.
    pub fn drop_receiver(&self)
        ensures
            self.has_lowered_receivers(),
        opens_invariants none
        no_unwind
    {
        lower(&self.receivers);
    }

    pub fn senders(&self) -> (count: usize)
        ensures
            self.may_show_senders(count),
    {
        self.senders.load(Ordering::Relaxed)
    }

    pub fn receivers(&self) -> (count: usize)
        ensures
            self.may_show_receivers(count),
    {
        self.receivers.load(Ordering::Relaxed)
    }

    pub fn is_terminated(&self) -> (yes: bool)
        ensures
            self.may_be_terminated(yes),
    {
        no_senders(self.senders())
    }

    pub fn is_closed(&self) -> (yes: bool)
        ensures
            exists|senders: usize, receivers: usize| #[trigger]
                self.may_show_senders(senders) && #[trigger] self.may_show_receivers(receivers)
                    && yes == (senders == 0 && receivers == 0),
    {
        no_endpoints(self.senders(), self.receivers())
    }
}

/// An item is sent exactly where the queue took it.
pub proof fn law_sender_is_told_of_a_loss(delivered: bool, outcome: Result<(), SendError>)
    requires
        call_ensures(send_outcome, (delivered,), outcome),
    ensures
        outcome is Ok <==> delivered,
{
}

/// A receiver gets the item that the queue gave, whichever way it asked.
pub proof fn law_receiver_gets_what_was_given<T>(
    value: T,
    drained: bool,
    received: Result<T, RecvError>,
    tried: Result<T, TryRecvError>,
    timed: Result<T, RecvTimeoutError>,
)
    requires
        call_ensures(recv_outcome::<T>, (Some(value),), received),
        call_ensures(try_recv_outcome::<T>, (Polled::Item(value), drained), tried),
        call_ensures(recv_timeout_outcome::<T>, (Waited::Item(value), drained), timed),
    ensures
        received == Ok::<T, RecvError>(value),
        tried == Ok::<T, TryRecvError>(value),
        timed == Ok::<T, RecvTimeoutError>(value),
{
}

/// A receiver that gets nothing is told why: the channel is closed where the queue says
/// so or where every sender is gone and nothing is left; otherwise there is just
/// nothing yet.
pub proof fn law_receiver_is_told_why<T>(
    polled: Polled<T>,
    waited: Waited<T>,
    drained: bool,
    received: Result<T, RecvError>,
    tried: Result<T, TryRecvError>,
    timed: Result<T, RecvTimeoutError>,
)
    requires
        call_ensures(recv_outcome::<T>, (None::<T>,), received),
        call_ensures(try_recv_outcome::<T>, (polled, drained), tried),
        call_ensures(recv_timeout_outcome::<T>, (waited, drained), timed),
    ensures
        received is Err,
        tried is Err <==> !(polled is Item),
        tried is Err ==> (tried->Err_0 is Closed <==> polled is Closed || drained),
        tried is Err ==> (tried->Err_0 is Empty <==> polled is Nothing && !drained),
        timed is Err <==> !(waited is Item),
        timed is Err ==> (timed->Err_0 is Closed <==> waited is Closed || drained),
        timed is Err ==> (timed->Err_0 is Timeout <==> waited is Timeout && !drained),
{
}

/// The ends of a channel close so: a sender's as soon as either side is gone or the
/// queue is closed; a receiver's once nobody sends and nothing is left to receive, and
/// once nobody is there at all. An open receiver that has a sender never closes.
pub proof fn law_ends_close(
    senders: usize,
    receivers: usize,
    queue_closed: bool,
    empty: bool,
    sender_closed: bool,
    receiver_closed: bool,
    nobody_sends: bool,
    nobody_there: bool,
)
    requires
        call_ensures(sender_is_closed, (senders, receivers, queue_closed), sender_closed),
        call_ensures(receiver_is_closed, (senders, receivers, empty), receiver_closed),
        call_ensures(no_senders, (senders,), nobody_sends),
        call_ensures(no_endpoints, (senders, receivers), nobody_there),
    ensures
        nobody_sends <==> senders == 0,
        nobody_there <==> senders == 0 && receivers == 0,
        queue_closed || receivers == 0 || senders == 0 ==> sender_closed,
        !queue_closed && receivers > 0 && senders > 0 ==> !sender_closed,
        senders > 0 ==> !receiver_closed,
        senders == 0 && empty ==> receiver_closed,
        senders == 0 && receivers == 0 ==> receiver_closed,
        senders == 0 && receivers > 0 && !empty ==> !receiver_closed,
{
}

/// The channel's errors are worded each in its own way.
pub proof fn law_channel_errors_are_worded(sent: String, received: String)
    requires
        call_ensures(SendError::describe, (SendError,), sent),
        call_ensures(RecvError::describe, (RecvError,), received),
    ensures
        sent@ == "channel send failed"@,
        received@ == "channel receive failed"@,
{
}

impl EndpointCounts {
    /// The count of the senders.
    pub closed spec fn sending(self) -> AtomicUsize {
        *self.senders
    }

    /// The count of the receivers.
    pub closed spec fn receiving(self) -> AtomicUsize {
        *self.receivers
    }
}

/// The counts begin at one of each, and each shows its own: what one sees of the senders
/// is the senders' count, and of the receivers the receivers'.
pub proof fn law_each_side_is_counted(
    made: EndpointCounts,
    counts: EndpointCounts,
    senders: usize,
    receivers: usize,
    terminated: bool,
    closed: bool,
)
    requires
        call_ensures(EndpointCounts::new, (), made),
        call_ensures(EndpointCounts::senders, (&counts,), senders),
        call_ensures(EndpointCounts::receivers, (&counts,), receivers),
        call_ensures(EndpointCounts::is_terminated, (&counts,), terminated),
        call_ensures(EndpointCounts::is_closed, (&counts,), closed),
    ensures
        call_ensures(AtomicUsize::new, (1usize,), made.sending()),
        call_ensures(AtomicUsize::new, (1usize,), made.receiving()),
        call_ensures(AtomicUsize::load, (&counts.sending(), Ordering::Relaxed), senders),
        call_ensures(AtomicUsize::load, (&counts.receiving(), Ordering::Relaxed), receivers),
        exists|count: usize| #[trigger]
            call_ensures(AtomicUsize::load, (&counts.sending(), Ordering::Relaxed), count)
                && terminated == (count == 0),
        closed ==> call_ensures(
            AtomicUsize::load,
            (&counts.sending(), Ordering::Relaxed),
            0usize,
        ) && call_ensures(AtomicUsize::load, (&counts.receiving(), Ordering::Relaxed), 0usize),
{
    let count = choose|count: usize| #[trigger]
        counts.may_show_senders(count) && terminated == (count == 0);
    assert(call_ensures(AtomicUsize::load, (&counts.sending(), Ordering::Relaxed), count));
}

/// Another sender is one more among the senders and one that goes is one less, and so for
/// receivers; all share the same counts.
proof fn law_each_end_counts_on_its_side(
    counts: EndpointCounts,
    another_sender: EndpointCounts,
    another_receiver: EndpointCounts,
    same: EndpointCounts,
)
    requires
        call_ensures(EndpointCounts::sender_clone, (&counts,), another_sender),
        call_ensures(EndpointCounts::receiver_clone, (&counts,), another_receiver),
        call_ensures(EndpointCounts::shared, (&counts,), same),
        call_ensures(EndpointCounts::drop_sender, (&counts,), ()),
        call_ensures(EndpointCounts::drop_receiver, (&counts,), ()),
    ensures
        another_sender == counts && another_receiver == counts && same == counts,
        exists|before: usize|
            call_ensures(
                AtomicUsize::fetch_add,
                (&counts.sending(), 1usize, Ordering::Relaxed),
                before,
            ),
        exists|before: usize|
            call_ensures(
                AtomicUsize::fetch_add,
                (&counts.receiving(), 1usize, Ordering::Relaxed),
                before,
            ),
        call_ensures(lower, (&counts.sending(),), ()),
        call_ensures(lower, (&counts.receiving(),), ()),
{
}

} // verus!

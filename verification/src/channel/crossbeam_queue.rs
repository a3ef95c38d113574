//! Channels over a crossbeam queue.
use crate::channel::{
    receiver_is_closed, recv_outcome, recv_timeout_outcome, send_outcome,
    sender_is_closed, try_recv_outcome, EndpointCounts, Polled, RecvError, RecvTimeoutError,
    SendError, TryRecvError, Waited,
};
use crate::channel;
use core::time::Duration;
use crossbeam_channel::Receiver as CrossbeamReceiver;
use crossbeam_channel::Sender as CrossbeamSender;
use vstd::prelude::*;

verus! {

/// `crossbeam_channel::Sender`: one sending end of a queue.
#[verifier::external_type_specification]
#[verifier::external_body]
#[verifier::reject_recursive_types(T)]
pub struct ExCrossbeamSender<T>(CrossbeamSender<T>);

/// `crossbeam_channel::Receiver`: one receiving end of a queue.
#[verifier::external_type_specification]
#[verifier::external_body]
#[verifier::reject_recursive_types(T)]
pub struct ExCrossbeamReceiver<T>(CrossbeamReceiver<T>);

/// `crossbeam_channel::unbounded`: the two ends of a new queue.
#[verifier::external_body]
fn queue<T>() -> (CrossbeamSender<T>, CrossbeamReceiver<T>) {
    crossbeam_channel::unbounded()
}

/// `Clone::clone` of `crossbeam_channel::Sender`: another sending end of the
/// same queue.
#[verifier::external_body]
fn clone_sender<T>(sender: &CrossbeamSender<T>) -> CrossbeamSender<T> {
    sender.clone()
}

/// `Clone::clone` of `crossbeam_channel::Receiver`: another receiving end of the
/// same queue.
#[verifier::external_body]
fn clone_receiver<T>(receiver: &CrossbeamReceiver<T>) -> CrossbeamReceiver<T> {
    receiver.clone()
}

/// `crossbeam_channel::Sender::send`: hands an item over and says whether the
/// queue took it. That depends on the receivers at the time, and nothing is said
/// of it.
#[verifier::external_body]
fn deliver<T>(sender: &CrossbeamSender<T>, value: T) -> (delivered: bool) {
    sender.send(value).is_ok()
}

/// `crossbeam_channel::Receiver::recv`: waits for an item; `None` where the
/// queue is empty and disconnected. What comes depends on the senders, and
/// nothing is said of it.
#[verifier::external_body]
fn wait<T>(receiver: &CrossbeamReceiver<T>) -> (item: Option<T>) {
    receiver.recv().ok()
}

/// `crossbeam_channel::Receiver::try_recv`: an item, nothing, or that the queue
/// is empty and disconnected. What comes depends on the senders, and nothing is
/// said of it.
#[verifier::external_body]
fn poll<T>(receiver: &CrossbeamReceiver<T>) -> (polled: Polled<T>) {
    match receiver.try_recv() {
        Ok(value) => Polled::Item(value),
        Err(crossbeam_channel::TryRecvError::Empty) => Polled::Nothing,
        Err(crossbeam_channel::TryRecvError::Disconnected) => Polled::Closed,
    }
}

/// `crossbeam_channel::Receiver::recv_timeout`: an item, that the time is over,
/// or that the queue is empty and disconnected. A span that ends beyond the
/// clock's reach is waited out without a limit. What comes depends on the senders
/// and the clock, and nothing is said of it.
#[verifier::external_body]
fn wait_for<T>(receiver: &CrossbeamReceiver<T>, duration: Duration) -> (waited: Waited<T>) {
    match receiver.recv_timeout(duration) {
        Ok(value) => Waited::Item(value),
        Err(crossbeam_channel::RecvTimeoutError::Timeout) => Waited::Timeout,
        Err(crossbeam_channel::RecvTimeoutError::Disconnected) => Waited::Closed,
    }
}

/// `crossbeam_channel::Receiver::len`: how many items are queued at the time.
#[verifier::external_body]
fn queued<T>(receiver: &CrossbeamReceiver<T>) -> usize {
    receiver.len()
}

/// `crossbeam_channel::Receiver::is_empty`: whether nothing is queued at the
/// time.
#[verifier::external_body]
fn is_drained<T>(receiver: &CrossbeamReceiver<T>) -> bool {
    receiver.is_empty()
}

/// A sending end. What its methods answer depends on the channel's other ends
/// and is judged by the functions of the parent module.
#[verifier::reject_recursive_types(T)]
pub struct Sender<T> {
    inner: CrossbeamSender<T>,
    endpoints: EndpointCounts,
}

impl<T> Clone for Sender<T> {
    fn clone(&self) -> (sender: Self)
        ensures
            sender.counts() == self.counts(),
            self.may_be_same(sender),
            self.counts().has_raised_senders(),
    {
        Sender { inner: clone_sender(&self.inner), endpoints: self.endpoints.sender_clone() }
    }
}

impl<T> Drop for Sender<T> {
    fn drop(&mut self)
        opens_invariants none
        no_unwind
    {
        self.endpoints.drop_sender();
    }
}

impl<T> Sender<T> {
    /// The counts that all endpoints of the channel share.
    pub closed spec fn counts(self) -> EndpointCounts {
        self.endpoints
    }

    /// The other end may have been made from this one.
    pub closed spec fn may_be_same(self, other: Self) -> bool {
        call_ensures(clone_sender::<T>, (&self.inner,), other.inner)
    }

    /// This end and the receiving one were made as those of one queue.
    pub closed spec fn may_lead_to(self, receiver: Receiver<T>) -> bool {
        call_ensures(queue::<T>, (), (self.inner, receiver.inner))
    }

    /// The queue may take the item, or may not, when it is handed over here.
    pub closed spec fn may_deliver(self, value: T, delivered: bool) -> bool {
        call_ensures(deliver::<T>, (&self.inner, value), delivered)
    }

    /// Hands the item over; the answer says whether the queue took it.
    pub fn send(&self, value: T) -> (outcome: Result<(), SendError>)
        ensures
            self.may_deliver(value, outcome is Ok),
    {
        send_outcome(deliver(&self.inner, value))
    }

    pub fn is_closed(&self) -> (yes: bool)
        ensures
            exists|senders: usize, receivers: usize| #[trigger]
                self.counts().may_show_senders(senders)
                    && #[trigger] self.counts().may_show_receivers(receivers) && yes == (senders
                    == 0 || receivers == 0),
    {
        assert(self.counts() == self.endpoints);
        sender_is_closed(self.endpoints.senders(), self.endpoints.receivers(), false)
    }
}

/// A receiving end. What its methods answer depends on the channel's other ends
/// and is judged by the functions of the parent module.
#[verifier::reject_recursive_types(T)]
pub struct Receiver<T> {
    inner: CrossbeamReceiver<T>,
    endpoints: EndpointCounts,
}

impl<T> Clone for Receiver<T> {
    fn clone(&self) -> (receiver: Self)
        ensures
            receiver.counts() == self.counts(),
            self.may_be_same(receiver),
            self.counts().has_raised_receivers(),
    {
        Receiver { inner: clone_receiver(&self.inner), endpoints: self.endpoints.receiver_clone() }
    }
}

impl<T> Drop for Receiver<T> {
    fn drop(&mut self)
        opens_invariants none
        no_unwind
    {
        self.endpoints.drop_receiver();
    }
}

impl<T> Receiver<T> {
    /// The counts that all endpoints of the channel share.
    pub closed spec fn counts(self) -> EndpointCounts {
        self.endpoints
    }

    /// The other end may have been made from this one.
    pub closed spec fn may_be_same(self, other: Self) -> bool {
        call_ensures(clone_receiver::<T>, (&self.inner,), other.inner)
    }

    /// The queue may give this item, or none, to one who waits.
    pub closed spec fn may_give(self, item: Option<T>) -> bool {
        call_ensures(wait::<T>, (&self.inner,), item)
    }

    /// The queue may answer so to one who does not wait.
    pub closed spec fn may_answer(self, polled: Polled<T>) -> bool {
        call_ensures(poll::<T>, (&self.inner,), polled)
    }

    /// The queue may answer so to one who waits for this long.
    pub closed spec fn may_answer_within(self, duration: Duration, waited: Waited<T>) -> bool {
        call_ensures(wait_for::<T>, (&self.inner, duration), waited)
    }

    /// The queue may be said to hold so many items.
    pub closed spec fn may_hold(self, len: usize) -> bool {
        call_ensures(queued::<T>, (&self.inner,), len)
    }

    /// The queue may be said to hold nothing, or something.
    pub closed spec fn may_be_empty(self, yes: bool) -> bool {
        call_ensures(is_drained::<T>, (&self.inner,), yes)
    }

    /// Waits for an item as long as it takes.
    pub fn recv(&self) -> (outcome: Result<T, RecvError>)
        ensures
            match outcome {
                Ok(value) => self.may_give(Some(value)),
                Err(_) => self.may_give(None),
            },
    {
        recv_outcome(wait(&self.inner))
    }

    /// Takes an item if one is there.
    pub fn try_recv(&self) -> (outcome: Result<T, TryRecvError>)
        ensures
            exists|polled: Polled<T>| #[trigger]
                self.may_answer(polled) && outcome == channel::polled_result(polled, false),
    {
        let polled: Polled<T> = poll(&self.inner);
        assert(self.may_answer(polled));
        try_recv_outcome(polled, false)
    }

    /// Waits for an item for some time.
    pub fn recv_timeout(&self, duration: Duration) -> (outcome: Result<T, RecvTimeoutError>)
        ensures
            exists|waited: Waited<T>| #[trigger]
                self.may_answer_within(duration, waited) && outcome == channel::waited_result(
                    waited,
                    false,
                ),
    {
        let waited: Waited<T> = wait_for(&self.inner, duration);
        assert(self.may_answer_within(duration, waited));
        recv_timeout_outcome(waited, false)
    }

    pub fn len(&self) -> (len: usize)
        ensures
            self.may_hold(len),
    {
        queued(&self.inner)
    }

    pub fn is_empty(&self) -> (yes: bool)
        ensures
            self.may_be_empty(yes),
    {
        is_drained(&self.inner)
    }

    pub fn is_terminated(&self) -> (yes: bool)
        ensures
            self.counts().may_be_terminated(yes),
    {
        self.endpoints.is_terminated()
    }

    pub fn is_closed(&self) -> (yes: bool)
        ensures
            exists|senders: usize, receivers: usize, empty: bool| #[trigger]
                self.counts().may_show_senders(senders)
                    && #[trigger] self.counts().may_show_receivers(receivers)
                    && #[trigger] self.may_be_empty(empty) && yes == (senders == 0 && (receivers
                    == 0 || empty)),
    {
        let senders: usize = self.endpoints.senders();
        let receivers: usize = self.endpoints.receivers();
        let empty: bool = is_drained(&self.inner);
        assert(self.counts() == self.endpoints && self.may_be_empty(empty));
        receiver_is_closed(senders, receivers, empty)
    }
}

/// The two ends of a new channel.
pub fn unbounded<T>() -> (ends: (Sender<T>, Receiver<T>))
    ensures
        ends.0.counts() == ends.1.counts(),
        ends.0.counts().begins_with_one_of_each(),
        ends.0.may_lead_to(ends.1),
{
    let (inner_tx, inner_rx) = queue::<T>();
    let endpoints: EndpointCounts = EndpointCounts::new();
    (
        Sender { inner: inner_tx, endpoints: endpoints.shared() },
        Receiver { inner: inner_rx, endpoints },
    )
}

impl<T> Sender<T> {
    /// The queue's own end.
    pub closed spec fn end(self) -> CrossbeamSender<T> {
        self.inner
    }
}

impl<T> Receiver<T> {
    /// The queue's own end.
    pub closed spec fn end(self) -> CrossbeamReceiver<T> {
        self.inner
    }
}

/// An item is handed to the queue of its channel, and the sender is told whether that took
/// it; a receiver gets what the queue gives.
proof fn law_channel_is_its_queue<T>(
    sender: Sender<T>,
    value: T,
    sent: Result<(), SendError>,
    receiver: Receiver<T>,
    received: Result<T, RecvError>,
    len: usize,
    empty: bool,
)
    requires
        call_ensures(Sender::<T>::send, (&sender, value), sent),
        call_ensures(Receiver::<T>::recv, (&receiver,), received),
        call_ensures(Receiver::<T>::len, (&receiver,), len),
        call_ensures(Receiver::<T>::is_empty, (&receiver,), empty),
    ensures
        call_ensures(deliver::<T>, (&sender.end(), value), sent is Ok),
        received matches Ok(item) ==> call_ensures(wait::<T>, (&receiver.end(),), Some(item)),
        received is Err ==> call_ensures(wait::<T>, (&receiver.end(),), None::<T>),
        call_ensures(queued::<T>, (&receiver.end(),), len),
        call_ensures(is_drained::<T>, (&receiver.end(),), empty),
{
}

/// The two ends of a new channel are those of one queue and share their counts; another
/// end is one of the same queue with the same counts.
proof fn law_ends_belong_together<T>(
    ends: (Sender<T>, Receiver<T>),
    sender: Sender<T>,
    receiver: Receiver<T>,
)
    requires
        call_ensures(unbounded::<T>, (), ends),
        call_ensures(Sender::<T>::clone, (&ends.0,), sender),
        call_ensures(Receiver::<T>::clone, (&ends.1,), receiver),
    ensures
        call_ensures(queue::<T>, (), (ends.0.end(), ends.1.end())),
        ends.0.counts() == ends.1.counts(),
        call_ensures(clone_sender::<T>, (&ends.0.end(),), sender.end()),
        call_ensures(clone_receiver::<T>, (&ends.1.end(),), receiver.end()),
        sender.counts() == ends.0.counts(),
        receiver.counts() == ends.1.counts(),
{
}

/// A sender's channel is closed where it saw no sender or no receiver, and a
/// receiver's where it saw no sender and either no receiver or nothing queued.
proof fn law_closed_ends_saw_why<T>(
    sender: Sender<T>,
    sender_closed: bool,
    receiver: Receiver<T>,
    receiver_closed: bool,
)
    requires
        call_ensures(Sender::<T>::is_closed, (&sender,), sender_closed),
        call_ensures(Receiver::<T>::is_closed, (&receiver,), receiver_closed),
    ensures
        sender_closed ==> sender.counts().may_show_senders(0)
            || sender.counts().may_show_receivers(0),
        receiver_closed ==> receiver.counts().may_show_senders(0) && (
        receiver.counts().may_show_receivers(0) || call_ensures(
            is_drained::<T>,
            (&receiver.end(),),
            true,
        )),
        !receiver_closed && receiver.counts().may_show_senders(0) && !(exists|n: usize|
            n > 0 && #[trigger] receiver.counts().may_show_senders(n)) ==> call_ensures(
            is_drained::<T>,
            (&receiver.end(),),
            false,
        ),
{
}

/// A receiver gets the item that the queue gave, and is otherwise told what the queue said:
/// that there is none yet, that the time is over, or that the channel is closed.
proof fn law_receiver_is_told_what_the_queue_said<T>(
    receiver: Receiver<T>,
    tried: Result<T, TryRecvError>,
    duration: Duration,
    timed: Result<T, RecvTimeoutError>,
)
    requires
        call_ensures(Receiver::<T>::try_recv, (&receiver,), tried),
        call_ensures(Receiver::<T>::recv_timeout, (&receiver, duration), timed),
    ensures
        tried matches Ok(item) ==> call_ensures(
            poll::<T>,
            (&receiver.end(),),
            Polled::Item(item),
        ),
        tried matches Err(TryRecvError::Empty) ==> call_ensures(
            poll::<T>,
            (&receiver.end(),),
            Polled::<T>::Nothing,
        ),
        tried matches Err(TryRecvError::Closed) ==> call_ensures(
            poll::<T>,
            (&receiver.end(),),
            Polled::<T>::Closed,
        ),
        timed matches Ok(item) ==> call_ensures(
            wait_for::<T>,
            (&receiver.end(), duration),
            Waited::Item(item),
        ),
        timed matches Err(RecvTimeoutError::Timeout) ==> call_ensures(
            wait_for::<T>,
            (&receiver.end(), duration),
            Waited::<T>::Timeout,
        ),
        timed matches Err(RecvTimeoutError::Closed) ==> call_ensures(
            wait_for::<T>,
            (&receiver.end(), duration),
            Waited::<T>::Closed,
        ),
{
}

} // verus!

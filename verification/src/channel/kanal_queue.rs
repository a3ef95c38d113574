//! Channels over a kanal queue.
use crate::channel::{
    receiver_is_closed, recv_outcome, recv_timeout_outcome, send_outcome, sender_is_closed,
    try_recv_outcome, EndpointCounts, Polled, RecvError, RecvTimeoutError, SendError, TryRecvError,
    Waited,
};
use crate::channel;
use crate::time;
use core::time::Duration;
use kanal::Receiver as KanalReceiver;
use kanal::Sender as KanalSender;
use vstd::prelude::*;

verus! {

/// `kanal::Sender`: one sending end of a queue.
#[verifier::external_type_specification]
#[verifier::external_body]
#[verifier::reject_recursive_types(T)]
pub struct ExKanalSender<T>(KanalSender<T>);

/// `kanal::Receiver`: one receiving end of a queue.
#[verifier::external_type_specification]
#[verifier::external_body]
#[verifier::reject_recursive_types(T)]
pub struct ExKanalReceiver<T>(KanalReceiver<T>);

/// `kanal::unbounded`: the two ends of a new queue.
#[verifier::external_body]
pub(crate) fn queue<T>() -> (KanalSender<T>, KanalReceiver<T>) {
    kanal::unbounded()
}

/// `Clone::clone` of `kanal::Sender`: another sending end of the same queue.
#[verifier::external_body]
pub(crate) fn clone_sender<T>(sender: &KanalSender<T>) -> KanalSender<T> {
    sender.clone()
}

/// `Clone::clone` of `kanal::Receiver`: another receiving end of the same queue.
#[verifier::external_body]
pub(crate) fn clone_receiver<T>(receiver: &KanalReceiver<T>) -> KanalReceiver<T> {
    receiver.clone()
}

/// `kanal::Sender::send`: hands an item over and says whether the queue took it.
/// That depends on the receivers at the time, and nothing is said of it.
#[verifier::external_body]
pub(crate) fn deliver<T>(sender: &KanalSender<T>, value: T) -> (delivered: bool) {
    sender.send(value).is_ok()
}

/// `kanal::Receiver::recv`: waits for an item; `None` where the queue is closed.
/// What comes depends on the senders, and nothing is said of it.
#[verifier::external_body]
pub(crate) fn wait<T>(receiver: &KanalReceiver<T>) -> (item: Option<T>) {
    receiver.recv().ok()
}

/// `kanal::Receiver::try_recv`: an item, nothing, or that the queue is closed on
/// either side. What comes depends on the senders, and nothing is said of it.
#[verifier::external_body]
pub(crate) fn poll<T>(receiver: &KanalReceiver<T>) -> (polled: Polled<T>) {
    match receiver.try_recv() {
        Ok(Some(value)) => Polled::Item(value),
        Ok(None) => Polled::Nothing,
        Err(kanal::ReceiveError::Closed) => Polled::Closed,
        Err(kanal::ReceiveError::SendClosed) => Polled::Closed,
    }
}

/// `kanal::Receiver::recv_timeout`: an item, that the time is over, or that the
/// queue is closed on either side. The call adds the span to the present instant
/// and panics where the sum cannot be named, so the span is bounded. What comes
/// depends on the senders and the clock, and nothing is said of it.
#[verifier::external_body]
pub(crate) fn wait_for<T>(receiver: &KanalReceiver<T>, duration: Duration) -> (waited: Waited<T>)
    requires
        time::is_waitable(duration),
{
    match receiver.recv_timeout(duration) {
        Ok(value) => Waited::Item(value),
        Err(kanal::ReceiveErrorTimeout::Timeout) => Waited::Timeout,
        Err(kanal::ReceiveErrorTimeout::Closed) => Waited::Closed,
        Err(kanal::ReceiveErrorTimeout::SendClosed) => Waited::Closed,
    }
}

/// `kanal::Receiver::len`: how many items are queued at the time.
#[verifier::external_body]
pub(crate) fn queued<T>(receiver: &KanalReceiver<T>) -> usize {
    receiver.len()
}

/// `kanal::Receiver::is_empty`: whether nothing is queued at the time.
#[verifier::external_body]
pub(crate) fn is_drained<T>(receiver: &KanalReceiver<T>) -> bool {
    receiver.is_empty()
}

/// `kanal::Receiver::is_terminated`: whether nothing is queued and no sender is
/// left at the time.
#[verifier::external_body]
pub(crate) fn is_finished<T>(receiver: &KanalReceiver<T>) -> bool {
    receiver.is_terminated()
}

/// `kanal::Sender::is_closed`: whether no end is left or the queue was closed at
/// the time.
#[verifier::external_body]
pub(crate) fn is_shut<T>(sender: &KanalSender<T>) -> bool {
    sender.is_closed()
}

/// A sending end. What its methods answer depends on the channel's other ends
/// and is judged by the functions of the parent module.
#[verifier::reject_recursive_types(T)]
pub struct Sender<T> {
    inner: KanalSender<T>,
    endpoints: EndpointCounts,
}

impl<T> Clone for Sender<T> {
    fn clone(&self) -> (sender: Self)
        ensures
            sender.counts() == self.counts(),
            self.may_be_same(sender),
            self.counts().has_raised_senders(),
    {
        Sender { inner: clone_sender(&self.inner), endpoints: self.endpoints.sender_clone() }
    }
}

impl<T> Drop for Sender<T> {
    fn drop(&mut self)
        opens_invariants none
        no_unwind
    {
        self.endpoints.drop_sender();
    }
}

impl<T> Sender<T> {
    /// The counts that all endpoints of the channel share.
    pub closed spec fn counts(self) -> EndpointCounts {
        self.endpoints
    }

    /// The other end may have been made from this one.
    pub closed spec fn may_be_same(self, other: Self) -> bool {
        call_ensures(clone_sender::<T>, (&self.inner,), other.inner)
    }

    /// This end and the receiving one were made as those of one queue.
    pub closed spec fn may_lead_to(self, receiver: Receiver<T>) -> bool {
        call_ensures(queue::<T>, (), (self.inner, receiver.inner))
    }

    /// The queue may take the item, or may not, when it is handed over here.
    pub closed spec fn may_deliver(self, value: T, delivered: bool) -> bool {
        call_ensures(deliver::<T>, (&self.inner, value), delivered)
    }

    /// The queue may be said to be shut, or not to be.
    pub closed spec fn may_be_shut(self, yes: bool) -> bool {
        call_ensures(is_shut::<T>, (&self.inner,), yes)
    }

    /// Hands the item over; the answer says whether the queue took it.
    pub fn send(&self, value: T) -> (outcome: Result<(), SendError>)
        ensures
            self.may_deliver(value, outcome is Ok),
    {
        send_outcome(deliver(&self.inner, value))
    }

    pub fn is_closed(&self) -> (yes: bool)
        ensures
            exists|senders: usize, receivers: usize, shut: bool| #[trigger]
                self.counts().may_show_senders(senders)
                    && #[trigger] self.counts().may_show_receivers(receivers)
                    && #[trigger] self.may_be_shut(shut) && yes == (senders == 0 || receivers == 0
                    || shut),
    {
        let senders: usize = self.endpoints.senders();
        let receivers: usize = self.endpoints.receivers();
        let shut: bool = is_shut(&self.inner);
        assert(self.counts() == self.endpoints && self.may_be_shut(shut));
        sender_is_closed(senders, receivers, shut)
    }
}

/// A receiving end. What its methods answer depends on the channel's other ends
/// and is judged by the functions of the parent module.
#[verifier::reject_recursive_types(T)]
pub struct Receiver<T> {
    inner: KanalReceiver<T>,
    endpoints: EndpointCounts,
}

impl<T> Clone for Receiver<T> {
    fn clone(&self) -> (receiver: Self)
        ensures
            receiver.counts() == self.counts(),
            self.may_be_same(receiver),
            self.counts().has_raised_receivers(),
    {
        Receiver { inner: clone_receiver(&self.inner), endpoints: self.endpoints.receiver_clone() }
    }
}

impl<T> Drop for Receiver<T> {
    fn drop(&mut self)
        opens_invariants none
        no_unwind
    {
        self.endpoints.drop_receiver();
    }
}

impl<T> Receiver<T> {
    /// The counts that all endpoints of the channel share.
    pub closed spec fn counts(self) -> EndpointCounts {
        self.endpoints
    }

    /// The other end may have been made from this one.
    pub closed spec fn may_be_same(self, other: Self) -> bool {
        call_ensures(clone_receiver::<T>, (&self.inner,), other.inner)
    }

    /// The queue may give this item, or none, to one who waits.
    pub closed spec fn may_give(self, item: Option<T>) -> bool {
        call_ensures(wait::<T>, (&self.inner,), item)
    }

    /// The queue may answer so to one who does not wait.
    pub closed spec fn may_answer(self, polled: Polled<T>) -> bool {
        call_ensures(poll::<T>, (&self.inner,), polled)
    }

    /// The queue may answer so to one who waits for this long.
    pub closed spec fn may_answer_within(self, duration: Duration, waited: Waited<T>) -> bool {
        call_ensures(wait_for::<T>, (&self.inner, duration), waited)
    }

    /// The queue may be said to hold so many items.
    pub closed spec fn may_hold(self, len: usize) -> bool {
        call_ensures(queued::<T>, (&self.inner,), len)
    }

    /// The queue may be said to hold nothing, or something.
    pub closed spec fn may_be_empty(self, yes: bool) -> bool {
        call_ensures(is_drained::<T>, (&self.inner,), yes)
    }

    /// The queue may be said to be finished, or not to be.
    pub closed spec fn may_be_finished(self, yes: bool) -> bool {
        call_ensures(is_finished::<T>, (&self.inner,), yes)
    }

    /// A look may find that nobody sends any more: by the counts, or else by what
    /// the queue says.
    pub open spec fn may_be_terminated(self, yes: bool) -> bool {
        ||| self.counts().may_be_terminated(true) && yes
        ||| self.counts().may_be_terminated(false) && self.may_be_finished(yes)
    }

    /// A look may find that nobody sends any more and that nothing is queued.
    pub open spec fn may_be_over(self, yes: bool) -> bool {
        ||| self.may_be_terminated(false) && !yes
        ||| self.may_be_terminated(true) && self.may_be_empty(yes)
    }

    /// A look may find that the counts show no sender and that nothing is queued.
    pub open spec fn may_be_drained(self, yes: bool) -> bool {
        ||| self.counts().may_be_terminated(false) && !yes
        ||| self.counts().may_be_terminated(true) && self.may_be_empty(yes)
    }

    /// Waits for an item as long as it takes.
    pub fn recv(&self) -> (outcome: Result<T, RecvError>)
        ensures
            match outcome {
                Ok(value) => self.may_give(Some(value)),
                Err(_) => self.may_give(None),
            },
    {
        recv_outcome(wait(&self.inner))
    }

    /// Takes an item if one is there. Where the queue has none, the channel is
    /// closed if it is drained.
    pub fn try_recv(&self) -> (outcome: Result<T, TryRecvError>)
        ensures
            exists|polled: Polled<T>, drained: bool|
                {
                    &&& #[trigger] self.may_answer(polled)
                    &&& polled is Nothing ==> self.may_be_drained(drained)
                    &&& outcome == #[trigger] channel::polled_result(polled, drained)
                },
    {
        let polled: Polled<T> = poll(&self.inner);
        let drained: bool = matches!(polled, Polled::Nothing) && self.endpoints.is_terminated()
            && is_drained(&self.inner);
        assert(self.may_answer(polled));
        try_recv_outcome(polled, drained)
    }

    /// Waits for an item for some time, unless the channel is over. Where none
    /// comes in time, the channel is closed if it is over by then.
    pub fn recv_timeout(&self, duration: Duration) -> (outcome: Result<T, RecvTimeoutError>)
        requires
            time::is_waitable(duration),
        ensures
            ({
                ||| self.may_be_over(true) && outcome == Err::<T, _>(RecvTimeoutError::Closed)
                ||| self.may_be_over(false) && exists|waited: Waited<T>, drained: bool|
                    {
                        &&& #[trigger] self.may_answer_within(duration, waited)
                        &&& waited is Timeout ==> self.may_be_over(drained)
                        &&& outcome == #[trigger] channel::waited_result(waited, drained)
                    }
            }),
    {
        if self.is_terminated() && self.is_empty() {
            return Err(RecvTimeoutError::Closed);
        }
        let waited: Waited<T> = wait_for(&self.inner, duration);
        let drained: bool = matches!(waited, Waited::Timeout) && self.is_terminated()
            && self.is_empty();
        assert(self.may_answer_within(duration, waited));
        recv_timeout_outcome(waited, drained)
    }

    pub fn len(&self) -> (len: usize)
        ensures
            self.may_hold(len),
    {
        queued(&self.inner)
    }

    pub fn is_empty(&self) -> (yes: bool)
        ensures
            self.may_be_empty(yes),
    {
        is_drained(&self.inner)
    }

    pub fn is_terminated(&self) -> (yes: bool)
        ensures
            self.may_be_terminated(yes),
    {
        self.endpoints.is_terminated() || is_finished(&self.inner)
    }

    pub fn is_closed(&self) -> (yes: bool)
        ensures
            exists|senders: usize, receivers: usize, empty: bool| #[trigger]
                self.counts().may_show_senders(senders)
                    && #[trigger] self.counts().may_show_receivers(receivers)
                    && #[trigger] self.may_be_empty(empty) && yes == (senders == 0 && (receivers
                    == 0 || empty)),
    {
        let senders: usize = self.endpoints.senders();
        let receivers: usize = self.endpoints.receivers();
        let empty: bool = is_drained(&self.inner);
        assert(self.counts() == self.endpoints && self.may_be_empty(empty));
        receiver_is_closed(senders, receivers, empty)
    }
}

/// The two ends of a new channel.
pub fn unbounded<T>() -> (ends: (Sender<T>, Receiver<T>))
    ensures
        ends.0.counts() == ends.1.counts(),
        ends.0.counts().begins_with_one_of_each(),
        ends.0.may_lead_to(ends.1),
{
    let (inner_tx, inner_rx) = queue::<T>();
    let endpoints: EndpointCounts = EndpointCounts::new();
    (
        Sender { inner: inner_tx, endpoints: endpoints.shared() },
        Receiver { inner: inner_rx, endpoints },
    )
}

impl<T> Sender<T> {
    /// The queue's own end.
    pub closed spec fn end(self) -> KanalSender<T> {
        self.inner
    }
}

impl<T> Receiver<T> {
    /// The queue's own end.
    pub closed spec fn end(self) -> KanalReceiver<T> {
        self.inner
    }
}

/// An item is handed to the queue of its channel, and the sender is told whether that took
/// it; a receiver gets what the queue gives.
pub(crate) proof fn law_channel_is_its_queue<T>(
    sender: Sender<T>,
    value: T,
    sent: Result<(), SendError>,
    receiver: Receiver<T>,
    received: Result<T, RecvError>,
    len: usize,
    empty: bool,
)
    requires
        call_ensures(Sender::<T>::send, (&sender, value), sent),
        call_ensures(Receiver::<T>::recv, (&receiver,), received),
        call_ensures(Receiver::<T>::len, (&receiver,), len),
        call_ensures(Receiver::<T>::is_empty, (&receiver,), empty),
    ensures
        call_ensures(deliver::<T>, (&sender.end(), value), sent is Ok),
        received matches Ok(item) ==> call_ensures(wait::<T>, (&receiver.end(),), Some(item)),
        received is Err ==> call_ensures(wait::<T>, (&receiver.end(),), None::<T>),
        call_ensures(queued::<T>, (&receiver.end(),), len),
        call_ensures(is_drained::<T>, (&receiver.end(),), empty),
{
}

/// The two ends of a new channel are those of one queue and share their counts; another
/// end is one of the same queue with the same counts.
pub(crate) proof fn law_ends_belong_together<T>(
    ends: (Sender<T>, Receiver<T>),
    sender: Sender<T>,
    receiver: Receiver<T>,
)
    requires
        call_ensures(unbounded::<T>, (), ends),
        call_ensures(Sender::<T>::clone, (&ends.0,), sender),
        call_ensures(Receiver::<T>::clone, (&ends.1,), receiver),
    ensures
        call_ensures(queue::<T>, (), (ends.0.end(), ends.1.end())),
        ends.0.counts() == ends.1.counts(),
        call_ensures(clone_sender::<T>, (&ends.0.end(),), sender.end()),
        call_ensures(clone_receiver::<T>, (&ends.1.end(),), receiver.end()),
        sender.counts() == ends.0.counts(),
        receiver.counts() == ends.1.counts(),
{
}

/// A sender's channel is closed where it saw no sender or no receiver or the queue shut, and a
/// receiver's where it saw no sender and either no receiver or nothing queued.
pub(crate) proof fn law_closed_ends_saw_why<T>(
    sender: Sender<T>,
    sender_closed: bool,
    receiver: Receiver<T>,
    receiver_closed: bool,
)
    requires
        call_ensures(Sender::<T>::is_closed, (&sender,), sender_closed),
        call_ensures(Receiver::<T>::is_closed, (&receiver,), receiver_closed),
    ensures
        sender_closed ==> sender.counts().may_show_senders(0)
            || sender.counts().may_show_receivers(0) || call_ensures(
            is_shut::<T>,
            (&sender.end(),),
            true,
        ),
        receiver_closed ==> receiver.counts().may_show_senders(0) && (
        receiver.counts().may_show_receivers(0) || call_ensures(
            is_drained::<T>,
            (&receiver.end(),),
            true,
        )),
        !receiver_closed && receiver.counts().may_show_senders(0) && !(exists|n: usize|
            n > 0 && #[trigger] receiver.counts().may_show_senders(n)) ==> call_ensures(
            is_drained::<T>,
            (&receiver.end(),),
            false,
        ),
{
}

/// A receiver that does not wait gets the item that the queue gave, and is otherwise told
/// that there is none yet, or that the channel is closed: by the queue, or where no sender
/// is counted and nothing is queued.
pub(crate) proof fn law_try_recv_is_told_why<T>(
    receiver: Receiver<T>,
    outcome: Result<T, TryRecvError>,
)
    requires
        call_ensures(Receiver::<T>::try_recv, (&receiver,), outcome),
    ensures
        outcome matches Ok(item) ==> call_ensures(
            poll::<T>,
            (&receiver.end(),),
            Polled::Item(item),
        ),
        outcome matches Err(TryRecvError::Empty) ==> call_ensures(
            poll::<T>,
            (&receiver.end(),),
            Polled::<T>::Nothing,
        ),
        outcome matches Err(TryRecvError::Closed) ==> call_ensures(
            poll::<T>,
            (&receiver.end(),),
            Polled::<T>::Closed,
        ) || (receiver.counts().may_show_senders(0) && call_ensures(
            is_drained::<T>,
            (&receiver.end(),),
            true,
        )),
{
}

/// A receiver that waits for some time gets the item that the queue gave, and is told
/// that the time is over only where the queue said so; it is told that the channel is
/// closed where the queue said so, or where nothing was queued.
pub(crate) proof fn law_recv_timeout_is_told_why<T>(
    receiver: Receiver<T>,
    duration: Duration,
    outcome: Result<T, RecvTimeoutError>,
)
    requires
        time::is_waitable(duration),
        call_ensures(Receiver::<T>::recv_timeout, (&receiver, duration), outcome),
    ensures
        outcome matches Ok(item) ==> call_ensures(
            wait_for::<T>,
            (&receiver.end(), duration),
            Waited::Item(item),
        ),
        outcome matches Err(RecvTimeoutError::Timeout) ==> call_ensures(
            wait_for::<T>,
            (&receiver.end(), duration),
            Waited::<T>::Timeout,
        ),
        outcome matches Err(RecvTimeoutError::Closed) ==> call_ensures(
            wait_for::<T>,
            (&receiver.end(), duration),
            Waited::<T>::Closed,
        ) || call_ensures(is_drained::<T>, (&receiver.end(),), true),
{
}

/// Nobody sends any more where no sender is counted or the queue says that it is finished.
pub(crate) proof fn law_termination_is_seen<T>(receiver: Receiver<T>, yes: bool)
    requires
        call_ensures(Receiver::<T>::is_terminated, (&receiver,), yes),
    ensures
        yes ==> receiver.counts().may_show_senders(0) || call_ensures(
            is_finished::<T>,
            (&receiver.end(),),
            true,
        ),
        !yes ==> call_ensures(is_finished::<T>, (&receiver.end(),), false) && exists|n: usize|
            n > 0 && #[trigger] receiver.counts().may_show_senders(n),
{
    if !yes {
        let n = choose|n: usize| #[trigger]
            receiver.counts().may_show_senders(n) && false == (n == 0);
        assert(n > 0 && receiver.counts().may_show_senders(n));
    }
}

} // verus!

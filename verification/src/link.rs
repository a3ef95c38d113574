//! The links of a running pipeline: the queues between its stages, their running
//! totals, and the ends that the pipeline's user holds. Items travel as `M`.
//!
//! As in `channel`, a relation whose name begins with `may_` holds of an answer
//! that a queue, a total or a flag gave; `has_..` holds of an effect that took
//! place.
use crate::channel::kanal_queue::{
    clone_receiver, clone_sender, is_drained, is_finished, is_shut, poll, deliver, queue, queued, wait,
    wait_for,
};
use crate::channel::{Polled, Waited};
use crate::error::{InternalFailure, RecvOutputError, SendInputError, TryRecvOutputError};
use crate::time;
use crate::trend::LinkReading;
use core::time::Duration;
use kanal::Receiver as KanalReceiver;
use kanal::Sender as KanalSender;
use std::sync::atomic::{AtomicBool, AtomicU64, Ordering};
use std::sync::Arc;
use vstd::prelude::*;
use vstd::string::*;

verus! {

/// The running totals of a link. Many threads count on them.
pub struct LinkStats {
    arrivals: AtomicU64,
    drains: AtomicU64,
}

/// A look at the flag may show it raised, or not.
pub open spec fn flag_may_show(flag: AtomicBool, raised: bool) -> bool {
    call_ensures(AtomicBool::load, (&flag, Ordering::Acquire), raised)
}

impl LinkStats {
    /// The totals were made at zero.
    pub closed spec fn begins_at_zero(self) -> bool {
        &&& call_ensures(AtomicU64::new, (0u64,), self.arrivals)
        &&& call_ensures(AtomicU64::new, (0u64,), self.drains)
    }

    /// A look at the arrivals may show this total.
    pub closed spec fn may_show_arrivals(self, total: u64) -> bool {
        call_ensures(AtomicU64::load, (&self.arrivals, Ordering::Relaxed), total)
    }

    /// A look at the drains may show this total.
    pub closed spec fn may_show_drains(self, total: u64) -> bool {
        call_ensures(AtomicU64::load, (&self.drains, Ordering::Relaxed), total)
    }

    /// One was added to the arrivals.
    pub closed spec fn has_counted_arrival(self) -> bool {
        exists|before: u64|
            call_ensures(AtomicU64::fetch_add, (&self.arrivals, 1u64, Ordering::Relaxed), before)
    }

    /// One was added to the drains.
    pub closed spec fn has_counted_drain(self) -> bool {
        exists|before: u64|
            call_ensures(AtomicU64::fetch_add, (&self.drains, 1u64, Ordering::Relaxed), before)
    }

    pub fn new() -> (totals: Self)
        ensures
            totals.begins_at_zero(),
    {
        LinkStats { arrivals: AtomicU64::new(0), drains: AtomicU64::new(0) }
    }

    /// Counts an item that came onto the link.
    pub fn note_arrival(&self)
        ensures
            self.has_counted_arrival(),
    {
        self.arrivals.fetch_add(1, Ordering::Relaxed);
    }

    /// Counts an item that left the link.
    pub fn note_drain(&self)
        ensures
            self.has_counted_drain(),
    {
        self.drains.fetch_add(1, Ordering::Relaxed);
    }
}

/// One link: a queue whose sending end can be let go, and its totals.
#[verifier::reject_recursive_types(M)]
pub struct Link<M> {
    sender: Option<KanalSender<M>>,
    receiver: KanalReceiver<M>,
    stats: Arc<LinkStats>,
}

impl<M> Link<M> {
    /// The link can still hand out sending ends.
    pub closed spec fn is_held(self) -> bool {
        self.sender is Some
    }

    /// The totals that the link and its ends count on.
    pub closed spec fn totals(self) -> LinkStats {
        *self.stats
    }

    /// The link's queue may be said to hold so many items.
    pub closed spec fn may_hold(self, len: usize) -> bool {
        call_ensures(queued::<M>, (&self.receiver,), len)
    }

    /// The two ends of the link were made as those of one queue.
    pub closed spec fn is_one_queue(self) -> bool {
        self.sender matches Some(sender) && call_ensures(queue::<M>, (), (sender, self.receiver))
    }

    /// The sending end may have been made from the link's own.
    pub closed spec fn may_lend_output(self, end: LinkOutput<M>) -> bool {
        self.sender matches Some(sender) && call_ensures(clone_sender::<M>, (&sender,), end.inner)
    }

    /// The receiving end may have been made from the link's own.
    pub closed spec fn may_lend_input(self, end: LinkInput<M>) -> bool {
        call_ensures(clone_receiver::<M>, (&self.receiver,), end.inner)
    }

    /// The links have one receiving end.
    pub closed spec fn has_input_of(self, other: Self) -> bool {
        self.receiver == other.receiver
    }

    pub fn new() -> (link: Self)
        ensures
            link.is_held(),
            link.is_one_queue(),
            link.totals().begins_at_zero(),
    {
        let (sender, receiver) = queue::<M>();
        Link { sender: Some(sender), receiver, stats: Arc::new(LinkStats::new()) }
    }

    /// A sending end, unless the link was let go.
    pub fn output(&self) -> (end: Option<LinkOutput<M>>)
        ensures
            end is Some <==> self.is_held(),
            end matches Some(end) ==> end.totals() == self.totals() && self.may_lend_output(end),
    {
        match &self.sender {
            Some(sender) => Some(
                LinkOutput { inner: clone_sender(sender), stats: Arc::clone(&self.stats) },
            ),
            None => None,
        }
    }

    /// A receiving end.
    pub fn input(&self) -> (end: LinkInput<M>)
        ensures
            end.totals() == self.totals(),
            self.may_lend_input(end),
    {
        LinkInput { inner: clone_receiver(&self.receiver), stats: Arc::clone(&self.stats) }
    }

    /// Lets the link go: its queue ends once the other sending ends are gone.
    pub fn let_go(&mut self)
        ensures
            !final(self).is_held(),
            final(self).totals() == old(self).totals(),
            final(self).has_input_of(*old(self)),
    {
        self.sender = None;
    }

    /// The totals and the length at the time.
    pub fn read(&self) -> (reading: LinkReading)
        ensures
            self.totals().may_show_arrivals(reading.arrivals),
            self.totals().may_show_drains(reading.drains),
            self.may_hold(reading.len),
    {
        LinkReading {
            arrivals: self.stats.arrivals.load(Ordering::Relaxed),
            drains: self.stats.drains.load(Ordering::Relaxed),
            len: queued(&self.receiver),
        }
    }

    /// How many items are queued at the time.
    pub fn len(&self) -> (len: usize)
        ensures
            self.may_hold(len),
    {
        queued(&self.receiver)
    }
}

/// A stage's sending end of a link.
#[verifier::reject_recursive_types(M)]
pub struct LinkOutput<M> {
    inner: KanalSender<M>,
    stats: Arc<LinkStats>,
}

impl<M> LinkOutput<M> {
    /// The totals of the link.
    pub closed spec fn totals(self) -> LinkStats {
        *self.stats
    }

    /// The queue may take the item, or may not, when it is handed over here.
    pub closed spec fn may_deliver(self, item: M, delivered: bool) -> bool {
        call_ensures(deliver::<M>, (&self.inner, item), delivered)
    }

    /// The other end may have been made from this one.
    pub closed spec fn may_be_same(self, other: Self) -> bool {
        call_ensures(clone_sender::<M>, (&self.inner,), other.inner)
    }

    /// The queue may be said to be shut, or not to be.
    pub closed spec fn may_be_shut(self, yes: bool) -> bool {
        call_ensures(is_shut::<M>, (&self.inner,), yes)
    }

    /// Sends an item and counts it. The answer says whether the queue took it.
    pub fn send(&self, item: M) -> (delivered: bool)
        ensures
            self.may_deliver(item, delivered),
            delivered ==> self.totals().has_counted_arrival(),
    {
        let delivered: bool = deliver(&self.inner, item);
        if delivered {
            self.stats.note_arrival();
        }
        delivered
    }

    /// Another sending end of the same link.
    pub fn another(&self) -> (end: Self)
        ensures
            end.totals() == self.totals(),
            self.may_be_same(end),
    {
        LinkOutput { inner: clone_sender(&self.inner), stats: Arc::clone(&self.stats) }
    }
}

/// A stage's receiving end of a link.
#[verifier::reject_recursive_types(M)]
pub struct LinkInput<M> {
    inner: KanalReceiver<M>,
    stats: Arc<LinkStats>,
}

impl<M> LinkInput<M> {
    /// The totals of the link.
    pub closed spec fn totals(self) -> LinkStats {
        *self.stats
    }

    /// The other end may have been made from this one.
    pub closed spec fn may_be_same(self, other: Self) -> bool {
        call_ensures(clone_receiver::<M>, (&self.inner,), other.inner)
    }

    /// The queue may give this item, or none, to one who waits.
    pub closed spec fn may_give(self, item: Option<M>) -> bool {
        call_ensures(wait::<M>, (&self.inner,), item)
    }

    /// The queue may answer so to one who does not wait.
    pub closed spec fn may_answer(self, polled: Polled<M>) -> bool {
        call_ensures(poll::<M>, (&self.inner,), polled)
    }

    /// The queue may answer so to one who waits for this long.
    pub closed spec fn may_answer_within(self, duration: Duration, waited: Waited<M>) -> bool {
        call_ensures(wait_for::<M>, (&self.inner, duration), waited)
    }

    /// The queue may be said to hold nothing, or something.
    pub closed spec fn may_be_empty(self, yes: bool) -> bool {
        call_ensures(is_drained::<M>, (&self.inner,), yes)
    }

    /// The queue may be said to be finished, or not to be.
    pub closed spec fn may_be_terminated(self, yes: bool) -> bool {
        call_ensures(is_finished::<M>, (&self.inner,), yes)
    }

    /// Waits for an item and counts the one that comes.
    pub fn recv_timeout(&self, duration: Duration) -> (waited: Waited<M>)
        requires
            time::is_waitable(duration),
        ensures
            self.may_answer_within(duration, waited),
            waited is Item ==> self.totals().has_counted_drain(),
    {
        let waited: Waited<M> = wait_for(&self.inner, duration);
        if matches!(waited, Waited::Item(_)) {
            self.stats.note_drain();
        }
        waited
    }

    pub fn is_empty(&self) -> (yes: bool)
        ensures
            self.may_be_empty(yes),
    {
        is_drained(&self.inner)
    }

    pub fn is_terminated(&self) -> (yes: bool)
        ensures
            self.may_be_terminated(yes),
    {
        is_finished(&self.inner)
    }
}

/// The answer to an input: it is refused while the pipeline shuts down, and
/// where the queue does not take it.
pub fn input_outcome(shutdown: bool, delivered: bool) -> (outcome: Result<(), SendInputError>)
    ensures
        outcome == if !shutdown && delivered {
            Ok::<(), SendInputError>(())
        } else {
            Err(SendInputError)
        },
{
    if !shutdown && delivered {
        Ok(())
    } else {
        Err(SendInputError)
    }
}

/// The answer to one who waits for an output as long as it takes.
pub fn output_outcome<M>(item: Option<M>) -> (outcome: Result<M, RecvOutputError>)
    ensures
        outcome == match item {
            Some(item) => Ok::<M, RecvOutputError>(item),
            None => Err(RecvOutputError::Closed),
        },
{
    match item {
        Some(item) => Ok(item),
        None => Err(RecvOutputError::Closed),
    }
}

/// The answer to one who waits for an output for some time.
pub fn timed_output_outcome<M>(waited: Waited<M>) -> (outcome: Result<M, RecvOutputError>)
    ensures
        outcome == match waited {
            Waited::Item(item) => Ok::<M, RecvOutputError>(item),
            Waited::Timeout => Err(RecvOutputError::Timeout),
            Waited::Closed => Err(RecvOutputError::Closed),
        },
{
    match waited {
        Waited::Item(item) => Ok(item),
        Waited::Timeout => Err(RecvOutputError::Timeout),
        Waited::Closed => Err(RecvOutputError::Closed),
    }
}

/// The answer to one who does not wait for an output.
pub fn polled_output_outcome<M>(polled: Polled<M>) -> (outcome: Result<M, TryRecvOutputError>)
    ensures
        outcome == match polled {
            Polled::Item(item) => Ok::<M, TryRecvOutputError>(item),
            Polled::Nothing => Err(TryRecvOutputError::Empty),
            Polled::Closed => Err(TryRecvOutputError::Closed),
        },
{
    match polled {
        Polled::Item(item) => Ok(item),
        Polled::Nothing => Err(TryRecvOutputError::Empty),
        Polled::Closed => Err(TryRecvOutputError::Closed),
    }
}

/// The input end that the pipeline's user holds.
#[verifier::reject_recursive_types(M)]
pub struct PiperSender<M> {
    output: LinkOutput<M>,
    shutdown: Arc<AtomicBool>,
}

impl<M> Clone for PiperSender<M> {
    fn clone(&self) -> (sender: Self)
        ensures
            sender.totals() == self.totals(),
            sender.shutdown_flag() == self.shutdown_flag(),
            self.link().may_be_same(sender.link()),
    {
        PiperSender { output: self.output.another(), shutdown: Arc::clone(&self.shutdown) }
    }
}

impl<M> PiperSender<M> {
    /// The totals of the link that it sends on.
    pub open spec fn totals(self) -> LinkStats {
        self.link().totals()
    }

    /// The end of the link that it sends on.
    pub closed spec fn link(self) -> LinkOutput<M> {
        self.output
    }

    /// The flag that refuses its inputs.
    pub closed spec fn shutdown_flag(self) -> AtomicBool {
        *self.shutdown
    }

    pub fn new(output: LinkOutput<M>, shutdown: Arc<AtomicBool>) -> (sender: Self)
        ensures
            sender.link() == output,
            sender.shutdown_flag() == *shutdown,
    {
        PiperSender { output, shutdown }
    }

    /// Sends an input and counts it. The answer is that of `input_outcome` for the
    /// flag and the queue at the time; nothing is sent while the pipeline shuts
    /// down.
    pub fn send(&self, input: M) -> (outcome: Result<(), SendInputError>)
        ensures
            match outcome {
                Ok(_) => {
                    &&& flag_may_show(self.shutdown_flag(), false)
                    &&& self.link().may_deliver(input, true)
                    &&& self.totals().has_counted_arrival()
                },
                Err(_) => {
                    ||| flag_may_show(self.shutdown_flag(), true)
                    ||| flag_may_show(self.shutdown_flag(), false) && self.link().may_deliver(
                        input,
                        false,
                    )
                },
            },
    {
        let shutdown: bool = self.shutdown.load(Ordering::Acquire);
        let delivered: bool = !shutdown && self.output.send(input);
        input_outcome(shutdown, delivered)
    }

    /// Whether the pipeline shuts down or else the link is shut.
    pub fn is_closed(&self) -> (yes: bool)
        ensures
            ({
                ||| flag_may_show(self.shutdown_flag(), true) && yes
                ||| flag_may_show(self.shutdown_flag(), false) && self.link().may_be_shut(yes)
            }),
    {
        self.shutdown.load(Ordering::Acquire) || is_shut(&self.output.inner)
    }
}

/// The output end that the pipeline's user holds.
#[verifier::reject_recursive_types(M)]
pub struct PiperReceiver<M> {
    input: LinkInput<M>,
}

impl<M> Clone for PiperReceiver<M> {
    fn clone(&self) -> (receiver: Self)
        ensures
            receiver.totals() == self.totals(),
            self.link().may_be_same(receiver.link()),
    {
        PiperReceiver {
            input: LinkInput {
                inner: clone_receiver(&self.input.inner),
                stats: Arc::clone(&self.input.stats),
            },
        }
    }
}

impl<M> PiperReceiver<M> {
    /// The totals of the link that it receives from.
    pub open spec fn totals(self) -> LinkStats {
        self.link().totals()
    }

    /// The end of the link that it receives from.
    pub closed spec fn link(self) -> LinkInput<M> {
        self.input
    }

    pub fn new(input: LinkInput<M>) -> (receiver: Self)
        ensures
            receiver.link() == input,
    {
        PiperReceiver { input }
    }

    /// Waits for an output and counts it. The answer is that of `output_outcome` for
    /// what the queue gives.
    pub fn recv(&self) -> (outcome: Result<M, RecvOutputError>)
        ensures
            match outcome {
                Ok(item) => self.link().may_give(Some(item)) && self.totals().has_counted_drain(),
                Err(error) => error is Closed && self.link().may_give(None),
            },
    {
        let item: Option<M> = wait(&self.input.inner);
        if item.is_some() {
            self.input.stats.note_drain();
        }
        output_outcome(item)
    }

    /// Waits for an output for some time and counts it. The answer is that of
    /// `timed_output_outcome` for what the queue gives.
    pub fn recv_timeout(&self, duration: Duration) -> (outcome: Result<M, RecvOutputError>)
        requires
            time::is_waitable(duration),
        ensures
            match outcome {
                Ok(item) => {
                    &&& self.link().may_answer_within(duration, Waited::Item(item))
                    &&& self.totals().has_counted_drain()
                },
                Err(RecvOutputError::Timeout) => self.link().may_answer_within(
                    duration,
                    Waited::Timeout,
                ),
                Err(RecvOutputError::Closed) => self.link().may_answer_within(
                    duration,
                    Waited::Closed,
                ),
                Err(RecvOutputError::TypeMismatch) => false,
            },
    {
        timed_output_outcome(self.input.recv_timeout(duration))
    }

    /// Takes an output if one is there, and counts it. The answer is that of
    /// `polled_output_outcome` for what the queue gives.
    pub fn try_recv(&self) -> (outcome: Result<M, TryRecvOutputError>)
        ensures
            match outcome {
                Ok(item) => {
                    &&& self.link().may_answer(Polled::Item(item))
                    &&& self.totals().has_counted_drain()
                },
                Err(TryRecvOutputError::Empty) => self.link().may_answer(Polled::Nothing),
                Err(TryRecvOutputError::Closed) => self.link().may_answer(Polled::Closed),
                Err(TryRecvOutputError::TypeMismatch) => false,
            },
    {
        let polled: Polled<M> = poll(&self.input.inner);
        if matches!(polled, Polled::Item(_)) {
            self.input.stats.note_drain();
        }
        polled_output_outcome(polled)
    }
}

/// An item that a queue did not take is a failure of the pipeline, unless the
/// pipeline shuts down or aborts anyway.
pub open spec fn is_fatal_loss(delivered: bool, shutdown: bool, abort: bool) -> bool {
    !delivered && !shutdown && !abort
}

/// Whether a lost item is a failure of the pipeline.
pub fn loss_is_fatal(delivered: bool, shutdown: bool, abort: bool) -> (fatal: bool)
    ensures
        fatal == is_fatal_loss(delivered, shutdown, abort),
{
    !delivered && !shutdown && !abort
}

/// The flags of a running pipeline, and where its machinery reports failures.
pub struct Signals {
    shutdown: Arc<AtomicBool>,
    abort: Arc<AtomicBool>,
    internal_failure: KanalSender<InternalFailure>,
}

/// Where the machinery's failures arrive.
pub struct FailureInbox {
    receiver: KanalReceiver<InternalFailure>,
}

/// The signals of a new pipeline, over its two flags.
pub fn signals(shutdown: Arc<AtomicBool>, abort: Arc<AtomicBool>) -> (ends: (Signals, FailureInbox))
    ensures
        ends.0.shutdown_flag() == *shutdown,
        ends.0.abort_flag() == *abort,
        ends.0.reports_to(ends.1),
{
    let (internal_failure, receiver) = queue::<InternalFailure>();
    (Signals { shutdown, abort, internal_failure }, FailureInbox { receiver })
}

impl FailureInbox {
    /// The queue of failures may answer so.
    pub closed spec fn may_answer(self, polled: Polled<InternalFailure>) -> bool {
        call_ensures(poll::<InternalFailure>, (&self.receiver,), polled)
    }

    /// The next failure, if one has arrived.
    pub fn next(&self) -> (failure: Option<InternalFailure>)
        ensures
            match failure {
                Some(failure) => self.may_answer(Polled::Item(failure)),
                None => self.may_answer(Polled::Nothing) || self.may_answer(Polled::Closed),
            },
    {
        match poll(&self.receiver) {
            Polled::Item(failure) => Some(failure),
            _ => None,
        }
    }
}

impl Signals {
    /// The flag of a pipeline that shuts down.
    pub closed spec fn shutdown_flag(self) -> AtomicBool {
        *self.shutdown
    }

    /// The flag of a pipeline that aborts.
    pub closed spec fn abort_flag(self) -> AtomicBool {
        *self.abort
    }

    /// The signals' failures and the inbox were made as the ends of one queue.
    pub closed spec fn reports_to(self, inbox: FailureInbox) -> bool {
        call_ensures(queue::<InternalFailure>, (), (self.internal_failure, inbox.receiver))
    }

    /// The other signals may report to where these do.
    pub closed spec fn may_be_same(self, other: Self) -> bool {
        call_ensures(
            clone_sender::<InternalFailure>,
            (&self.internal_failure,),
            other.internal_failure,
        )
    }

    /// The same signals.
    pub fn another(&self) -> (signals: Self)
        ensures
            signals.shutdown_flag() == self.shutdown_flag(),
            signals.abort_flag() == self.abort_flag(),
            self.may_be_same(signals),
    {
        Signals {
            shutdown: Arc::clone(&self.shutdown),
            abort: Arc::clone(&self.abort),
            internal_failure: clone_sender(&self.internal_failure),
        }
    }

    pub fn is_shutting_down(&self) -> (yes: bool)
        ensures
            flag_may_show(self.shutdown_flag(), yes),
    {
        self.shutdown.load(Ordering::Acquire)
    }

    pub fn is_aborting(&self) -> (yes: bool)
        ensures
            flag_may_show(self.abort_flag(), yes),
    {
        self.abort.load(Ordering::Acquire)
    }

    /// The abort flag was raised and the failure handed over.
    pub closed spec fn has_failed(self, failure: InternalFailure) -> bool {
        &&& call_ensures(AtomicBool::store, (&*self.abort, true, Ordering::Release), ())
        &&& exists|taken: bool|
            call_ensures(
                deliver::<InternalFailure>,
                (&self.internal_failure, failure),
                taken,
            )
    }

    /// An internal failure with this message was reported.
    pub open spec fn has_reported(self, message: Seq<char>) -> bool {
        exists|text: String|
            text@ == message && #[trigger] self.has_failed(
                InternalFailure::Internal { message: text },
            )
    }

    /// A delivery may end so: one that succeeded is not reported, and one that
    /// failed is, with this message, where the flags show it to be a fatal loss.
    pub open spec fn may_settle(
        self,
        delivered: bool,
        message: Seq<char>,
        reported: bool,
    ) -> bool {
        &&& delivered ==> !reported
        &&& !delivered ==> exists|shutdown: bool, abort: bool| #[trigger]
            flag_may_show(self.shutdown_flag(), shutdown) && #[trigger] flag_may_show(
                self.abort_flag(),
                abort,
            ) && reported == is_fatal_loss(delivered, shutdown, abort)
        &&& reported ==> self.has_reported(message)
    }

    /// Reports a failure of the machinery and aborts the pipeline.
    pub fn fail(&self, failure: InternalFailure)
        ensures
            self.has_failed(failure),
    {
        self.abort.store(true, Ordering::Release);
        deliver(&self.internal_failure, failure);
    }

    /// Reports a lost item, where that is a failure of the pipeline. The answer
    /// says whether it was reported.
    pub fn note_delivery(&self, delivered: bool, message: &str) -> (reported: bool)
        ensures
            self.may_settle(delivered, message@, reported),
    {
        if delivered {
            return false;
        }
        if loss_is_fatal(delivered, self.is_shutting_down(), self.is_aborting()) {
            self.fail(InternalFailure::internal(message.to_string()));
            true
        } else {
            false
        }
    }
}

/// What a stage writes its outputs to.
#[verifier::reject_recursive_types(M)]
pub struct StageContext<M> {
    output: LinkOutput<M>,
    signals: Signals,
}

impl<M> StageContext<M> {
    /// The totals of the link that it writes to.
    pub open spec fn totals(self) -> LinkStats {
        self.link().totals()
    }

    /// The end of the link that it writes to.
    pub closed spec fn link(self) -> LinkOutput<M> {
        self.output
    }

    /// The signals of the pipeline that it runs in.
    pub closed spec fn signals(self) -> Signals {
        self.signals
    }

    pub fn new(output: LinkOutput<M>, signals: Signals) -> (context: Self)
        ensures
            context.link() == output,
            context.signals() == signals,
    {
        StageContext { output, signals }
    }

    /// Emits an output and counts it. One that the link does not take is a failure
    /// of the pipeline by the rule of `loss_is_fatal`.
    pub fn emit(&mut self, output: M)
        ensures
            *final(self) == *old(self),
            exists|delivered: bool, reported: bool|
                {
                    &&& #[trigger] old(self).link().may_deliver(output, delivered)
                    &&& delivered ==> old(self).totals().has_counted_arrival()
                    &&& #[trigger] old(self).signals().may_settle(
                        delivered,
                        "stage output channel closed unexpectedly"@,
                        reported,
                    )
                },
    {
        let delivered: bool = self.output.send(output);
        self.signals.note_delivery(delivered, "stage output channel closed unexpectedly");
        assert(self.link() == self.output && self.signals() == self.signals);
    }

    pub fn is_aborting(&self) -> (yes: bool)
        ensures
            flag_may_show(self.signals().abort_flag(), yes),
    {
        self.signals.is_aborting()
    }

    pub fn is_shutting_down(&self) -> (yes: bool)
        ensures
            flag_may_show(self.signals().shutdown_flag(), yes),
    {
        self.signals.is_shutting_down()
    }
}

/// An input is taken exactly where the pipeline does not shut down and the queue took
/// it.
pub proof fn law_input_is_taken_or_refused(
    shutdown: bool,
    delivered: bool,
    outcome: Result<(), SendInputError>,
)
    requires
        call_ensures(input_outcome, (shutdown, delivered), outcome),
    ensures
        shutdown ==> outcome is Err,
        !delivered ==> outcome is Err,
        !shutdown && delivered ==> outcome is Ok,
{
}

/// An output is handed on as it came, whichever way one asked for it, and a missing one
/// is told as what it is: closed, too late or not there yet.
pub proof fn law_output_is_handed_on<M>(
    item: Option<M>,
    waited: Waited<M>,
    polled: Polled<M>,
    received: Result<M, RecvOutputError>,
    timed: Result<M, RecvOutputError>,
    tried: Result<M, TryRecvOutputError>,
)
    requires
        call_ensures(output_outcome::<M>, (item,), received),
        call_ensures(timed_output_outcome::<M>, (waited,), timed),
        call_ensures(polled_output_outcome::<M>, (polled,), tried),
    ensures
        item matches Some(output) ==> received is Ok && received->Ok_0 == output,
        item is None ==> received is Err && received->Err_0 is Closed,
        waited matches Waited::Item(output) ==> timed is Ok && timed->Ok_0 == output,
        waited is Timeout ==> timed is Err && timed->Err_0 is Timeout,
        waited is Closed ==> timed is Err && timed->Err_0 is Closed,
        polled matches Polled::Item(output) ==> tried is Ok && tried->Ok_0 == output,
        polled is Nothing ==> tried is Err && tried->Err_0 is Empty,
        polled is Closed ==> tried is Err && tried->Err_0 is Closed,
{
}

/// A lost item fails the pipeline exactly where the pipeline was to go on.
pub proof fn law_loss_fails_a_running_pipeline(
    delivered: bool,
    shutdown: bool,
    abort: bool,
    fatal: bool,
)
    requires
        call_ensures(loss_is_fatal, (delivered, shutdown, abort), fatal),
    ensures
        delivered ==> !fatal,
        shutdown ==> !fatal,
        abort ==> !fatal,
        !delivered && !shutdown && !abort ==> fatal,
{
}

/// What is reported of a delivery: nothing of one that succeeded, and the message of
/// one that failed while neither flag was raised.
pub proof fn law_lost_item_is_reported(
    signals: Signals,
    delivered: bool,
    message: &str,
    reported: bool,
)
    requires
        call_ensures(Signals::note_delivery, (&signals, delivered, message), reported),
    ensures
        delivered ==> !reported,
        reported ==> exists|text: String|
            text@ == message@ && #[trigger] signals.has_failed(
                InternalFailure::Internal { message: text },
            ),
        reported ==> flag_may_show(signals.shutdown_flag(), false) && flag_may_show(
            signals.abort_flag(),
            false,
        ),
        !reported && !delivered ==> flag_may_show(signals.shutdown_flag(), true) || flag_may_show(
            signals.abort_flag(),
            true,
        ),
{
}

impl LinkStats {
    /// The total of the items that came.
    pub closed spec fn arrived(self) -> AtomicU64 {
        self.arrivals
    }

    /// The total of the items that left.
    pub closed spec fn left(self) -> AtomicU64 {
        self.drains
    }
}

/// The totals begin at zero; an arrival and a drain are each counted on their own total,
/// and a reading tells each from its own.
pub proof fn law_reading_tells_what_was_counted<M>(
    made: LinkStats,
    totals: LinkStats,
    link: Link<M>,
    reading: LinkReading,
)
    requires
        call_ensures(LinkStats::new, (), made),
        call_ensures(LinkStats::note_arrival, (&totals,), ()),
        call_ensures(LinkStats::note_drain, (&totals,), ()),
        call_ensures(Link::<M>::read, (&link,), reading),
    ensures
        call_ensures(AtomicU64::new, (0u64,), made.arrived()),
        call_ensures(AtomicU64::new, (0u64,), made.left()),
        exists|before: u64|
            call_ensures(
                AtomicU64::fetch_add,
                (&totals.arrived(), 1u64, Ordering::Relaxed),
                before,
            ),
        exists|before: u64|
            call_ensures(AtomicU64::fetch_add, (&totals.left(), 1u64, Ordering::Relaxed), before),
        call_ensures(
            AtomicU64::load,
            (&link.totals().arrived(), Ordering::Relaxed),
            reading.arrivals,
        ),
        call_ensures(
            AtomicU64::load,
            (&link.totals().left(), Ordering::Relaxed),
            reading.drains,
        ),
        link.may_hold(reading.len),
{
}

/// The ends of a link count on the link's own totals: what is sent as an arrival, and what
/// is received as a drain.
pub proof fn law_ends_count_on_their_link<M>(
    link: Link<M>,
    output: Option<LinkOutput<M>>,
    input: LinkInput<M>,
    item: M,
    delivered: bool,
    duration: Duration,
    waited: Waited<M>,
)
    requires
        call_ensures(Link::<M>::output, (&link,), output),
        call_ensures(Link::<M>::input, (&link,), input),
        output is Some,
        call_ensures(LinkOutput::<M>::send, (&output->0, item), delivered),
        call_ensures(LinkInput::<M>::recv_timeout, (&input, duration), waited),
    ensures
        delivered ==> exists|before: u64|
            call_ensures(
                AtomicU64::fetch_add,
                (&link.totals().arrived(), 1u64, Ordering::Relaxed),
                before,
            ),
        waited is Item ==> exists|before: u64|
            call_ensures(
                AtomicU64::fetch_add,
                (&link.totals().left(), 1u64, Ordering::Relaxed),
                before,
            ),
        output->0.may_deliver(item, delivered),
        input.may_answer_within(duration, waited),
{
}

/// A link hands out sending ends until it is let go, and keeps its totals.
pub proof fn law_link_is_let_go<M>(link: &mut Link<M>, after: Option<LinkOutput<M>>)
    requires
        call_ensures(Link::<M>::let_go, (link,), ()),
        call_ensures(Link::<M>::output, (final(link),), after),
    ensures
        after is None,
        final(link).totals() == old(link).totals(),
{
}

/// A failure of the machinery raises the abort flag; the flags are seen each for itself,
/// by whoever holds the same signals.
pub proof fn law_failure_raises_the_abort_flag(
    signals: Signals,
    failure: InternalFailure,
    same: Signals,
    shutting_down: bool,
    aborting: bool,
)
    requires
        call_ensures(Signals::fail, (&signals, failure), ()),
        call_ensures(Signals::another, (&signals,), same),
        call_ensures(Signals::is_shutting_down, (&same,), shutting_down),
        call_ensures(Signals::is_aborting, (&same,), aborting),
    ensures
        call_ensures(AtomicBool::store, (&signals.abort_flag(), true, Ordering::Release), ()),
        call_ensures(
            AtomicBool::load,
            (&signals.shutdown_flag(), Ordering::Acquire),
            shutting_down,
        ),
        call_ensures(AtomicBool::load, (&signals.abort_flag(), Ordering::Acquire), aborting),
{
}

/// An input that is accepted went onto the link of a pipeline that did not shut down, and
/// is counted there; one that is refused met a shutdown, or the link did not take it.
pub proof fn law_sent_input_is_on_the_link<M>(
    output: LinkOutput<M>,
    shutdown: Arc<AtomicBool>,
    sender: PiperSender<M>,
    input: M,
    outcome: Result<(), SendInputError>,
)
    requires
        call_ensures(PiperSender::<M>::new, (output, shutdown), sender),
        call_ensures(PiperSender::<M>::send, (&sender, input), outcome),
    ensures
        outcome is Ok ==> call_ensures(
            AtomicBool::load,
            (&*shutdown, Ordering::Acquire),
            false,
        ) && output.may_deliver(input, true) && exists|before: u64|
            call_ensures(
                AtomicU64::fetch_add,
                (&output.totals().arrived(), 1u64, Ordering::Relaxed),
                before,
            ),
        outcome is Err ==> call_ensures(
            AtomicBool::load,
            (&*shutdown, Ordering::Acquire),
            true,
        ) || output.may_deliver(input, false),
{
}

/// An output that is received came off the link and is counted there; one that is missing
/// is told as the link told it.
pub proof fn law_received_output_came_off_the_link<M>(
    input: LinkInput<M>,
    receiver: PiperReceiver<M>,
    received: Result<M, RecvOutputError>,
    tried: Result<M, TryRecvOutputError>,
    duration: Duration,
    timed: Result<M, RecvOutputError>,
)
    requires
        call_ensures(PiperReceiver::<M>::new, (input,), receiver),
        call_ensures(PiperReceiver::<M>::recv, (&receiver,), received),
        call_ensures(PiperReceiver::<M>::try_recv, (&receiver,), tried),
        call_ensures(PiperReceiver::<M>::recv_timeout, (&receiver, duration), timed),
    ensures
        received matches Ok(item) ==> input.may_give(Some(item)),
        received is Err ==> received->Err_0 is Closed && input.may_give(None),
        tried matches Ok(item) ==> input.may_answer(Polled::Item(item)),
        tried is Err ==> (tried->Err_0 is Empty && input.may_answer(Polled::Nothing)) || (
        tried->Err_0 is Closed && input.may_answer(Polled::Closed)),
        timed matches Ok(item) ==> input.may_answer_within(duration, Waited::Item(item)),
        timed is Err ==> (timed->Err_0 is Timeout && input.may_answer_within(
            duration,
            Waited::Timeout,
        )) || (timed->Err_0 is Closed && input.may_answer_within(duration, Waited::Closed)),
        received is Ok || tried is Ok || timed is Ok ==> exists|before: u64|
            call_ensures(
                AtomicU64::fetch_add,
                (&input.totals().left(), 1u64, Ordering::Relaxed),
                before,
            ),
{
}

} // verus!

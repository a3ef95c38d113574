//! Buffers on loan: a buffer that is given back is recycled and lent again.
use crate::channel::kanal_queue::{clone_sender, poll, deliver, queue};
use crate::channel::Polled;
use crate::link::Signals;
use kanal::Receiver as KanalReceiver;
use kanal::Sender as KanalSender;
use vstd::prelude::*;

verus! {

/// What can be made ready for its next use.
pub trait Recycle {
    fn recycle(&mut self);
}

impl<T> Recycle for Vec<T> {
    fn recycle(&mut self)
        ensures
            final(self)@.len() == 0,
    {
        self.clear();
    }
}

/// Makes a buffer ready for its next use.
pub fn recycled<T: Recycle>(buffer: T) -> (ready: T)
    ensures
        exists|used: &mut T| #[trigger]
            call_ensures(T::recycle, (used,), ()) && *used == buffer && *final(used) == ready,
{
    let mut ready: T = buffer;
    let used: &mut T = &mut ready;
    used.recycle();
    ready
}

/// A vector is recycled by being emptied.
pub proof fn law_recycled_vector_is_empty<U>(used: Vec<U>, ready: Vec<U>)
    requires
        call_ensures(recycled::<Vec<U>>, (used,), ready),
    ensures
        ready@.len() == 0,
{
}

/// An output that is a buffer of `T` on loan.
pub trait BufferLeaseOutput<T> {

}

impl<T: Recycle> BufferLeaseOutput<T> for BufferLease<T> {

}

/// A buffer on loan.
#[verifier::reject_recursive_types(T)]
pub struct BufferLease<T: Recycle> {
    value: Option<T>,
    recycle_sender: KanalSender<T>,
    signals: Signals,
}

impl<T: Recycle> BufferLease<T> {
    /// The buffer, unless it was given back.
    pub closed spec fn buffer(self) -> Option<T> {
        self.value
    }

    /// The signals of the pipeline that a lost buffer is reported to.
    pub closed spec fn signals(self) -> Signals {
        self.signals
    }

    /// The end that the buffer goes back to.
    pub closed spec fn way_back(self) -> KanalSender<T> {
        self.recycle_sender
    }

    /// The queue may take a buffer back, or may not.
    pub closed spec fn may_return(self, value: T, delivered: bool) -> bool {
        call_ensures(deliver::<T>, (&self.recycle_sender, value), delivered)
    }

    /// Lends a buffer that goes back to `recycle_sender`.
    pub fn new(value: T, recycle_sender: KanalSender<T>, signals: Signals) -> (lease: Self)
        ensures
            lease.buffer() == Some(value),
            lease.signals() == signals,
            lease.way_back() == recycle_sender,
    {
        BufferLease { value: Some(value), recycle_sender, signals }
    }

    /// Keeps the buffer for good.
    pub fn into_inner(self) -> (value: T)
        requires
            self.buffer() is Some,
        ensures
            Some(value) == self.buffer(),
    {
        match self.value {
            Some(value) => value,
            None => vstd::pervasive::unreached(),
        }
    }

    /// The buffer on loan.
    pub fn get(&self) -> (value: &T)
        requires
            self.buffer() is Some,
        ensures
            Some(*value) == self.buffer(),
    {
        match &self.value {
            Some(value) => value,
            None => vstd::pervasive::unreached(),
        }
    }

    /// The buffer on loan, to write to.
    pub fn get_mut(&mut self) -> (value: &mut T)
        requires
            old(self).buffer() is Some,
        ensures
            Some(*value) == old(self).buffer(),
            final(self).buffer() == Some(*final(value)),
            final(self).signals() == old(self).signals(),
            final(self).way_back() == old(self).way_back(),
    {
        match &mut self.value {
            Some(value) => value,
            None => vstd::pervasive::unreached(),
        }
    }

    /// Recycles the buffer and sends it back. One that cannot be sent back is a
    /// failure of the pipeline by the rule of `loss_is_fatal`. Nothing happens
    /// where the buffer is already gone.
    pub fn give_back(&mut self)
        ensures
            final(self).buffer() is None,
            final(self).signals() == old(self).signals(),
            final(self).way_back() == old(self).way_back(),
            old(self).buffer() matches Some(buffer) ==> exists|
                sent: T,
                delivered: bool,
                reported: bool,
            |
                {
                    &&& call_ensures(recycled::<T>, (buffer,), sent)
                    &&& #[trigger] old(self).may_return(sent, delivered)
                    &&& #[trigger] old(self).signals().may_settle(
                        delivered,
                        "recycle channel closed while returning BufferLease"@,
                        reported,
                    )
                },
    {
        if let Some(buffer) = self.value.take() {
            let value: T = recycled(buffer);
            let delivered: bool = deliver(&self.recycle_sender, value);
            self.signals.note_delivery(
                delivered,
                "recycle channel closed while returning BufferLease",
            );
            assert(old(self).may_return(value, delivered));
            assert(old(self).signals() == self.signals);
        }
    }
}

/// The buffer to lend: a recycled one, or else a new one.
pub fn recycled_or_new<T, F: Fn() -> T>(recycled: Option<T>, factory: &F) -> (value: T)
    requires
        recycled is None ==> call_requires(factory, ()),
    ensures
        match recycled {
            Some(buffer) => value == buffer,
            None => call_ensures(factory, (), value),
        },
{
    match recycled {
        Some(buffer) => buffer,
        None => factory(),
    }
}

/// The buffers of one stage: those that were given back wait here.
#[verifier::reject_recursive_types(T)]
pub struct LeasePool<T: Recycle> {
    sender: KanalSender<T>,
    receiver: KanalReceiver<T>,
    signals: Signals,
}

impl<T: Recycle> LeasePool<T> {
    /// The signals of the pipeline that the buffers are lent in.
    pub closed spec fn signals(self) -> Signals {
        self.signals
    }

    /// The two ends of the pool were made as those of one queue.
    pub closed spec fn is_one_queue(self) -> bool {
        call_ensures(queue::<T>, (), (self.sender, self.receiver))
    }

    /// The queue of the buffers that were given back may answer so.
    pub closed spec fn may_answer(self, polled: Polled<T>) -> bool {
        call_ensures(poll::<T>, (&self.receiver,), polled)
    }

    /// The end leads back to this pool.
    pub closed spec fn may_lead_back(self, end: KanalSender<T>) -> bool {
        call_ensures(clone_sender::<T>, (&self.sender,), end)
    }

    pub fn new(signals: Signals) -> (pool: Self)
        ensures
            pool.signals() == signals,
            pool.is_one_queue(),
    {
        let (sender, receiver) = queue::<T>();
        LeasePool { sender, receiver, signals }
    }

    /// Lends a buffer, by the rule of `recycled_or_new` for what waits in the
    /// pool at the time.
    pub fn acquire<F: Fn() -> T>(&self, factory: &F) -> (lease: BufferLease<T>)
        requires
            call_requires(factory, ()),
        ensures
            lease.buffer() is Some,
            lease.signals().shutdown_flag() == self.signals().shutdown_flag(),
            lease.signals().abort_flag() == self.signals().abort_flag(),
            self.signals().may_be_same(lease.signals()),
            self.may_lead_back(lease.way_back()),
            exists|polled: Polled<T>| #[trigger]
                self.may_answer(polled) && match polled {
                    Polled::Item(value) => lease.buffer() == Some(value),
                    _ => call_ensures(factory, (), lease.buffer()->0),
                },
    {
        let polled: Polled<T> = poll(&self.receiver);
        assert(self.may_answer(polled));
        let given_back: Option<T> = match polled {
            Polled::Item(value) => Some(value),
            _ => None,
        };
        let value: T = recycled_or_new(given_back, factory);
        BufferLease::new(value, clone_sender(&self.sender), self.signals.another())
    }
}

/// A lease holds the buffer that it was made with until it is given back, and hands out
/// that buffer.
pub proof fn law_lease_hands_out_its_buffer<T: Recycle>(
    value: T,
    recycle_sender: KanalSender<T>,
    signals: Signals,
    lease: BufferLease<T>,
    seen: &T,
    kept: T,
)
    requires
        call_ensures(BufferLease::<T>::new, (value, recycle_sender, signals), lease),
        call_ensures(BufferLease::<T>::get, (&lease,), seen),
        call_ensures(BufferLease::<T>::into_inner, (lease,), kept),
    ensures
        lease.buffer() == Some(value),
        lease.way_back() == recycle_sender,
        lease.signals() == signals,
        *seen == value,
        kept == value,
{
}

/// A vector that is given back goes back empty, on the way that its lease was made with,
/// and the lease has it no longer.
pub proof fn law_vector_goes_back_empty<U>(lease: &mut BufferLease<Vec<U>>)
    requires
        old(lease).buffer() is Some,
        call_ensures(BufferLease::<Vec<U>>::give_back, (lease,), ()),
    ensures
        final(lease).buffer() is None,
        final(lease).way_back() == old(lease).way_back(),
        exists|sent: Vec<U>, delivered: bool| #[trigger]
            old(lease).may_return(sent, delivered) && sent@.len() == 0,
{
    let buffer = old(lease).buffer()->0;
    let (sent, delivered, reported) = choose|
        sent: Vec<U>,
        delivered: bool,
        reported: bool,
    |
        {
            &&& call_ensures(recycled::<Vec<U>>, (buffer,), sent)
            &&& #[trigger] old(lease).may_return(sent, delivered)
            &&& #[trigger] old(lease).signals().may_settle(
                delivered,
                "recycle channel closed while returning BufferLease"@,
                reported,
            )
        };
    law_recycled_vector_is_empty(buffer, sent);
    assert(old(lease).may_return(sent, delivered) && sent@.len() == 0);
}

/// A buffer that waits is lent before a new one is made.
pub proof fn law_waiting_buffer_is_lent_first<T, F: Fn() -> T>(
    recycled: Option<T>,
    factory: &F,
    value: T,
)
    requires
        call_ensures(recycled_or_new::<T, F>, (recycled, factory), value),
    ensures
        recycled matches Some(buffer) ==> value == buffer,
        recycled is None ==> call_ensures(factory, (), value),
{
}

/// A pool lends a buffer that leads back to it: the one that waits in it, or else a new
/// one.
pub proof fn law_pool_lends_what_waits<T: Recycle, F: Fn() -> T>(
    pool: LeasePool<T>,
    factory: &F,
    lease: BufferLease<T>,
)
    requires
        call_ensures(LeasePool::<T>::acquire::<F>, (&pool, factory), lease),
    ensures
        lease.buffer() is Some,
        pool.may_lead_back(lease.way_back()),
        exists|polled: Polled<T>| #[trigger]
            pool.may_answer(polled) && (polled matches Polled::Item(value) ==> lease.buffer()
                == Some(value)) && (!(polled is Item) ==> call_ensures(
                factory,
                (),
                lease.buffer()->0,
            )),
{
}

} // verus!

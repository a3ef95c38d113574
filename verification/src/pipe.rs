//! The fixed-width pipe: what each of its workers does, and how their results
//! come together.
use crate::channel::kanal_queue::{clone_receiver, queue, wait_for};
use crate::channel::Waited;
use crate::error::{panic_payload_to_string, PanicPayload, PiperError};
use crate::error;
use crate::link;
use crate::text;
use crate::time;
use core::time::Duration;
use kanal::Receiver as KanalReceiver;
use kanal::Sender as KanalSender;
use std::sync::atomic::{AtomicBool, Ordering};
use std::sync::Arc;
use vstd::multiset::Multiset;
use vstd::prelude::*;
use vstd::string::*;

verus! {

/// A pipe has at least one worker.
pub fn check_worker_count<E>(num_workers: usize) -> (outcome: Result<(), PiperError<E>>)
    ensures
        outcome is Ok <==> num_workers > 0,
        outcome matches Err(error) ==> error is ZeroWorkers,
{
    if num_workers == 0 {
        Err(PiperError::ZeroWorkers)
    } else {
        Ok(())
    }
}

/// The name of a pipe worker's thread.
pub fn pipe_worker_name(worker_index: usize) -> (name: String)
    ensures
        name@ == "pipe-worker-"@ + text::decimal(worker_index as nat),
{
    let mut name = "pipe-worker-".to_string();
    text::push_decimal(&mut name, worker_index as u64);
    name
}

/// What came when a pipe worker looked for its next message.
#[derive(Clone, Copy, Debug, PartialEq, Eq)]
pub enum Arrival<M> {
    /// The cancel flag is raised.
    Cancelled,
    Message(M),
    Timeout,
    Closed,
}

/// What a pipe worker saw when it had carried out a command. Errors are the
/// user's own.
#[derive(Debug)]
pub enum PipeSeen<M, O, E> {
    Initialised(Result<(), E>),
    Arrived(Arrival<M>),
    Processed(Result<(), E>),
    Finalised(Result<O, E>),
}

/// How the user's code failed in a pipe worker.
#[derive(Debug)]
pub enum PipeFailure<E> {
    Init(E),
    Process(E),
    Finalize(E),
}

/// The pipe's error for a failure in a worker.
pub open spec fn pipe_error<E>(worker: String, failure: PipeFailure<E>) -> PiperError<E> {
    match failure {
        PipeFailure::Init(error) => PiperError::UserInit { worker, error },
        PipeFailure::Process(error) => PiperError::UserProcess { worker, error },
        PipeFailure::Finalize(error) => PiperError::UserFinalize { worker, error },
    }
}

impl<E> PipeFailure<E> {
    pub fn into_error(self, worker: String) -> (error: PiperError<E>)
        ensures
            error == pipe_error(worker, self),
    {
        match self {
            PipeFailure::Init(error) => PiperError::UserInit { worker, error },
            PipeFailure::Process(error) => PiperError::UserProcess { worker, error },
            PipeFailure::Finalize(error) => PiperError::UserFinalize { worker, error },
        }
    }
}

/// What a pipe worker does next; `Finish` and `Fail` end it.
#[derive(Debug)]
pub enum PipeCommand<M, O, E> {
    Look,
    Process(M),
    Finalise,
    Finish(O),
    Fail(PipeFailure<E>),
}

/// The next command of a pipe worker: it looks for messages until it is cancelled
/// or all senders are gone, processes each, and then finalises. The first error
/// of the user's code ends it.
pub open spec fn pipe_step<M, O, E>(seen: PipeSeen<M, O, E>) -> PipeCommand<M, O, E> {
    match seen {
        PipeSeen::Initialised(Ok(())) => PipeCommand::Look,
        PipeSeen::Initialised(Err(error)) => PipeCommand::Fail(PipeFailure::Init(error)),
        PipeSeen::Arrived(Arrival::Message(message)) => PipeCommand::Process(message),
        PipeSeen::Arrived(Arrival::Timeout) => PipeCommand::Look,
        PipeSeen::Arrived(Arrival::Cancelled) => PipeCommand::Finalise,
        PipeSeen::Arrived(Arrival::Closed) => PipeCommand::Finalise,
        PipeSeen::Processed(Ok(())) => PipeCommand::Look,
        PipeSeen::Processed(Err(error)) => PipeCommand::Fail(PipeFailure::Process(error)),
        PipeSeen::Finalised(Ok(output)) => PipeCommand::Finish(output),
        PipeSeen::Finalised(Err(error)) => PipeCommand::Fail(PipeFailure::Finalize(error)),
    }
}

/// Takes in what a pipe worker saw and says what comes next.
pub fn next_pipe_command<M, O, E>(seen: PipeSeen<M, O, E>) -> (command: PipeCommand<M, O, E>)
    ensures
        command == pipe_step(seen),
{
    match seen {
        PipeSeen::Initialised(Ok(())) => PipeCommand::Look,
        PipeSeen::Initialised(Err(error)) => PipeCommand::Fail(PipeFailure::Init(error)),
        PipeSeen::Arrived(Arrival::Message(message)) => PipeCommand::Process(message),
        PipeSeen::Arrived(Arrival::Timeout) => PipeCommand::Look,
        PipeSeen::Arrived(Arrival::Cancelled) => PipeCommand::Finalise,
        PipeSeen::Arrived(Arrival::Closed) => PipeCommand::Finalise,
        PipeSeen::Processed(Ok(())) => PipeCommand::Look,
        PipeSeen::Processed(Err(error)) => PipeCommand::Fail(PipeFailure::Process(error)),
        PipeSeen::Finalised(Ok(output)) => PipeCommand::Finish(output),
        PipeSeen::Finalised(Err(error)) => PipeCommand::Fail(PipeFailure::Finalize(error)),
    }
}

/// What a pipe worker can see after a command.
pub open spec fn answers<M, O, E>(command: PipeCommand<M, O, E>, seen: PipeSeen<M, O, E>) -> bool {
    match command {
        PipeCommand::Look => seen is Arrived,
        PipeCommand::Process(_) => seen is Processed,
        PipeCommand::Finalise => seen is Finalised,
        PipeCommand::Finish(_) => false,
        PipeCommand::Fail(_) => false,
    }
}

/// What a pipe worker saw from its start on, each time after the command that
/// came before.
pub open spec fn is_run<M, O, E>(seen: Seq<PipeSeen<M, O, E>>) -> bool {
    &&& seen.len() > 0
    &&& seen[0] is Initialised
    &&& forall|i: int|
        0 < i < seen.len() ==> answers(pipe_step(seen[i - 1]), #[trigger] seen[i])
}

/// The message that arrived, if one did.
pub open spec fn message_of<M, O, E>(seen: PipeSeen<M, O, E>) -> Option<M> {
    match seen {
        PipeSeen::Arrived(Arrival::Message(message)) => Some(message),
        _ => None,
    }
}

/// The messages that arrived, as many times as they did.
pub open spec fn messages_received<M, O, E>(seen: Seq<PipeSeen<M, O, E>>) -> Multiset<M>
    decreases seen.len(),
{
    if seen.len() == 0 {
        Multiset::empty()
    } else {
        match message_of(seen.last()) {
            Some(message) => messages_received(seen.drop_last()).insert(message),
            None => messages_received(seen.drop_last()),
        }
    }
}

/// The messages that were processed, as many times as they were.
pub open spec fn messages_processed<M, O, E>(seen: Seq<PipeSeen<M, O, E>>) -> Multiset<M>
    decreases seen.len(),
{
    if seen.len() < 2 {
        Multiset::empty()
    } else {
        let before = messages_processed(seen.drop_last());
        match pipe_step(seen[seen.len() - 2]) {
            PipeCommand::Process(message) => if seen.last() is Processed {
                before.insert(message)
            } else {
                before
            },
            _ => before,
        }
    }
}

/// The worker has ended.
pub open spec fn has_ended<M, O, E>(seen: Seq<PipeSeen<M, O, E>>) -> bool {
    is_run(seen) && (pipe_step(seen.last()) is Finish || pipe_step(seen.last()) is Fail)
}

/// A pipe worker processes each message that it takes once, and before it looks
/// for the next: only the message that just came may be left to process, and
/// none is once the worker has ended.
pub proof fn law_each_message_is_processed_once<M, O, E>(seen: Seq<PipeSeen<M, O, E>>)
    requires
        is_run(seen),
    ensures
        messages_received(seen) == match message_of(seen.last()) {
            Some(message) => messages_processed(seen).insert(message),
            None => messages_processed(seen),
        },
        has_ended(seen) ==> messages_processed(seen) == messages_received(seen),
        forall|i: int|
            0 <= i < seen.len() - 1 ==> (message_of(#[trigger] seen[i]) is Some <==> seen[i
                + 1] is Processed),
    decreases seen.len(),
{
    let earlier = seen.drop_last();
    if seen.len() > 1 {
        assert forall|i: int| 0 < i < earlier.len() implies answers(
            pipe_step(earlier[i - 1]),
            #[trigger] earlier[i],
        ) by {
            assert(answers(pipe_step(seen[i - 1]), seen[i]));
        }
        law_each_message_is_processed_once(earlier);
        assert(answers(pipe_step(seen[seen.len() - 2]), seen[seen.len() - 1]));
        assert(earlier.last() == seen[seen.len() - 2]);
        assert forall|i: int| 0 <= i < seen.len() - 1 implies (message_of(
            #[trigger] seen[i],
        ) is Some <==> seen[i + 1] is Processed) by {
            assert(answers(pipe_step(seen[i + 1 - 1]), seen[i + 1]));
        }
    } else {
        assert(messages_received(earlier) == Multiset::<M>::empty());
    }
}

/// All that the workers of a pipe received.
pub open spec fn all_received<M, O, E>(runs: Seq<Seq<PipeSeen<M, O, E>>>) -> Multiset<M>
    decreases runs.len(),
{
    if runs.len() == 0 {
        Multiset::empty()
    } else {
        all_received(runs.drop_last()).add(messages_received(runs.last()))
    }
}

/// All that the workers of a pipe processed.
pub open spec fn all_processed<M, O, E>(runs: Seq<Seq<PipeSeen<M, O, E>>>) -> Multiset<M>
    decreases runs.len(),
{
    if runs.len() == 0 {
        Multiset::empty()
    } else {
        all_processed(runs.drop_last()).add(messages_processed(runs.last()))
    }
}

proof fn lemma_all_is_processed<M, O, E>(runs: Seq<Seq<PipeSeen<M, O, E>>>)
    requires
        forall|i: int| 0 <= i < runs.len() ==> has_ended(#[trigger] runs[i]),
    ensures
        all_processed(runs) == all_received(runs),
    decreases runs.len(),
{
    if runs.len() > 0 {
        lemma_all_is_processed(runs.drop_last());
        assert(has_ended(runs[runs.len() - 1]));
        law_each_message_is_processed_once(runs.last());
    }
}

/// Where the workers of a pipe together received the messages that were sent, each
/// once, they together processed them, each once: none is lost or done twice.
pub proof fn law_a_pipe_processes_what_was_sent<M, O, E>(
    runs: Seq<Seq<PipeSeen<M, O, E>>>,
    sent: Multiset<M>,
)
    requires
        forall|i: int| 0 <= i < runs.len() ==> has_ended(#[trigger] runs[i]),
        all_received(runs) == sent,
    ensures
        all_processed(runs) == sent,
{
    lemma_all_is_processed(runs);
}

/// The result of a worker that ended.
pub open spec fn run_result<M, O, E>(worker: String, seen: Seq<PipeSeen<M, O, E>>) -> Result<
    O,
    PiperError<E>,
> {
    match pipe_step(seen.last()) {
        PipeCommand::Finish(output) => Ok(output),
        ending => Err(pipe_error(worker, ending->Fail_0)),
    }
}

/// Where none of a pipe's workers failed, the pipe gives one output for each, in
/// their order: the one that its finalisation gave.
pub proof fn law_a_pipe_gives_one_output_per_worker<M, O, E>(
    runs: Seq<Seq<PipeSeen<M, O, E>>>,
    workers: Seq<String>,
    results: Vec<Result<O, PiperError<E>>>,
    outcome: Result<Vec<O>, PiperError<E>>,
)
    requires
        results@.len() == runs.len(),
        workers.len() == runs.len(),
        forall|i: int|
            0 <= i < runs.len() ==> is_run(#[trigger] runs[i]) && pipe_step(
                runs[i].last(),
            ) is Finish,
        forall|i: int|
            0 <= i < runs.len() ==> #[trigger] results@[i] == run_result(workers[i], runs[i]),
        call_ensures(collect_outputs::<O, E>, (results,), outcome),
    ensures
        outcome is Ok,
        outcome->Ok_0@.len() == runs.len(),
        forall|i: int|
            0 <= i < runs.len() ==> #[trigger] runs[i].last() == PipeSeen::<M, O, E>::Finalised(
                Ok(outcome->Ok_0@[i]),
            ),
{
    assert forall|i: int| 0 <= i < runs.len() implies #[trigger] results@[i] is Ok by {
        assert(is_run(runs[i]));
    }
    assert(outcome is Ok);
    assert forall|i: int| 0 <= i < runs.len() implies #[trigger] runs[i].last() == PipeSeen::<
        M,
        O,
        E,
    >::Finalised(Ok(outcome->Ok_0@[i])) by {
        assert(is_run(runs[i]));
        assert(results@[i] == Ok::<O, PiperError<E>>(outcome->Ok_0@[i]));
        assert(results@[i] == run_result(workers[i], runs[i]));
    }
}

/// A pipe worker gives an output only where it processed every message without
/// an error. It initialises once, at its start, and finalises once, at its end.
pub proof fn law_output_follows_all_messages<M, O, E>(seen: Seq<PipeSeen<M, O, E>>, i: int)
    requires
        is_run(seen),
        pipe_step(seen.last()) is Finish,
        0 <= i < seen.len(),
    ensures
        seen.last() is Finalised,
        seen[i] is Initialised <==> i == 0,
        seen[i] matches PipeSeen::Processed(outcome) ==> outcome is Ok,
        seen[i] is Finalised ==> i == seen.len() - 1,
{
    if i < seen.len() - 1 {
        assert(answers(pipe_step(seen[i + 1 - 1]), seen[i + 1]));
    }
    if i > 0 {
        assert(answers(pipe_step(seen[i - 1]), seen[i]));
    }
}

/// How a thread ended.
#[derive(Debug)]
pub enum ThreadEnd<T> {
    Returned(T),
    Panicked(PanicPayload),
}

/// The result of a worker whose thread was joined: its own, or that it panicked.
pub fn joined_result<O, E>(
    worker: String,
    end: ThreadEnd<Result<O, PiperError<E>>>,
) -> (result: Result<O, PiperError<E>>)
    ensures
        match end {
            ThreadEnd::Returned(own) => result == own,
            ThreadEnd::Panicked(payload) => {
                &&& result is Err
                &&& result->Err_0 is WorkerPanicked
                &&& result->Err_0->WorkerPanicked_worker == worker
                &&& result->Err_0->WorkerPanicked_message@ == error::payload_text(payload)
            },
        },
{
    match end {
        ThreadEnd::Returned(own) => own,
        ThreadEnd::Panicked(payload) => Err(
            PiperError::WorkerPanicked { worker, message: panic_payload_to_string(payload) },
        ),
    }
}

/// The first failed result, if one failed.
pub open spec fn first_failed<O, E>(results: Seq<Result<O, PiperError<E>>>, i: int) -> bool {
    &&& 0 <= i < results.len()
    &&& results[i] is Err
    &&& forall|j: int| 0 <= j < i ==> (#[trigger] results[j]) is Ok
}

/// The outputs of all workers in order, or the first error in that order.
pub fn collect_outputs<O, E>(results: Vec<Result<O, PiperError<E>>>) -> (outcome: Result<
    Vec<O>,
    PiperError<E>,
>)
    ensures
        match outcome {
            Ok(outputs) => {
                &&& outputs@.len() == results@.len()
                &&& forall|i: int|
                    0 <= i < results@.len() ==> #[trigger] results@[i] == Ok::<O, PiperError<E>>(
                        outputs@[i],
                    )
            },
            Err(error) => exists|i: int|
                #[trigger] first_failed(results@, i) && results@[i] == Err::<O, PiperError<E>>(
                    error,
                ),
        },
{
    let mut outputs: Vec<O> = Vec::new();
    let ghost all = results@;
    for result in it: results
        invariant
            it.seq() == all,
            outputs@.len() == it.index(),
            forall|i: int|
                0 <= i < it.index() ==> #[trigger] all[i] == Ok::<O, PiperError<E>>(outputs@[i]),
    {
        match result {
            Ok(output) => outputs.push(output),
            Err(error) => {
                assert(first_failed(all, it.index() as int));
                return Err(error);
            },
        }
    }
    Ok(outputs)
}

/// A pipe gives outputs exactly when every one of its workers did.
pub proof fn law_outputs_need_every_worker<O, E>(results: Seq<Result<O, PiperError<E>>>, i: int)
    requires
        first_failed(results, i),
    ensures
        forall|j: int| first_failed(results, j) ==> j == i,
        !(forall|k: int| 0 <= k < results.len() ==> (#[trigger] results[k]) is Ok),
{
}

/// Where a pipe's workers find their messages.
#[verifier::reject_recursive_types(M)]
pub struct PipeInbox<M> {
    receiver: KanalReceiver<M>,
    cancel: Arc<AtomicBool>,
}

/// The two ends of a new pipe, over its cancel flag.
pub fn pipe_ends<M>(cancel: Arc<AtomicBool>) -> (ends: (KanalSender<M>, PipeInbox<M>))
    ensures
        ends.1.cancel_flag() == *cancel,
        ends.1.may_be_fed_by(ends.0),
{
    let (sender, receiver) = queue::<M>();
    (sender, PipeInbox { receiver, cancel })
}

/// What came from the queue.
pub open spec fn arrived<M>(waited: Waited<M>) -> Arrival<M> {
    match waited {
        Waited::Item(message) => Arrival::Message(message),
        Waited::Timeout => Arrival::Timeout,
        Waited::Closed => Arrival::Closed,
    }
}

/// What came from the queue.
pub fn arrival<M>(waited: Waited<M>) -> (seen: Arrival<M>)
    ensures
        seen == arrived(waited),
{
    match waited {
        Waited::Item(message) => Arrival::Message(message),
        Waited::Timeout => Arrival::Timeout,
        Waited::Closed => Arrival::Closed,
    }
}

impl<M> PipeInbox<M> {
    /// The flag that stops the workers.
    pub closed spec fn cancel_flag(self) -> AtomicBool {
        *self.cancel
    }

    /// The queue may answer so to one who waits for this long.
    pub closed spec fn may_answer_within(self, duration: Duration, waited: Waited<M>) -> bool {
        call_ensures(wait_for::<M>, (&self.receiver, duration), waited)
    }

    /// The sending end and the inbox were made as the ends of one queue.
    pub closed spec fn may_be_fed_by(self, sender: KanalSender<M>) -> bool {
        call_ensures(queue::<M>, (), (sender, self.receiver))
    }

    /// The other inbox may have been made from this one.
    pub closed spec fn may_be_same(self, other: Self) -> bool {
        call_ensures(clone_receiver::<M>, (&self.receiver,), other.receiver)
    }

    /// The same inbox, for another worker.
    pub fn another(&self) -> (inbox: Self)
        ensures
            inbox.cancel_flag() == self.cancel_flag(),
            self.may_be_same(inbox),
    {
        PipeInbox { receiver: clone_receiver(&self.receiver), cancel: Arc::clone(&self.cancel) }
    }

    /// Looks for the next message: first at the cancel flag, and then for some
    /// time at the queue. What comes from the queue is told by `arrival`.
    pub fn look(&self, poll_interval: Duration) -> (seen: Arrival<M>)
        requires
            time::is_waitable(poll_interval),
        ensures
            ({
                ||| {
                    &&& link::flag_may_show(self.cancel_flag(), true)
                    &&& seen is Cancelled
                }
                ||| {
                    &&& link::flag_may_show(self.cancel_flag(), false)
                    &&& exists|waited: Waited<M>| #[trigger]
                        self.may_answer_within(poll_interval, waited) && seen == arrived(waited)
                }
            }),
    {
        if self.cancel.load(Ordering::Acquire) {
            return Arrival::Cancelled;
        }
        let waited: Waited<M> = wait_for(&self.receiver, poll_interval);
        assert(self.may_answer_within(poll_interval, waited));
        arrival(waited)
    }
}

/// A pipe needs a worker.
pub proof fn law_pipe_needs_a_worker<E>(num_workers: usize, outcome: Result<(), PiperError<E>>)
    requires
        call_ensures(check_worker_count::<E>, (num_workers,), outcome),
    ensures
        outcome is Err <==> num_workers == 0,
        outcome is Err ==> outcome->Err_0 is ZeroWorkers,
{
}

/// A pipe worker's thread is named by its number.
pub proof fn law_pipe_worker_is_named_by_its_number(worker_index: usize, name: String)
    requires
        call_ensures(pipe_worker_name, (worker_index,), name),
    ensures
        name@.len() == 12 + text::decimal(worker_index as nat).len(),
        name@.take(12) == "pipe-worker-"@,
        name@.skip(12) == text::decimal(worker_index as nat),
{
    reveal_strlit("pipe-worker-");
    assert(name@.take(12) =~= "pipe-worker-"@);
    assert(name@.skip(12) =~= text::decimal(worker_index as nat));
}

/// A pipe worker processes exactly what arrives, each message as it came; it looks on
/// after a success and after a wait in vain; it finalises when it is cancelled or no
/// more can come, and only then; and it gives out what its finalisation gave.
pub proof fn law_pipe_worker_goes_by_what_it_sees<M, O, E>(
    seen: PipeSeen<M, O, E>,
    command: PipeCommand<M, O, E>,
)
    requires
        call_ensures(next_pipe_command::<M, O, E>, (seen,), command),
    ensures
        command is Process <==> seen is Arrived && seen->Arrived_0 is Message,
        command is Process ==> command->Process_0 == seen->Arrived_0->Message_0,
        command is Look <==> {
            ||| seen is Initialised && seen->Initialised_0 is Ok
            ||| seen is Processed && seen->Processed_0 is Ok
            ||| seen is Arrived && seen->Arrived_0 is Timeout
        },
        command is Finalise <==> seen is Arrived && (seen->Arrived_0 is Cancelled
            || seen->Arrived_0 is Closed),
        command is Finish <==> seen is Finalised && seen->Finalised_0 is Ok,
        command is Finish ==> command->Finish_0 == seen->Finalised_0->Ok_0,
{
}

/// Any error of the user's code ends a pipe worker, and is told as a failure of the
/// step that it came from, under the worker's name.
pub proof fn law_pipe_failure_is_told<M, O, E>(
    seen: PipeSeen<M, O, E>,
    command: PipeCommand<M, O, E>,
    worker: String,
    error: PiperError<E>,
)
    requires
        call_ensures(next_pipe_command::<M, O, E>, (seen,), command),
        command is Fail ==> call_ensures(
            PipeFailure::<E>::into_error,
            (command->Fail_0, worker),
            error,
        ),
    ensures
        command is Fail <==> {
            ||| seen is Initialised && seen->Initialised_0 is Err
            ||| seen is Processed && seen->Processed_0 is Err
            ||| seen is Finalised && seen->Finalised_0 is Err
        },
        seen matches PipeSeen::Initialised(Err(own)) ==> error == (PiperError::UserInit {
            worker,
            error: own,
        }),
        seen matches PipeSeen::Processed(Err(own)) ==> error == (PiperError::UserProcess {
            worker,
            error: own,
        }),
        seen matches PipeSeen::Finalised(Err(own)) ==> error == (PiperError::UserFinalize {
            worker,
            error: own,
        }),
{
}

/// What a pipe gives: the outputs of all its workers, each in its worker's place, or
/// else the error of the first worker that failed.
pub proof fn law_first_failure_is_given<O, E>(
    results: Vec<Result<O, PiperError<E>>>,
    outcome: Result<Vec<O>, PiperError<E>>,
    i: int,
)
    requires
        call_ensures(collect_outputs::<O, E>, (results,), outcome),
        0 <= i < results@.len(),
    ensures
        outcome is Ok ==> outcome->Ok_0@.len() == results@.len() && results@[i] is Ok
            && outcome->Ok_0@[i] == results@[i]->Ok_0,
        results@[i] is Err && (forall|j: int| 0 <= j < i ==> (#[trigger] results@[j]) is Ok)
            ==> outcome == Err::<Vec<O>, PiperError<E>>(results@[i]->Err_0),
{
    if results@[i] is Err && (forall|j: int| 0 <= j < i ==> (#[trigger] results@[j]) is Ok) {
        assert(first_failed(results@, i));
        law_outputs_need_every_worker(results@, i);
    }
}

/// What the queue gives is what a pipe worker sees of it.
pub proof fn law_arrival_is_what_came<M>(waited: Waited<M>, seen: Arrival<M>)
    requires
        call_ensures(arrival::<M>, (waited,), seen),
    ensures
        seen is Message <==> waited is Item,
        seen is Timeout <==> waited is Timeout,
        seen is Closed <==> waited is Closed,
        waited is Item ==> seen->Message_0 == waited->Item_0,
{
}

} // verus!

//! What a worker does with its stage, step by step: the worker's thread carries
//! out each command and hands back what it saw.
use crate::channel::Waited;
use crate::control::StageSample;
use crate::crew::WorkerEvent;
use crate::error::StageFailure;
use crate::time;
use crate::time::duration_nanos_u64;
use core::time::Duration;
use std::sync::atomic::{AtomicU64, Ordering};
use vstd::multiset::Multiset;
use vstd::prelude::*;

verus! {

/// Where a worker stands in its assignment.
#[derive(Clone, Copy, Debug, PartialEq, Eq, Structural)]
pub enum Phase {
    Starting,
    Announcing,
    Checking,
    Receiving,
    Processing,
    CleaningUp,
    Done,
}

/// The flags of a pipeline as a worker sees them before it waits for an item.
#[derive(Clone, Copy, Debug)]
pub struct Flags {
    pub abort: bool,
    pub retire: bool,
    pub shutdown: bool,
    pub input_empty: bool,
}

/// What came when the worker waited for an item.
#[derive(Clone, Copy, Debug, PartialEq, Eq)]
pub enum Reception<M> {
    Item(M),
    Timeout { terminated: bool },
    Closed,
}

/// What a worker saw when it had carried out a command.
#[derive(Debug)]
pub enum Observation<M, E> {
    Initialised(Result<(), StageFailure<E>>),
    Announced,
    Checked(Flags),
    Received(Reception<M>),
    Processed(Result<(), StageFailure<E>>),
    CleanedUp(Result<(), StageFailure<E>>),
}

/// What a worker does next. `Park` and `Fail` end the assignment with a report.
#[derive(Debug)]
pub enum Command<M, E> {
    Initialise,
    Announce,
    Check,
    Receive,
    Process(M),
    CleanUp,
    Park,
    Fail(StageFailure<E>),
}

/// The observation answers the command of this phase.
pub open spec fn answers<M, E>(phase: Phase, seen: Observation<M, E>) -> bool {
    match phase {
        Phase::Starting => seen is Initialised,
        Phase::Announcing => seen is Announced,
        Phase::Checking => seen is Checked,
        Phase::Receiving => seen is Received,
        Phase::Processing => seen is Processed,
        Phase::CleaningUp => seen is CleanedUp,
        Phase::Done => false,
    }
}

/// The worker stops without being asked to abort: it is to retire, or its stage
/// takes the pipeline's input and that is used up at shutdown.
pub open spec fn is_finishing(flags: Flags, is_input_stage: bool) -> bool {
    flags.retire || (flags.shutdown && is_input_stage && flags.input_empty)
}

/// The next phase and command.
pub open spec fn next_step<M, E>(is_input_stage: bool, seen: Observation<M, E>) -> (Phase, Command<M, E>) {
    match seen {
        Observation::Initialised(Ok(())) => (Phase::Announcing, Command::Announce),
        Observation::Initialised(Err(failure)) => (Phase::Done, Command::Fail(failure)),
        Observation::Announced => (Phase::Checking, Command::Check),
        Observation::Checked(flags) => if flags.abort {
            (Phase::Done, Command::Park)
        } else if is_finishing(flags, is_input_stage) {
            (Phase::CleaningUp, Command::CleanUp)
        } else {
            (Phase::Receiving, Command::Receive)
        },
        Observation::Received(reception) => match reception {
            Reception::Item(item) => (Phase::Processing, Command::Process(item)),
            Reception::Timeout { terminated: false } => (Phase::Checking, Command::Check),
            Reception::Timeout { terminated: true } => (Phase::CleaningUp, Command::CleanUp),
            Reception::Closed => (Phase::CleaningUp, Command::CleanUp),
        },
        Observation::Processed(Ok(())) => (Phase::Checking, Command::Check),
        Observation::Processed(Err(failure)) => (Phase::Done, Command::Fail(failure)),
        Observation::CleanedUp(Ok(())) => (Phase::Done, Command::Park),
        Observation::CleanedUp(Err(failure)) => (Phase::Done, Command::Fail(failure)),
    }
}

/// One assignment of a worker.
#[derive(Debug)]
pub struct Assignment {
    pub worker_id: usize,
    pub worker: String,
    pub stage_index: usize,
    pub is_input_stage: bool,
    pub phase: Phase,
}

impl Assignment {
    /// A new assignment; its first command is to initialise the stage.
    pub fn new(
        worker_id: usize,
        worker: String,
        stage_index: usize,
        is_input_stage: bool,
    ) -> (assignment: Self)
        ensures
            assignment == (Assignment {
                worker_id,
                worker,
                stage_index,
                is_input_stage,
                phase: Phase::Starting,
            }),
    {
        Assignment { worker_id, worker, stage_index, is_input_stage, phase: Phase::Starting }
    }

    /// Takes in what was seen and says what comes next.
    pub fn step<M, E>(&mut self, seen: Observation<M, E>) -> (command: Command<M, E>)
        requires
            answers(old(self).phase, seen),
        ensures
            (final(self).phase, command) == next_step(old(self).is_input_stage, seen),
            *final(self) == (Assignment { phase: final(self).phase, ..*old(self) }),
    {
        match seen {
            Observation::Initialised(Ok(())) => {
                self.phase = Phase::Announcing;
                Command::Announce
            },
            Observation::Announced => {
                self.phase = Phase::Checking;
                Command::Check
            },
            Observation::Checked(flags) => {
                if flags.abort {
                    self.phase = Phase::Done;
                    Command::Park
                } else if flags.retire || (flags.shutdown && self.is_input_stage
                    && flags.input_empty) {
                    self.phase = Phase::CleaningUp;
                    Command::CleanUp
                } else {
                    self.phase = Phase::Receiving;
                    Command::Receive
                }
            },
            Observation::Received(Reception::Item(item)) => {
                self.phase = Phase::Processing;
                Command::Process(item)
            },
            Observation::Received(Reception::Timeout { terminated }) => {
                if terminated {
                    self.phase = Phase::CleaningUp;
                    Command::CleanUp
                } else {
                    self.phase = Phase::Checking;
                    Command::Check
                }
            },
            Observation::Received(Reception::Closed) => {
                self.phase = Phase::CleaningUp;
                Command::CleanUp
            },
            Observation::Processed(Ok(())) => {
                self.phase = Phase::Checking;
                Command::Check
            },
            Observation::CleanedUp(Ok(())) => {
                self.phase = Phase::Done;
                Command::Park
            },
            Observation::Initialised(Err(failure)) | Observation::Processed(Err(failure))
            | Observation::CleanedUp(Err(failure)) => {
                self.phase = Phase::Done;
                Command::Fail(failure)
            },
        }
    }

    /// The report that the stage is served.
    pub fn started<E>(&self) -> (event: WorkerEvent<E>)
        ensures
            event == (WorkerEvent::<E>::Started { worker_id: self.worker_id }),
    {
        WorkerEvent::Started { worker_id: self.worker_id }
    }

    /// The last report: the failure that ended the assignment, or that the worker
    /// is free again.
    pub fn report<E>(self, failure: Option<StageFailure<E>>) -> (event: WorkerEvent<E>)
        ensures
            event == match failure {
                Some(failure) => WorkerEvent::Failed {
                    worker_id: self.worker_id,
                    stage_index: self.stage_index,
                    worker: self.worker,
                    failure,
                },
                None => WorkerEvent::Parked {
                    worker_id: self.worker_id,
                    stage_index: self.stage_index,
                },
            },
    {
        match failure {
            Some(failure) => WorkerEvent::Failed {
                worker_id: self.worker_id,
                stage_index: self.stage_index,
                worker: self.worker,
                failure,
            },
            None => WorkerEvent::Parked {
                worker_id: self.worker_id,
                stage_index: self.stage_index,
            },
        }
    }
}

/// What came. `terminated` is asked for only when the time was over.
pub fn reception<M>(waited: Waited<M>, terminated: bool) -> (reception: Reception<M>)
    ensures
        reception == match waited {
            Waited::Item(item) => Reception::Item(item),
            Waited::Timeout => Reception::Timeout { terminated },
            Waited::Closed => Reception::Closed,
        },
{
    match waited {
        Waited::Item(item) => Reception::Item(item),
        Waited::Timeout => Reception::Timeout { terminated },
        Waited::Closed => Reception::Closed,
    }
}

/// The phase after a list of observations, or `None` where one of them does not
/// answer the command before it.
pub open spec fn phase_after<M, E>(is_input_stage: bool, seen: Seq<Observation<M, E>>) -> Option<Phase>
    decreases seen.len(),
{
    if seen.len() == 0 {
        Some(Phase::Starting)
    } else {
        match phase_after(is_input_stage, seen.drop_last()) {
            Some(phase) => if answers(phase, seen.last()) {
                Some(next_step(is_input_stage, seen.last()).0)
            } else {
                None
            },
            None => None,
        }
    }
}

/// The commands that a list of observations leads to, in order.
pub open spec fn commands<M, E>(is_input_stage: bool, seen: Seq<Observation<M, E>>) -> Seq<Command<M, E>> {
    Seq::new(seen.len(), |i: int| next_step(is_input_stage, seen[i]).1)
}

pub open spec fn is_report<M, E>(command: Command<M, E>) -> bool {
    command is Park || command is Fail
}

proof fn lemma_earlier_phases<M, E>(is_input_stage: bool, seen: Seq<Observation<M, E>>, n: int)
    requires
        0 <= n <= seen.len(),
        phase_after(is_input_stage, seen) is Some,
    ensures
        phase_after(is_input_stage, seen.take(n)) is Some,
        n < seen.len() ==> phase_after(is_input_stage, seen.take(n))->0 != Phase::Done,
        n < seen.len() ==> answers(phase_after(is_input_stage, seen.take(n))->0, seen[n]),
    decreases seen.len(),
{
    if n == seen.len() {
        assert(seen.take(n) =~= seen);
    } else if n == seen.len() - 1 {
        assert(seen.take(n) =~= seen.drop_last());
    } else {
        lemma_earlier_phases(is_input_stage, seen.drop_last(), n);
        assert(seen.drop_last().take(n) =~= seen.take(n));
    }
}

/// An assignment ends with exactly one report, which is its last command; until
/// then there is none.
pub proof fn law_assignment_reports_once<M, E>(is_input_stage: bool, seen: Seq<Observation<M, E>>)
    requires
        phase_after(is_input_stage, seen) is Some,
    ensures
        phase_after(is_input_stage, seen) == Some(Phase::Done) <==> seen.len() > 0 && is_report(
            commands(is_input_stage, seen).last(),
        ),
        forall|i: int|
            0 <= i < seen.len() - 1 ==> !is_report(
                #[trigger] commands(is_input_stage, seen)[i],
            ),
{
    assert forall|i: int| 0 <= i < seen.len() - 1 implies !is_report(
        #[trigger] commands(is_input_stage, seen)[i],
    ) by {
        lemma_earlier_phases(is_input_stage, seen, i + 1);
        lemma_earlier_phases(is_input_stage, seen, i);
        assert(seen.take(i + 1).drop_last() =~= seen.take(i));
        assert(seen.take(i + 1).last() == seen[i]);
    }
}

/// An abort that is seen at a check ends the assignment there, and the stage is
/// not cleaned up.
pub proof fn law_abort_skips_cleanup<M, E>(is_input_stage: bool, flags: Flags)
    requires
        flags.abort,
    ensures
        next_step(is_input_stage, Observation::<M, E>::Checked(flags)) == (
            Phase::Done,
            Command::<M, E>::Park,
        ),
{
}

/// The stage is initialised before it is served: every command but a failed
/// start comes after a successful initialisation.
pub proof fn law_stage_is_initialised_first<M, E>(is_input_stage: bool, seen: Seq<Observation<M, E>>)
    requires
        phase_after(is_input_stage, seen) is Some,
        seen.len() > 0,
    ensures
        seen[0] is Initialised,
        seen.len() > 1 ==> seen[0]->Initialised_0 is Ok && seen[1] is Announced,
{
    lemma_earlier_phases(is_input_stage, seen, 0);
    assert(seen.take(0) =~= Seq::empty());
    if seen.len() > 1 {
        lemma_earlier_phases(is_input_stage, seen, 1);
        assert(seen.take(1).drop_last() =~= Seq::empty());
        assert(seen.take(1).last() == seen[0]);
    }
}

/// The item that was received, if one was.
pub open spec fn item_of<M, E>(seen: Observation<M, E>) -> Option<M> {
    match seen {
        Observation::Received(Reception::Item(item)) => Some(item),
        _ => None,
    }
}

/// An item that was received is processed next, and nothing is processed that
/// was not just received.
pub proof fn law_items_are_processed_as_they_come<M, E>(
    is_input_stage: bool,
    seen: Seq<Observation<M, E>>,
    i: int,
)
    requires
        phase_after(is_input_stage, seen) is Some,
        0 <= i < seen.len(),
    ensures
        commands(is_input_stage, seen)[i] is Process <==> item_of(seen[i]) is Some,
        item_of(seen[i]) matches Some(item) ==> commands(is_input_stage, seen)[i]
            == Command::<M, E>::Process(item),
        seen[i] is Processed ==> i > 0 && item_of(seen[i - 1]) is Some,
        i > 0 && item_of(seen[i - 1]) is Some ==> seen[i] is Processed,
{
    lemma_earlier_phases(is_input_stage, seen, i);
    if i > 0 {
        assert(seen.take(i).last() == seen[i - 1]);
    } else {
        assert(seen.take(0) =~= Seq::empty());
    }
}

/// What the workers of a link saw in one assignment each.
pub struct Shift<M, E> {
    pub is_input_stage: bool,
    pub seen: Seq<Observation<M, E>>,
}

/// The assignment has ended.
pub open spec fn is_over<M, E>(shift: Shift<M, E>) -> bool {
    phase_after(shift.is_input_stage, shift.seen) == Some(Phase::Done)
}

/// The items that came, as many times as they came.
pub open spec fn items_received<M, E>(seen: Seq<Observation<M, E>>) -> Multiset<M>
    decreases seen.len(),
{
    if seen.len() == 0 {
        Multiset::empty()
    } else {
        match item_of(seen.last()) {
            Some(item) => items_received(seen.drop_last()).insert(item),
            None => items_received(seen.drop_last()),
        }
    }
}

/// The items that were processed, as many times as they were.
pub open spec fn items_processed<M, E>(
    is_input_stage: bool,
    seen: Seq<Observation<M, E>>,
) -> Multiset<M>
    decreases seen.len(),
{
    if seen.len() < 2 {
        Multiset::empty()
    } else {
        let before = items_processed(is_input_stage, seen.drop_last());
        match commands(is_input_stage, seen)[seen.len() - 2] {
            Command::Process(item) => if seen.last() is Processed {
                before.insert(item)
            } else {
                before
            },
            _ => before,
        }
    }
}

proof fn lemma_one_item_is_open<M, E>(is_input_stage: bool, seen: Seq<Observation<M, E>>)
    requires
        phase_after(is_input_stage, seen) is Some,
    ensures
        items_received(seen) == if seen.len() > 0 && item_of(seen.last()) is Some {
            items_processed(is_input_stage, seen).insert(item_of(seen.last())->0)
        } else {
            items_processed(is_input_stage, seen)
        },
    decreases seen.len(),
{
    if seen.len() > 0 {
        let earlier = seen.drop_last();
        lemma_one_item_is_open(is_input_stage, earlier);
        law_items_are_processed_as_they_come(is_input_stage, seen, seen.len() - 1);
        if seen.len() >= 2 {
            law_items_are_processed_as_they_come(is_input_stage, seen, seen.len() - 2);
            assert(earlier.last() == seen[seen.len() - 2]);
        }
    }
}

/// A worker processes each item that it received once before its assignment
/// ends.
pub proof fn law_each_received_item_is_processed_once<M, E>(shift: Shift<M, E>)
    requires
        is_over(shift),
    ensures
        items_processed(shift.is_input_stage, shift.seen) == items_received(shift.seen),
{
    lemma_one_item_is_open(shift.is_input_stage, shift.seen);
    law_assignment_reports_once(shift.is_input_stage, shift.seen);
}

/// All that came to the workers of a link.
pub open spec fn all_received<M, E>(shifts: Seq<Shift<M, E>>) -> Multiset<M>
    decreases shifts.len(),
{
    if shifts.len() == 0 {
        Multiset::empty()
    } else {
        all_received(shifts.drop_last()).add(items_received(shifts.last().seen))
    }
}

/// All that the workers of a link processed.
pub open spec fn all_processed<M, E>(shifts: Seq<Shift<M, E>>) -> Multiset<M>
    decreases shifts.len(),
{
    if shifts.len() == 0 {
        Multiset::empty()
    } else {
        all_processed(shifts.drop_last()).add(
            items_processed(shifts.last().is_input_stage, shifts.last().seen),
        )
    }
}

/// Where the workers of a link together received what was put on it, each item
/// once, they together processed it, each item once: the work is shared, and
/// nothing is lost or done twice.
pub proof fn law_a_link_is_shared_work<M, E>(shifts: Seq<Shift<M, E>>, put: Multiset<M>)
    requires
        forall|i: int| 0 <= i < shifts.len() ==> is_over(#[trigger] shifts[i]),
        all_received(shifts) == put,
    ensures
        all_processed(shifts) == put,
{
    lemma_all_is_processed(shifts);
}

proof fn lemma_all_is_processed<M, E>(shifts: Seq<Shift<M, E>>)
    requires
        forall|i: int| 0 <= i < shifts.len() ==> is_over(#[trigger] shifts[i]),
    ensures
        all_processed(shifts) == all_received(shifts),
    decreases shifts.len(),
{
    if shifts.len() > 0 {
        lemma_all_is_processed(shifts.drop_last());
        assert(is_over(shifts[shifts.len() - 1]));
        law_each_received_item_is_processed_once(shifts.last());
    }
}

/// A failure of the stage's code ends the assignment with a report of it, from
/// whichever part it came.
pub proof fn law_stage_failure_is_reported<M, E>(is_input_stage: bool, failure: StageFailure<E>)
    ensures
        next_step(is_input_stage, Observation::<M, E>::Initialised(Err(failure))) == (
            Phase::Done,
            Command::<M, E>::Fail(failure),
        ),
        next_step(is_input_stage, Observation::<M, E>::Processed(Err(failure))) == (
            Phase::Done,
            Command::<M, E>::Fail(failure),
        ),
        next_step(is_input_stage, Observation::<M, E>::CleanedUp(Err(failure))) == (
            Phase::Done,
            Command::<M, E>::Fail(failure),
        ),
{
}

/// A worker that ends its assignment without a failure has cleaned its stage up,
/// unless the pipeline aborted.
pub proof fn law_parked_worker_has_cleaned_up<M, E>(is_input_stage: bool, seen: Observation<M, E>)
    ensures
        next_step(is_input_stage, seen).1 is Park <==> {
            ||| seen matches Observation::CleanedUp(result) && result is Ok
            ||| seen matches Observation::Checked(flags) && flags.abort
        },
{
}

/// A retirement that is seen at a check without an abort ends the service there:
/// the stage is cleaned up, whatever else the flags say.
pub proof fn law_retirement_ends_the_service<M, E>(is_input_stage: bool, flags: Flags)
    requires
        flags.retire,
        !flags.abort,
    ensures
        next_step(is_input_stage, Observation::<M, E>::Checked(flags)) == (
            Phase::CleaningUp,
            Command::<M, E>::CleanUp,
        ),
{
}

/// At shutdown the stage that takes the pipeline's input is served until its input
/// is used up, and no longer; every other stage is served on, for its input ends by
/// itself.
pub proof fn law_shutdown_empties_the_input_first<M, E>(is_input_stage: bool, flags: Flags)
    requires
        !flags.retire,
        !flags.abort,
    ensures
        flags.shutdown && is_input_stage && flags.input_empty ==> next_step(
            is_input_stage,
            Observation::<M, E>::Checked(flags),
        ) == (Phase::CleaningUp, Command::<M, E>::CleanUp),
        !flags.shutdown || !is_input_stage || !flags.input_empty ==> next_step(
            is_input_stage,
            Observation::<M, E>::Checked(flags),
        ) == (Phase::Receiving, Command::<M, E>::Receive),
{
}

/// A worker serves on after whatever does not end its service: it announces itself
/// once its stage is ready, checks before each wait, processes what came, and looks
/// again when nothing came. An input that has ended ends the service.
pub proof fn law_service_goes_on_until_the_input_ends<M, E>(is_input_stage: bool, item: M)
    ensures
        next_step(is_input_stage, Observation::<M, E>::Initialised(Ok(()))) == (
            Phase::Announcing,
            Command::<M, E>::Announce,
        ),
        next_step(is_input_stage, Observation::<M, E>::Announced) == (
            Phase::Checking,
            Command::<M, E>::Check,
        ),
        next_step(is_input_stage, Observation::<M, E>::Received(Reception::Item(item))) == (
            Phase::Processing,
            Command::<M, E>::Process(item),
        ),
        next_step(is_input_stage, Observation::<M, E>::Processed(Ok(()))) == (
            Phase::Checking,
            Command::<M, E>::Check,
        ),
        next_step(
            is_input_stage,
            Observation::<M, E>::Received(Reception::Timeout { terminated: false }),
        ) == (Phase::Checking, Command::<M, E>::Check),
        next_step(
            is_input_stage,
            Observation::<M, E>::Received(Reception::Timeout { terminated: true }),
        ) == (Phase::CleaningUp, Command::<M, E>::CleanUp),
        next_step(is_input_stage, Observation::<M, E>::Received(Reception::Closed)) == (
            Phase::CleaningUp,
            Command::<M, E>::CleanUp,
        ),
        next_step(is_input_stage, Observation::<M, E>::CleanedUp(Ok(()))) == (
            Phase::Done,
            Command::<M, E>::Park,
        ),
{
}

/// In each phase but the last a worker waits for the answer to one command, and for
/// no other: the command that put it there. A phase that ends the assignment takes
/// no answer.
pub proof fn law_each_phase_awaits_its_answer<M, E>(
    is_input_stage: bool,
    seen: Observation<M, E>,
    next: Observation<M, E>,
)
    ensures
        ({
            let (phase, command) = next_step(is_input_stage, seen);
            answers(phase, next) <==> match command {
                Command::Initialise => next is Initialised,
                Command::Announce => next is Announced,
                Command::Check => next is Checked,
                Command::Receive => next is Received,
                Command::Process(_) => next is Processed,
                Command::CleanUp => next is CleanedUp,
                Command::Park => false,
                Command::Fail(_) => false,
            }
        }),
        answers(Phase::Starting, seen) <==> seen is Initialised,
{
}

/// The stage of a worker that was served to the end is cleaned up at most once, and
/// nothing is served after that.
pub proof fn law_cleanup_is_the_last_thing<M, E>(
    is_input_stage: bool,
    seen: Seq<Observation<M, E>>,
    i: int,
)
    requires
        phase_after(is_input_stage, seen) is Some,
        0 <= i < seen.len(),
        seen[i] is CleanedUp,
    ensures
        i == seen.len() - 1,
        i > 0 && commands(is_input_stage, seen)[i - 1] is CleanUp,
{
    lemma_earlier_phases(is_input_stage, seen, i);
    if i > 0 {
        assert(seen.take(i).drop_last() =~= seen.take(i - 1));
        assert(seen.take(i).last() == seen[i - 1]);
    } else {
        assert(seen.take(0) =~= Seq::empty());
    }
    if i + 1 < seen.len() {
        lemma_earlier_phases(is_input_stage, seen, i + 1);
        assert(seen.take(i + 1).last() == seen[i]);
    }
}

/// The work of one worker since it was last asked. The worker counts on it while
/// the supervisor reads it.
pub struct WorkerStats {
    process_nanos: AtomicU64,
    wait_nanos: AtomicU64,
    processed_items: AtomicU64,
}

impl WorkerStats {
    /// The counts were made at zero.
    pub closed spec fn begins_at_zero(self) -> bool {
        &&& call_ensures(AtomicU64::new, (0u64,), self.process_nanos)
        &&& call_ensures(AtomicU64::new, (0u64,), self.wait_nanos)
        &&& call_ensures(AtomicU64::new, (0u64,), self.processed_items)
    }

    /// This may be found in the counts when each is exchanged for zero.
    pub closed spec fn may_yield(self, sample: StageSample) -> bool {
        &&& call_ensures(
            AtomicU64::swap,
            (&self.process_nanos, 0u64, Ordering::Relaxed),
            sample.process_nanos,
        )
        &&& call_ensures(
            AtomicU64::swap,
            (&self.wait_nanos, 0u64, Ordering::Relaxed),
            sample.wait_nanos,
        )
        &&& call_ensures(
            AtomicU64::swap,
            (&self.processed_items, 0u64, Ordering::Relaxed),
            sample.processed_items,
        )
    }

    /// The counts were set to zero.
    pub closed spec fn has_been_reset(self) -> bool {
        &&& call_ensures(AtomicU64::store, (&self.process_nanos, 0u64, Ordering::Relaxed), ())
        &&& call_ensures(AtomicU64::store, (&self.wait_nanos, 0u64, Ordering::Relaxed), ())
        &&& call_ensures(AtomicU64::store, (&self.processed_items, 0u64, Ordering::Relaxed), ())
    }

    /// So many nanoseconds were added to the time spent waiting.
    pub closed spec fn has_waited(self, nanos: u64) -> bool {
        exists|before: u64|
            call_ensures(
                AtomicU64::fetch_add,
                (&self.wait_nanos, nanos, Ordering::Relaxed),
                before,
            )
    }

    /// So many nanoseconds were added to the time spent on items.
    pub closed spec fn has_worked(self, nanos: u64) -> bool {
        exists|before: u64|
            call_ensures(
                AtomicU64::fetch_add,
                (&self.process_nanos, nanos, Ordering::Relaxed),
                before,
            )
    }

    /// One was added to the items.
    pub closed spec fn has_counted_item(self) -> bool {
        exists|before: u64|
            call_ensures(
                AtomicU64::fetch_add,
                (&self.processed_items, 1u64, Ordering::Relaxed),
                before,
            )
    }

    pub fn new() -> (stats: Self)
        ensures
            stats.begins_at_zero(),
    {
        WorkerStats {
            process_nanos: AtomicU64::new(0),
            wait_nanos: AtomicU64::new(0),
            processed_items: AtomicU64::new(0),
        }
    }

    /// Forgets everything.
    pub fn reset(&self)
        ensures
            self.has_been_reset(),
    {
        self.process_nanos.store(0, Ordering::Relaxed);
        self.wait_nanos.store(0, Ordering::Relaxed);
        self.processed_items.store(0, Ordering::Relaxed);
    }

    /// Adds time spent waiting.
    pub fn note_wait(&self, duration: Duration)
        ensures
            self.has_waited(time::nanos_of(duration)),
    {
        self.wait_nanos.fetch_add(duration_nanos_u64(duration), Ordering::Relaxed);
    }

    /// Adds time spent on an item.
    pub fn note_process(&self, duration: Duration)
        ensures
            self.has_worked(time::nanos_of(duration)),
    {
        self.process_nanos.fetch_add(duration_nanos_u64(duration), Ordering::Relaxed);
    }

    /// Counts an item that was processed.
    pub fn note_item(&self)
        ensures
            self.has_counted_item(),
    {
        self.processed_items.fetch_add(1, Ordering::Relaxed);
    }

    /// Takes what was counted, and starts anew.
    pub fn take(&self) -> (sample: StageSample)
        ensures
            self.may_yield(sample),
    {
        StageSample {
            process_nanos: self.process_nanos.swap(0, Ordering::Relaxed),
            wait_nanos: self.wait_nanos.swap(0, Ordering::Relaxed),
            processed_items: self.processed_items.swap(0, Ordering::Relaxed),
        }
    }
}

/// What a worker does at a check: an abort ends its assignment at once; a retirement,
/// or a shutdown that finds the pipeline's own input used up, has it clean up; and
/// otherwise it waits for an item.
pub proof fn law_check_decides_on_the_flags<M, E>(
    assignment: &mut Assignment,
    flags: Flags,
    command: Command<M, E>,
)
    requires
        old(assignment).phase is Checking,
        call_ensures(
            Assignment::step::<M, E>,
            (assignment, Observation::<M, E>::Checked(flags)),
            command,
        ),
    ensures
        flags.abort ==> command is Park && final(assignment).phase is Done,
        !flags.abort && flags.retire ==> command is CleanUp && final(assignment).phase
            is CleaningUp,
        !flags.abort && flags.shutdown && flags.input_empty && old(assignment).is_input_stage
            ==> command is CleanUp && final(assignment).phase is CleaningUp,
        !flags.abort && !flags.retire && !(flags.shutdown && flags.input_empty && old(
            assignment,
        ).is_input_stage) ==> command is Receive && final(assignment).phase is Receiving,
        final(assignment).worker_id == old(assignment).worker_id,
        final(assignment).worker == old(assignment).worker,
        final(assignment).stage_index == old(assignment).stage_index,
        final(assignment).is_input_stage == old(assignment).is_input_stage,
{
}

/// What a worker does otherwise: it announces itself when its stage is ready, checks
/// before each wait, processes the item that came, cleans up where the input has
/// ended, parks when it has cleaned up, and fails with any failure of its stage.
pub proof fn law_worker_goes_by_what_it_sees<M, E>(
    assignment: &mut Assignment,
    seen: Observation<M, E>,
    command: Command<M, E>,
)
    requires
        answers(old(assignment).phase, seen),
        call_ensures(Assignment::step::<M, E>, (assignment, seen), command),
    ensures
        command is Announce <==> seen is Initialised && seen->Initialised_0 is Ok,
        command is Process <==> seen is Received && seen->Received_0 is Item,
        command is Process ==> command->Process_0 == seen->Received_0->Item_0,
        command is Check <==> {
            ||| seen is Announced
            ||| seen is Processed && seen->Processed_0 is Ok
            ||| seen is Received && seen->Received_0 is Timeout && !seen->Received_0->terminated
        },
        seen is Received && (seen->Received_0 is Closed || (seen->Received_0 is Timeout
            && seen->Received_0->terminated)) ==> command is CleanUp,
        command is CleanUp ==> seen is Received || seen is Checked,
        seen is CleanedUp && seen->CleanedUp_0 is Ok ==> command is Park,
        command is Park ==> seen is CleanedUp || seen is Checked,
        command is Fail <==> {
            ||| seen is Initialised && seen->Initialised_0 is Err
            ||| seen is Processed && seen->Processed_0 is Err
            ||| seen is CleanedUp && seen->CleanedUp_0 is Err
        },
        seen is Initialised && seen->Initialised_0 is Err ==> command->Fail_0
            == seen->Initialised_0->Err_0,
        seen is Processed && seen->Processed_0 is Err ==> command->Fail_0
            == seen->Processed_0->Err_0,
        seen is CleanedUp && seen->CleanedUp_0 is Err ==> command->Fail_0
            == seen->CleanedUp_0->Err_0,
        final(assignment).phase is Announcing <==> command is Announce,
        final(assignment).phase is Checking <==> command is Check,
        final(assignment).phase is Receiving <==> command is Receive,
        final(assignment).phase is Processing <==> command is Process,
        final(assignment).phase is CleaningUp <==> command is CleanUp,
        final(assignment).phase is Done <==> command is Park || command is Fail,
{
}

/// An assignment begins with the worker and the stage that it was made for, and its
/// reports name them: that it has started, that it is free again, or how it failed.
pub proof fn law_assignment_reports_for_its_worker<E>(
    worker_id: usize,
    worker: String,
    stage_index: usize,
    is_input_stage: bool,
    assignment: Assignment,
    failure: Option<StageFailure<E>>,
    started: WorkerEvent<E>,
    ended: WorkerEvent<E>,
)
    requires
        call_ensures(
            Assignment::new,
            (worker_id, worker, stage_index, is_input_stage),
            assignment,
        ),
        call_ensures(Assignment::started::<E>, (&assignment,), started),
        call_ensures(Assignment::report::<E>, (assignment, failure), ended),
    ensures
        assignment.phase is Starting,
        assignment.is_input_stage == is_input_stage,
        assignment.stage_index == stage_index,
        started is Started && started->Started_worker_id == worker_id,
        failure is None ==> ended is Parked && ended->Parked_worker_id == worker_id
            && ended->Parked_stage_index == stage_index,
        failure is Some ==> ended is Failed && ended->Failed_worker_id == worker_id
            && ended->Failed_stage_index == stage_index && ended->Failed_worker == worker
            && ended->Failed_failure == failure->0,
{
}

/// What a worker receives is what the link gave; whether the input has ended is told
/// where the time was over.
pub proof fn law_reception_is_what_came<M>(
    waited: Waited<M>,
    terminated: bool,
    received: Reception<M>,
)
    requires
        call_ensures(reception::<M>, (waited, terminated), received),
    ensures
        received is Item <==> waited is Item,
        waited is Item ==> received->Item_0 == waited->Item_0,
        received is Timeout <==> waited is Timeout,
        waited is Timeout ==> received->terminated == terminated,
        received is Closed <==> waited is Closed,
{
}

impl WorkerStats {
    /// The count of the time spent waiting.
    pub closed spec fn waiting(self) -> AtomicU64 {
        self.wait_nanos
    }

    /// The count of the time spent on items.
    pub closed spec fn working(self) -> AtomicU64 {
        self.process_nanos
    }

    /// The count of the items.
    pub closed spec fn items(self) -> AtomicU64 {
        self.processed_items
    }
}

/// What a worker notes goes to the count that the next sample tells it from: its waits,
/// its work and its items. A sample leaves each count at zero, as it was made.
pub proof fn law_sample_tells_what_was_noted(
    stats: WorkerStats,
    waited: Duration,
    worked: Duration,
    sample: StageSample,
)
    requires
        call_ensures(WorkerStats::note_wait, (&stats, waited), ()),
        call_ensures(WorkerStats::note_process, (&stats, worked), ()),
        call_ensures(WorkerStats::note_item, (&stats,), ()),
        call_ensures(WorkerStats::take, (&stats,), sample),
    ensures
        exists|before: u64|
            call_ensures(
                AtomicU64::fetch_add,
                (&stats.waiting(), time::nanos_of(waited), Ordering::Relaxed),
                before,
            ),
        call_ensures(
            AtomicU64::swap,
            (&stats.waiting(), 0u64, Ordering::Relaxed),
            sample.wait_nanos,
        ),
        exists|before: u64|
            call_ensures(
                AtomicU64::fetch_add,
                (&stats.working(), time::nanos_of(worked), Ordering::Relaxed),
                before,
            ),
        call_ensures(
            AtomicU64::swap,
            (&stats.working(), 0u64, Ordering::Relaxed),
            sample.process_nanos,
        ),
        exists|before: u64|
            call_ensures(
                AtomicU64::fetch_add,
                (&stats.items(), 1u64, Ordering::Relaxed),
                before,
            ),
        call_ensures(
            AtomicU64::swap,
            (&stats.items(), 0u64, Ordering::Relaxed),
            sample.processed_items,
        ),
{
}

/// The counts are made at zero, and a reset sets each of them to zero.
pub proof fn law_counts_begin_at_zero(stats: WorkerStats, used: WorkerStats)
    requires
        call_ensures(WorkerStats::new, (), stats),
        call_ensures(WorkerStats::reset, (&used,), ()),
    ensures
        call_ensures(AtomicU64::new, (0u64,), stats.waiting()),
        call_ensures(AtomicU64::new, (0u64,), stats.working()),
        call_ensures(AtomicU64::new, (0u64,), stats.items()),
        call_ensures(AtomicU64::store, (&used.waiting(), 0u64, Ordering::Relaxed), ()),
        call_ensures(AtomicU64::store, (&used.working(), 0u64, Ordering::Relaxed), ()),
        call_ensures(AtomicU64::store, (&used.items(), 0u64, Ordering::Relaxed), ()),
{
}

} // verus!

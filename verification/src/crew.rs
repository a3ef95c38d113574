//! Who works where: the workers of a pipeline, the stages they serve, and what
//! their reports change.
use crate::control;
use crate::control::{
    grow_sample_count, AnchorControl, AnchorProbe, AnchorProbeOutcome, AnchorProbeReason,
    ScaleDirection, ScaleReason, StageControl, StageScalingState,
};
use crate::error::{InternalFailure, PiperError, StageFailure};
use crate::error;
use crate::scaling;
use vstd::prelude::*;

verus! {

/// One worker thread: the stage that it serves, and the flag that asks it to
/// retire from there.
#[derive(Clone, Copy, Debug)]
pub struct WorkerSlot {
    pub active_stage: Option<usize>,
    pub retire: Option<bool>,
}

/// A resizing that was begun and not yet confirmed by its worker.
#[derive(Clone, Copy, Debug)]
pub struct PendingScale {
    pub worker_id: usize,
    pub stage_index: usize,
    pub direction: ScaleDirection,
    pub reason: ScaleReason,
}

/// What a worker reports.
#[derive(Debug)]
pub enum WorkerEvent<E> {
    Started { worker_id: usize },
    Parked { worker_id: usize, stage_index: usize },
    Failed { worker_id: usize, stage_index: usize, worker: String, failure: StageFailure<E> },
    Stopped,
}

/// What made a pipeline fail.
#[derive(Debug)]
pub enum Cause<E> {
    Stage { worker: String, failure: StageFailure<E> },
    Machinery(InternalFailure),
}

/// The error that names a cause.
pub open spec fn is_error_of<E>(error: PiperError<E>, cause: Cause<E>) -> bool {
    match cause {
        Cause::Stage { worker, failure } => error == error::stage_error(worker, failure),
        Cause::Machinery(InternalFailure::Internal { message }) => {
            &&& error is Internal
            &&& error->Internal_worker@ == "piper-supervisor"@
            &&& error->Internal_message == message
        },
        Cause::Machinery(InternalFailure::Telemetry { message }) => error == (PiperError::<
            E,
        >::Telemetry { message }),
    }
}

impl<E> Cause<E> {
    pub fn into_error(self) -> (error: PiperError<E>)
        ensures
            is_error_of(error, self),
    {
        match self {
            Cause::Stage { worker, failure } => failure.into_error(worker),
            Cause::Machinery(failure) => failure.into_error(),
        }
    }
}

/// The workers of a pipeline and what the controller knows of them.
#[derive(Debug)]
pub struct Crew<E> {
    pub workers: Vec<WorkerSlot>,
    pub active_by_stage: Vec<Vec<usize>>,
    pub parked: Vec<usize>,
    pub controls: Vec<StageControl>,
    pub pending_scale: Option<PendingScale>,
    pub stored_failure: Option<Cause<E>>,
}

/// A crew as a value: who works where.
#[verifier::ext_equal]
pub struct Roster<E> {
    pub workers: Seq<WorkerSlot>,
    pub active: Seq<Seq<usize>>,
    pub parked: Seq<usize>,
    pub controls: Seq<StageControl>,
    pub pending: Option<PendingScale>,
    pub failure: Option<Cause<E>>,
}

/// The contents of each list.
pub open spec fn lists(active_by_stage: Seq<Vec<usize>>) -> Seq<Seq<usize>> {
    Seq::new(active_by_stage.len(), |i: int| active_by_stage[i]@)
}

impl<E> View for Crew<E> {
    type V = Roster<E>;

    open spec fn view(&self) -> Roster<E> {
        Roster {
            workers: self.workers@,
            active: lists(self.active_by_stage@),
            parked: self.parked@,
            controls: self.controls@,
            pending: self.pending_scale,
            failure: self.stored_failure,
        }
    }
}

/// A list without the first occurrence of a worker; the last one takes its place.
pub open spec fn without(list: Seq<usize>, worker_id: usize) -> Seq<usize> {
    match list.index_of_first(worker_id) {
        Some(position) => list.update(position, list.last()).drop_last(),
        None => list,
    }
}

/// The stage rests after it was resized.
pub open spec fn resting(control: StageControl) -> StageControl {
    StageControl {
        settling: true,
        settle_samples: 0,
        settle_observed_work: false,
        scaling_state: StageScalingState::Settling,
        ..control
    }
}

/// The memory of a stage after it got a worker.
pub open spec fn grown(control: StageControl, worker_id: usize, reason: ScaleReason) -> StageControl {
    let noted = StageControl { last_operation: Some(ScaleDirection::Add), ..control };
    if reason == ScaleReason::AnchorProbe {
        StageControl {
            anchor: match noted.anchor {
                Some(anchor) => Some(
                    AnchorControl {
                        probe: Some(AnchorProbe { worker_id, samples: 0, observed_work: false }),
                        ..anchor
                    },
                ),
                None => None,
            },
            scaling_state: StageScalingState::Probing,
            ..noted
        }
    } else {
        resting(noted)
    }
}

/// The memory of an anchor after it took a probe back or gave up a worker.
pub open spec fn reverted(anchor: AnchorControl, reason: ScaleReason) -> AnchorControl {
    AnchorControl {
        probe: None,
        last_probe_outcome: AnchorProbeOutcome::Reverted,
        last_probe_reason: if reason == ScaleReason::BudgetPressure {
            AnchorProbeReason::BudgetPressure
        } else if reason == ScaleReason::Idle {
            AnchorProbeReason::Idle
        } else {
            anchor.last_probe_reason
        },
        cooldown_samples: control::longer_cooldown(anchor.cooldown_samples),
        ..anchor
    }
}

/// The memory of a stage after it lost a worker.
pub open spec fn shrunk(control: StageControl, reason: ScaleReason) -> StageControl {
    let noted = StageControl { last_operation: Some(ScaleDirection::Remove), ..control };
    match noted.anchor {
        Some(anchor) => if reason == ScaleReason::AnchorRevert || reason
            == ScaleReason::BudgetPressure || reason == ScaleReason::Idle {
            StageControl {
                anchor: Some(reverted(anchor, reason)),
                scaling_state: StageScalingState::BackingOff,
                ..noted
            }
        } else {
            resting(noted)
        },
        None => resting(noted),
    }
}

/// The event confirms the pending resizing.
pub open spec fn confirms(
    pending: Option<PendingScale>,
    worker_id: usize,
    direction: ScaleDirection,
) -> bool {
    pending matches Some(scale) && scale.worker_id == worker_id && scale.direction == direction
}

/// A worker has left its stage.
pub open spec fn withdrawn<E>(crew: Roster<E>, worker_id: usize, stage_index: usize) -> Roster<E> {
    Roster {
        workers: crew.workers.update(
            worker_id as int,
            WorkerSlot { active_stage: None, retire: None },
        ),
        active: crew.active.update(
            stage_index as int,
            without(crew.active[stage_index as int], worker_id),
        ),
        ..crew
    }
}

/// The crew after an event.
pub open spec fn after_event<E>(crew: Roster<E>, event: WorkerEvent<E>) -> Roster<E> {
    match event {
        WorkerEvent::Started { worker_id } => if confirms(
            crew.pending,
            worker_id,
            ScaleDirection::Add,
        ) {
            let stage = crew.pending->0.stage_index as int;
            Roster {
                controls: crew.controls.update(
                    stage,
                    grown(crew.controls[stage], worker_id, crew.pending->0.reason),
                ),
                pending: None,
                ..crew
            }
        } else {
            crew
        },
        WorkerEvent::Parked { worker_id, stage_index } => {
            let left = withdrawn(crew, worker_id, stage_index);
            let parked = Roster { parked: left.parked.push(worker_id), ..left };
            if confirms(crew.pending, worker_id, ScaleDirection::Remove) {
                let stage = crew.pending->0.stage_index as int;
                Roster {
                    controls: parked.controls.update(
                        stage,
                        shrunk(parked.controls[stage], crew.pending->0.reason),
                    ),
                    pending: None,
                    ..parked
                }
            } else {
                parked
            }
        },
        WorkerEvent::Failed { worker_id, stage_index, worker, failure } => {
            let left = withdrawn(crew, worker_id, stage_index);
            Roster {
                parked: if left.parked.contains(worker_id) {
                    left.parked
                } else {
                    left.parked.push(worker_id)
                },
                pending: if crew.pending matches Some(scale) && scale.worker_id == worker_id {
                    None
                } else {
                    crew.pending
                },
                failure: Some(Cause::Stage { worker, failure }),
                ..left
            }
        },
        WorkerEvent::Stopped => crew,
    }
}

/// The crew after a list of events, in order.
pub open spec fn after_events<E>(crew: Roster<E>, events: Seq<WorkerEvent<E>>) -> Roster<E>
    decreases events.len(),
{
    if events.len() == 0 {
        crew
    } else {
        after_event(after_events(crew, events.drop_last()), events.last())
    }
}

/// The crew after the machinery's failures; the last one is kept.
pub open spec fn after_failures<E>(crew: Roster<E>, failures: Seq<InternalFailure>) -> Roster<E> {
    if failures.len() == 0 {
        crew
    } else {
        Roster { failure: Some(Cause::Machinery(failures.last())), ..crew }
    }
}

/// The worker and the stage that an event names exist.
pub open spec fn event_fits<E>(event: WorkerEvent<E>, workers: int, stages: int) -> bool {
    match event {
        WorkerEvent::Started { .. } => true,
        WorkerEvent::Parked { worker_id, stage_index } => worker_id < workers && stage_index
            < stages,
        WorkerEvent::Failed { worker_id, stage_index, .. } => worker_id < workers && stage_index
            < stages,
        WorkerEvent::Stopped => true,
    }
}

/// The lists belong together, and every worker and stage that is named exists.
pub open spec fn is_sound<E>(crew: Roster<E>) -> bool {
    &&& crew.active.len() == crew.controls.len()
    &&& forall|i: int|
        0 <= i < crew.parked.len() ==> (#[trigger] crew.parked[i]) < crew.workers.len()
    &&& forall|s: int, i: int|
        0 <= s < crew.active.len() && 0 <= i < crew.active[s].len() ==> (
        #[trigger] crew.active[s][i]) < crew.workers.len()
    &&& crew.pending matches Some(scale) ==> scale.worker_id < crew.workers.len()
        && scale.stage_index < crew.controls.len()
    &&& forall|s: int|
        0 <= s < crew.controls.len() ==> probe_exists(#[trigger] crew.controls[s], crew.workers.len())
}

/// The worker that a stage tries out exists.
pub open spec fn probe_exists(control: StageControl, workers: nat) -> bool {
    control.anchor matches Some(anchor) ==> (anchor.probe matches Some(probe) ==> probe.worker_id
        < workers)
}

/// Takes a worker off a stage's list.
pub fn remove_worker_from_stage(
    active_by_stage: &mut Vec<Vec<usize>>,
    stage_index: usize,
    worker_id: usize,
)
    requires
        stage_index < old(active_by_stage)@.len(),
    ensures
        lists(final(active_by_stage)@) == lists(old(active_by_stage)@).update(
            stage_index as int,
            without(old(active_by_stage)@[stage_index as int]@, worker_id),
        ),
{
    let ghost before = active_by_stage@;
    let ghost list = active_by_stage@[stage_index as int]@;
    proof {
        list.index_of_first_ensures(worker_id);
    }
    let mut position: usize = 0;
    while position < active_by_stage[stage_index].len()
        invariant
            stage_index < active_by_stage@.len(),
            active_by_stage@ == before,
            before == old(active_by_stage)@,
            list == before[stage_index as int]@,
            position <= list.len(),
            forall|i: int| 0 <= i < position ==> list[i] != worker_id,
            match list.index_of_first(worker_id) {
                Some(index) => 0 <= index < list.len() && list[index] == worker_id && forall|j: int|
                    0 <= j < index < list.len() ==> list[j] != worker_id,
                None => !list.contains(worker_id),
            },
        decreases list.len() - position,
    {
        if active_by_stage[stage_index][position] == worker_id {
            assert(list.index_of_first(worker_id) == Some(position as int));
            active_by_stage[stage_index].swap_remove(position);
            assert(lists(active_by_stage@) =~= lists(before).update(
                stage_index as int,
                without(list, worker_id),
            ));
            return ;
        }
        position += 1;
    }
    assert(lists(active_by_stage@) =~= lists(before).update(
        stage_index as int,
        without(list, worker_id),
    ));
}

/// Whether a list holds a worker.
fn holds(list: &Vec<usize>, worker_id: usize) -> (yes: bool)
    ensures
        yes == list@.contains(worker_id),
{
    let mut index: usize = 0;
    while index < list.len()
        invariant
            index <= list@.len(),
            forall|i: int| 0 <= i < index ==> list@[i] != worker_id,
        decreases list@.len() - index,
    {
        if list[index] == worker_id {
            return true;
        }
        index += 1;
    }
    false
}

/// Notes the direction in which a stage was last resized.
pub fn record_stage_operation(
    controls: &mut Vec<StageControl>,
    stage_index: usize,
    direction: ScaleDirection,
)
    requires
        stage_index < old(controls)@.len(),
    ensures
        final(controls)@ == old(controls)@.update(
            stage_index as int,
            StageControl {
                last_operation: Some(direction),
                ..old(controls)@[stage_index as int]
            },
        ),
{
    controls[stage_index].last_operation = Some(direction);
}

fn rest(control: &mut StageControl)
    ensures
        *final(control) == resting(*old(control)),
{
    control.settling = true;
    control.settle_samples = 0;
    control.settle_observed_work = false;
    control.scaling_state = StageScalingState::Settling;
}

impl<E> Crew<E> {
    /// Lets a stage's memory follow a worker that started there.
    fn confirm_growth(&mut self, worker_id: usize)
        requires
            is_sound(old(self)@),
            confirms(old(self).pending_scale, worker_id, ScaleDirection::Add),
        ensures
            final(self)@ == after_event(old(self)@, WorkerEvent::<E>::Started { worker_id }),
    {
        if let Some(pending) = self.pending_scale {
            self.pending_scale = None;
            let stage: usize = pending.stage_index;
            record_stage_operation(&mut self.controls, stage, ScaleDirection::Add);
            if pending.reason == ScaleReason::AnchorProbe {
                if let Some(anchor) = self.controls[stage].anchor.as_mut() {
                    anchor.probe = Some(AnchorProbe { worker_id, samples: 0, observed_work: false });
                }
                self.controls[stage].scaling_state = StageScalingState::Probing;
            } else {
                rest(&mut self.controls[stage]);
            }
        }
    }

    /// Lets a stage's memory follow a worker that retired from there.
    fn confirm_shrinking(&mut self, pending: PendingScale)
        requires
            pending.stage_index < old(self).controls@.len(),
        ensures
            final(self)@ == (Roster {
                controls: old(self)@.controls.update(
                    pending.stage_index as int,
                    shrunk(old(self)@.controls[pending.stage_index as int], pending.reason),
                ),
                pending: None,
                ..old(self)@
            }),
    {
        let stage: usize = pending.stage_index;
        self.pending_scale = None;
        record_stage_operation(&mut self.controls, stage, ScaleDirection::Remove);
        let reverts: bool = pending.reason == ScaleReason::AnchorRevert || pending.reason
            == ScaleReason::BudgetPressure || pending.reason == ScaleReason::Idle;
        match self.controls[stage].anchor {
            Some(mut anchor) if reverts => {
                anchor.probe = None;
                anchor.last_probe_outcome = AnchorProbeOutcome::Reverted;
                if pending.reason == ScaleReason::BudgetPressure {
                    anchor.last_probe_reason = AnchorProbeReason::BudgetPressure;
                } else if pending.reason == ScaleReason::Idle {
                    anchor.last_probe_reason = AnchorProbeReason::Idle;
                }
                anchor.cooldown_samples = grow_sample_count(anchor.cooldown_samples);
                self.controls[stage].anchor = Some(anchor);
                self.controls[stage].scaling_state = StageScalingState::BackingOff;
            },
            _ => rest(&mut self.controls[stage]),
        }
    }

    /// Takes one event in. The answer says whether the pipeline has to abort.
    pub fn handle_worker_event(&mut self, event: WorkerEvent<E>) -> (abort: bool)
        requires
            is_sound(old(self)@),
            event_fits(
                event,
                old(self)@.workers.len() as int,
                old(self)@.active.len() as int,
            ),
        ensures
            final(self)@ == after_event(old(self)@, event),
            abort == (event is Failed),
    {
        match event {
            WorkerEvent::Started { worker_id } => {
                if let Some(pending) = self.pending_scale {
                    if pending.worker_id == worker_id && pending.direction == ScaleDirection::Add {
                        self.confirm_growth(worker_id);
                    }
                }
                false
            },
            WorkerEvent::Parked { worker_id, stage_index } => {
                remove_worker_from_stage(&mut self.active_by_stage, stage_index, worker_id);
                self.workers[worker_id] = WorkerSlot { active_stage: None, retire: None };
                self.parked.push(worker_id);
                if let Some(pending) = self.pending_scale {
                    if pending.worker_id == worker_id && pending.direction
                        == ScaleDirection::Remove {
                        self.confirm_shrinking(pending);
                    }
                }
                false
            },
            WorkerEvent::Failed { worker_id, stage_index, worker, failure } => {
                remove_worker_from_stage(&mut self.active_by_stage, stage_index, worker_id);
                self.workers[worker_id] = WorkerSlot { active_stage: None, retire: None };
                if !holds(&self.parked, worker_id) {
                    self.parked.push(worker_id);
                }
                if let Some(pending) = self.pending_scale {
                    if pending.worker_id == worker_id {
                        self.pending_scale = None;
                    }
                }
                self.stored_failure = Some(Cause::Stage { worker, failure });
                true
            },
            WorkerEvent::Stopped => false,
        }
    }
}

/// Some worker reports a failure.
pub open spec fn any_failed<E>(events: Seq<WorkerEvent<E>>) -> bool {
    exists|i: int| 0 <= i < events.len() && (#[trigger] events[i]) is Failed
}

/// Every event names an existing worker and stage.
pub open spec fn events_fit<E>(events: Seq<WorkerEvent<E>>, workers: int, stages: int) -> bool {
    forall|i: int| 0 <= i < events.len() ==> event_fits(#[trigger] events[i], workers, stages)
}

/// A worker serves a stage.
pub open spec fn assigned<E>(crew: Roster<E>, worker_id: usize, stage_index: usize) -> Roster<E> {
    Roster {
        workers: crew.workers.update(
            worker_id as int,
            WorkerSlot { active_stage: Some(stage_index), retire: Some(false) },
        ),
        active: crew.active.update(
            stage_index as int,
            crew.active[stage_index as int].push(worker_id),
        ),
        ..crew
    }
}

/// A worker thread more, which has no place yet.
pub open spec fn hired<E>(crew: Roster<E>) -> Roster<E> {
    Roster {
        workers: crew.workers.push(WorkerSlot { active_stage: None, retire: None }),
        ..crew
    }
}

/// A worker is asked to retire.
pub open spec fn asked_to_retire<E>(crew: Roster<E>, worker_id: usize) -> Roster<E> {
    Roster {
        workers: crew.workers.update(
            worker_id as int,
            WorkerSlot { retire: Some(true), ..crew.workers[worker_id as int] },
        ),
        ..crew
    }
}

impl<E> Crew<E> {
    /// A crew without workers.
    pub fn new(stage_count: usize, controls: Vec<StageControl>) -> (crew: Self)
        ensures
            crew@ == (Roster::<E> {
                workers: Seq::empty(),
                active: Seq::new(stage_count as nat, |i: int| Seq::<usize>::empty()),
                parked: Seq::empty(),
                controls: controls@,
                pending: None,
                failure: None,
            }),
    {
        let mut active_by_stage: Vec<Vec<usize>> = Vec::new();
        let mut index: usize = 0;
        while index < stage_count
            invariant
                index <= stage_count,
                active_by_stage@.len() == index,
                forall|i: int| 0 <= i < index ==> (#[trigger] active_by_stage@[i])@.len() == 0,
            decreases stage_count - index,
        {
            active_by_stage.push(Vec::new());
            index += 1;
        }
        let crew = Crew {
            workers: Vec::new(),
            active_by_stage,
            parked: Vec::new(),
            controls,
            pending_scale: None,
            stored_failure: None,
        };
        proof {
            assert forall|i: int| 0 <= i < stage_count implies #[trigger] lists(
                crew.active_by_stage@,
            )[i] =~= Seq::<usize>::empty() by {}
            assert(crew@.active =~= Seq::new(
                stage_count as nat,
                |i: int| Seq::<usize>::empty(),
            ));
        }
        crew
    }

    /// Takes a list of events in. The answer says whether the pipeline has to
    /// abort.
    pub fn drain_worker_events(&mut self, events: Vec<WorkerEvent<E>>) -> (abort: bool)
        requires
            is_sound(old(self)@),
            events_fit(events@, old(self)@.workers.len() as int, old(self)@.active.len() as int),
        ensures
            final(self)@ == after_events(old(self)@, events@),
            abort == any_failed(events@),
            is_sound(final(self)@),
            final(self)@.workers.len() == old(self)@.workers.len(),
            final(self)@.active.len() == old(self)@.active.len(),
            at_work(final(self)@) <= at_work(old(self)@),
    {
        let mut abort: bool = false;
        let ghost all = events@;
        let ghost before = self@;
        for event in it: events
            invariant
                it.seq() == all,
                before == old(self)@,
                events_fit(all, before.workers.len() as int, before.active.len() as int),
                is_sound(self@),
                self@ == after_events(before, all.take(it.index() as int)),
                self@.workers.len() == before.workers.len(),
                self@.active.len() == before.active.len(),
                at_work(self@) <= at_work(before),
                abort == any_failed(all.take(it.index() as int)),
        {
            let ghost n = it.index() as int;
            let ghost earlier = all.take(n);
            let ghost later = all.take(n + 1);
            proof {
                assert(later.drop_last() =~= earlier);
                assert(later.last() == event);
                assert(event_fits(
                    all[n],
                    before.workers.len() as int,
                    before.active.len() as int,
                ));
                law_events_keep_a_crew_sound(self@, event);
                if any_failed(earlier) {
                    let i = choose|i: int| 0 <= i < earlier.len() && (#[trigger] earlier[i]) is Failed;
                    assert(later[i] is Failed);
                }
                if event is Failed {
                    assert(later[n] is Failed);
                }
                if any_failed(later) && !(event is Failed) {
                    let i = choose|i: int| 0 <= i < later.len() && (#[trigger] later[i]) is Failed;
                    assert(earlier[i] is Failed);
                }
            }
            if self.handle_worker_event(event) {
                abort = true;
            }
        }
        assert(all.take(all.len() as int) =~= all);
        abort
    }

    /// Takes the machinery's failures in. The answer says whether the pipeline
    /// has to abort.
    pub fn drain_internal_failures(&mut self, failures: Vec<InternalFailure>) -> (abort: bool)
        ensures
            final(self)@ == after_failures(old(self)@, failures@),
            abort == (failures@.len() > 0),
    {
        let mut failures = failures;
        match failures.pop() {
            Some(failure) => {
                self.stored_failure = Some(Cause::Machinery(failure));
                true
            },
            None => false,
        }
    }

    /// Counts a new worker thread in and returns its number.
    pub fn spawn_worker(&mut self) -> (worker_id: usize)
        ensures
            worker_id == old(self)@.workers.len(),
            final(self)@ == hired(old(self)@),
    {
        let worker_id: usize = self.workers.len();
        self.workers.push(WorkerSlot { active_stage: None, retire: None });
        worker_id
    }

    /// Puts a worker to work on a stage.
    pub fn assign_worker(&mut self, worker_id: usize, stage_index: usize)
        requires
            worker_id < old(self)@.workers.len(),
            stage_index < old(self)@.active.len(),
        ensures
            final(self)@ == assigned(old(self)@, worker_id, stage_index),
    {
        self.workers[worker_id] =
        WorkerSlot { active_stage: Some(stage_index), retire: Some(false) };
        self.active_by_stage[stage_index].push(worker_id);
        assert(self@.active =~= assigned(old(self)@, worker_id, stage_index).active);
    }

    /// Asks a worker to retire, if it serves a stage. The answer says whether it
    /// was asked.
    pub fn retire_worker(&mut self, worker_id: usize) -> (asked: bool)
        requires
            worker_id < old(self)@.workers.len(),
        ensures
            asked == (old(self)@.workers[worker_id as int].retire is Some),
            final(self)@ == (if asked {
                asked_to_retire(old(self)@, worker_id)
            } else {
                old(self)@
            }),
    {
        if self.workers[worker_id].retire.is_some() {
            self.workers[worker_id].retire = Some(true);
            true
        } else {
            false
        }
    }
}

/// How many workers each stage has.
pub open spec fn heads(active: Seq<Seq<usize>>) -> Seq<nat> {
    Seq::new(active.len(), |i: int| active[i].len())
}

/// How many workers are at work.
pub open spec fn at_work<E>(crew: Roster<E>) -> nat {
    scaling::total_workers(heads(crew.active))
}

proof fn lemma_without(list: Seq<usize>, worker_id: usize)
    ensures
        forall|i: int|
            0 <= i < without(list, worker_id).len() ==> list.contains(
                #[trigger] without(list, worker_id)[i],
            ),
        list.contains(worker_id) ==> without(list, worker_id).len() == list.len() - 1,
        !list.contains(worker_id) ==> without(list, worker_id) == list,
        list.no_duplicates() ==> {
            &&& without(list, worker_id).no_duplicates()
            &&& forall|x: usize|
                without(list, worker_id).contains(x) <==> (list.contains(x) && x != worker_id)
        },
{
    list.index_of_first_ensures(worker_id);
    let rest = without(list, worker_id);
    if let Some(p) = list.index_of_first(worker_id) {
        assert forall|i: int| 0 <= i < rest.len() implies list.contains(#[trigger] rest[i]) by {
            if i == p {
                assert(rest[i] == list[list.len() - 1]);
            } else {
                assert(rest[i] == list[i]);
            }
        }
        if list.no_duplicates() {
            assert forall|x: usize| rest.contains(x) <==> (list.contains(x) && x != worker_id) by {
                if rest.contains(x) {
                    let i = choose|i: int| 0 <= i < rest.len() && rest[i] == x;
                    assert(list.contains(rest[i]));
                    if i == p {
                        assert(x == list[list.len() - 1]);
                    } else {
                        assert(x == list[i]);
                    }
                }
                if list.contains(x) && x != worker_id {
                    let i = choose|i: int| 0 <= i < list.len() && list[i] == x;
                    if i == list.len() - 1 {
                        assert(rest[p] == x);
                    } else {
                        assert(rest[i] == x);
                    }
                }
            }
        }
    }
}

/// The event moves the worker.
pub open spec fn moves<E>(event: WorkerEvent<E>, worker: usize) -> bool {
    match event {
        WorkerEvent::Parked { worker_id, .. } => worker_id == worker,
        WorkerEvent::Failed { worker_id, .. } => worker_id == worker,
        _ => false,
    }
}

/// The worker has the same slot, the same stages and the same place among the
/// parked in both crews.
pub open spec fn is_unmoved<E>(before: Roster<E>, after: Roster<E>, worker: usize) -> bool {
    &&& after.workers.len() == before.workers.len()
    &&& after.workers[worker as int] == before.workers[worker as int]
    &&& after.active.len() == before.active.len()
    &&& forall|s: int|
        0 <= s < after.active.len() ==> (#[trigger] after.active[s]).contains(worker)
            == before.active[s].contains(worker)
    &&& after.parked.contains(worker) == before.parked.contains(worker)
}

proof fn lemma_without_keeps_others(list: Seq<usize>, worker_id: usize, other: usize)
    requires
        other != worker_id,
    ensures
        without(list, worker_id).contains(other) == list.contains(other),
{
    list.index_of_first_ensures(worker_id);
    let rest = without(list, worker_id);
    if let Some(p) = list.index_of_first(worker_id) {
        if list.contains(other) {
            let i = choose|i: int| 0 <= i < list.len() && list[i] == other;
            if i == list.len() - 1 {
                assert(rest[p] == other);
            } else {
                assert(rest[i] == other);
            }
        }
        if rest.contains(other) {
            let i = choose|i: int| 0 <= i < rest.len() && rest[i] == other;
            if i == p {
                assert(list[list.len() - 1] == other);
            } else {
                assert(list[i] == other);
            }
        }
    }
}

proof fn lemma_event_moves_one<E>(crew: Roster<E>, event: WorkerEvent<E>, worker: usize)
    requires
        event_fits(event, crew.workers.len() as int, crew.active.len() as int),
        worker < crew.workers.len(),
        !moves(event, worker),
    ensures
        is_unmoved(crew, after_event(crew, event), worker),
{
    match event {
        WorkerEvent::Parked { worker_id, stage_index } => {
            lemma_without_keeps_others(crew.active[stage_index as int], worker_id, worker);
            lemma_push_keeps_others(crew.parked, worker_id, worker);
        },
        WorkerEvent::Failed { worker_id, stage_index, .. } => {
            lemma_without_keeps_others(crew.active[stage_index as int], worker_id, worker);
            lemma_push_keeps_others(crew.parked, worker_id, worker);
        },
        _ => {},
    }
}

proof fn lemma_push_keeps_others(list: Seq<usize>, worker_id: usize, other: usize)
    requires
        other != worker_id,
    ensures
        list.push(worker_id).contains(other) == list.contains(other),
{
    let more = list.push(worker_id);
    if list.contains(other) {
        let i = choose|i: int| 0 <= i < list.len() && list[i] == other;
        assert(more[i] == other);
    }
    if more.contains(other) {
        let i = choose|i: int| 0 <= i < more.len() && more[i] == other;
        assert(list[i] == other);
    }
}

/// Events move the workers that they name, and no other.
pub proof fn law_events_move_only_whom_they_name<E>(
    crew: Roster<E>,
    events: Seq<WorkerEvent<E>>,
    worker: usize,
)
    requires
        events_fit(events, crew.workers.len() as int, crew.active.len() as int),
        worker < crew.workers.len(),
        forall|i: int| 0 <= i < events.len() ==> !moves(#[trigger] events[i], worker),
    ensures
        is_unmoved(crew, after_events(crew, events), worker),
    decreases events.len(),
{
    if events.len() > 0 {
        let earlier = events.drop_last();
        assert forall|i: int| 0 <= i < earlier.len() implies event_fits(
            #[trigger] earlier[i],
            crew.workers.len() as int,
            crew.active.len() as int,
        ) && !moves(earlier[i], worker) by {
            assert(events[i] == earlier[i]);
        }
        law_events_move_only_whom_they_name(crew, earlier, worker);
        let between = after_events(crew, earlier);
        assert(events[events.len() - 1] == events.last());
        lemma_event_moves_one(between, events.last(), worker);
        let after = after_events(crew, events);
        assert forall|s: int| 0 <= s < after.active.len() implies (
        #[trigger] after.active[s]).contains(worker) == crew.active[s].contains(worker) by {
            assert(between.active[s].contains(worker) == crew.active[s].contains(worker));
        }
    }
}

proof fn lemma_total_of_update(counts: Seq<nat>, index: int, count: nat)
    requires
        0 <= index < counts.len(),
    ensures
        scaling::total_workers(counts.update(index, count)) == scaling::total_workers(counts)
            - counts[index] + count,
    decreases counts.len(),
{
    let changed = counts.update(index, count);
    if index == counts.len() - 1 {
        assert(changed.drop_last() =~= counts.drop_last());
    } else {
        assert(changed.drop_last() =~= counts.drop_last().update(index, count));
        lemma_total_of_update(counts.drop_last(), index, count);
    }
}

/// A crew stays sound through any event that names an existing worker and stage,
/// and through the machinery's failures.
pub proof fn law_events_keep_a_crew_sound<E>(crew: Roster<E>, event: WorkerEvent<E>)
    requires
        is_sound(crew),
        event_fits(event, crew.workers.len() as int, crew.active.len() as int),
    ensures
        is_sound(after_event(crew, event)),
        after_event(crew, event).workers.len() == crew.workers.len(),
        after_event(crew, event).active.len() == crew.active.len(),
        at_work(after_event(crew, event)) <= at_work(crew),
{
    let next = after_event(crew, event);
    match event {
        WorkerEvent::Parked { worker_id, stage_index } => {
            lemma_withdrawal(crew, worker_id, stage_index);
        },
        WorkerEvent::Failed { worker_id, stage_index, .. } => {
            lemma_withdrawal(crew, worker_id, stage_index);
        },
        _ => {},
    }
    assert forall|s: int| 0 <= s < next.controls.len() implies probe_exists(
        #[trigger] next.controls[s],
        next.workers.len(),
    ) by {
        assert(probe_exists(crew.controls[s], crew.workers.len()));
    }
}

proof fn lemma_withdrawal<E>(crew: Roster<E>, worker_id: usize, stage_index: usize)
    requires
        is_sound(crew),
        worker_id < crew.workers.len(),
        stage_index < crew.active.len(),
    ensures
        is_sound(withdrawn(crew, worker_id, stage_index)),
        at_work(withdrawn(crew, worker_id, stage_index)) == at_work(crew) - (if crew.active[
            stage_index as int
        ].contains(worker_id) {
            1int
        } else {
            0
        }),
{
    let left = withdrawn(crew, worker_id, stage_index);
    let list = crew.active[stage_index as int];
    lemma_without(list, worker_id);
    assert forall|s: int, i: int|
        0 <= s < left.active.len() && 0 <= i < left.active[s].len() implies (
    #[trigger] left.active[s][i]) < left.workers.len() by {
        if s == stage_index {
            assert(list.contains(left.active[s][i]));
            let j = choose|j: int| 0 <= j < list.len() && list[j] == left.active[s][i];
            assert(crew.active[s][j] < crew.workers.len());
        } else {
            assert(crew.active[s][i] < crew.workers.len());
        }
    }
    lemma_total_of_update(
        heads(crew.active),
        stage_index as int,
        left.active[stage_index as int].len(),
    );
    assert(heads(left.active) =~= heads(crew.active).update(
        stage_index as int,
        left.active[stage_index as int].len(),
    ));
}

/// The event comes from a worker that does serve the stage it names.
pub open spec fn is_honest<E>(crew: Roster<E>, event: WorkerEvent<E>) -> bool {
    match event {
        WorkerEvent::Parked { worker_id, stage_index } => {
            &&& worker_id < crew.workers.len()
            &&& crew.workers[worker_id as int].active_stage == Some(stage_index)
        },
        WorkerEvent::Failed { worker_id, stage_index, .. } => {
            &&& worker_id < crew.workers.len()
            &&& crew.workers[worker_id as int].active_stage == Some(stage_index)
        },
        _ => true,
    }
}

/// Every worker is in exactly one place: at work on one stage, or parked.
pub open spec fn everyone_is_placed<E>(crew: Roster<E>) -> bool {
    &&& at_work(crew) + crew.parked.len() == crew.workers.len()
    &&& crew.parked.no_duplicates()
    &&& forall|s: int| 0 <= s < crew.active.len() ==> (#[trigger] crew.active[s]).no_duplicates()
    &&& forall|w: usize|
        w < crew.workers.len() ==> (#[trigger] crew.workers[w as int].active_stage is None
            <==> crew.parked.contains(w))
    &&& forall|w: usize|
        w < crew.workers.len() && (#[trigger] crew.workers[w as int].active_stage) is Some ==> {
            &&& crew.workers[w as int].active_stage->0 < crew.active.len()
            &&& crew.workers[w as int].retire is Some
        }
    &&& forall|w: usize, s: int|
        w < crew.workers.len() && 0 <= s < crew.active.len() ==> (
        #[trigger] crew.active[s].contains(w) <==> crew.workers[w as int].active_stage == Some(
            s as usize,
        ))
}

/// No worker is lost or counted twice: an event of a worker that serves the
/// stage it names leaves every worker in exactly one place.
pub proof fn law_honest_events_keep_everyone_placed<E>(crew: Roster<E>, event: WorkerEvent<E>)
    requires
        is_sound(crew),
        everyone_is_placed(crew),
        is_honest(crew, event),
        crew.active.len() <= usize::MAX,
    ensures
        everyone_is_placed(after_event(crew, event)),
{
    let next = after_event(crew, event);
    match event {
        WorkerEvent::Parked { worker_id, stage_index } => {
            lemma_parking(crew, next, worker_id, stage_index);
        },
        WorkerEvent::Failed { worker_id, stage_index, .. } => {
            assert(crew.workers[worker_id as int].active_stage is Some);
            assert(!crew.parked.contains(worker_id));
            lemma_parking(crew, next, worker_id, stage_index);
        },
        _ => {},
    }
}

proof fn lemma_parking<E>(
    crew: Roster<E>,
    next: Roster<E>,
    worker_id: usize,
    stage_index: usize,
)
    requires
        is_sound(crew),
        everyone_is_placed(crew),
        crew.active.len() <= usize::MAX,
        worker_id < crew.workers.len(),
        crew.workers[worker_id as int].active_stage == Some(stage_index),
        next.workers == withdrawn(crew, worker_id, stage_index).workers,
        next.active == withdrawn(crew, worker_id, stage_index).active,
        next.parked == crew.parked.push(worker_id),
    ensures
        everyone_is_placed(next),
{
    let list = crew.active[stage_index as int];
    assert(crew.workers[worker_id as int].active_stage is Some);
    assert(stage_index < crew.active.len());
    assert(list.contains(worker_id));
    lemma_withdrawal(crew, worker_id, stage_index);
    lemma_without(list, worker_id);
    assert(list.no_duplicates());
    assert(!crew.parked.contains(worker_id));
    assert(next.parked.no_duplicates()) by {
        assert forall|i: int, j: int|
            0 <= i < next.parked.len() && 0 <= j < next.parked.len() && i
                != j implies next.parked[i] != next.parked[j] by {
            if i == crew.parked.len() {
                assert(crew.parked.contains(crew.parked[j]));
            } else if j == crew.parked.len() {
                assert(crew.parked.contains(crew.parked[i]));
            }
        }
    }
    assert forall|w: usize| w < next.workers.len() implies (
    #[trigger] next.workers[w as int].active_stage is None <==> next.parked.contains(w)) by {
        assert(crew.workers[w as int].active_stage is None <==> crew.parked.contains(w));
        if w == worker_id {
            assert(next.parked[crew.parked.len() as int] == w);
        } else if crew.parked.contains(w) {
            let i = choose|i: int| 0 <= i < crew.parked.len() && crew.parked[i] == w;
            assert(next.parked[i] == w);
        } else if next.parked.contains(w) {
            let i = choose|i: int| 0 <= i < next.parked.len() && next.parked[i] == w;
            if i < crew.parked.len() {
                assert(crew.parked[i] == w);
            }
        }
    }
    assert forall|w: usize, s: int|
        w < next.workers.len() && 0 <= s < next.active.len() implies (
    #[trigger] next.active[s].contains(w) <==> next.workers[w as int].active_stage == Some(
        s as usize,
    )) by {
        assert(crew.active[s].contains(w) <==> crew.workers[w as int].active_stage == Some(
            s as usize,
        ));
    }
    assert forall|w: usize|
        w < next.workers.len() && (#[trigger] next.workers[w as int].active_stage) is Some implies
    next.workers[w as int].active_stage->0 < next.active.len() && next.workers[w as int].retire
        is Some by {
        assert(crew.workers[w as int].active_stage is Some);
    }
}

proof fn lemma_assignment<E>(crew: Roster<E>, worker_id: usize, stage_index: usize)
    requires
        is_sound(crew),
        worker_id < crew.workers.len(),
        stage_index < crew.active.len(),
    ensures
        is_sound(assigned(crew, worker_id, stage_index)),
        at_work(assigned(crew, worker_id, stage_index)) == at_work(crew) + 1,
{
    let next = assigned(crew, worker_id, stage_index);
    lemma_total_of_update(
        heads(crew.active),
        stage_index as int,
        crew.active[stage_index as int].len() + 1,
    );
    assert(heads(next.active) =~= heads(crew.active).update(
        stage_index as int,
        crew.active[stage_index as int].len() + 1,
    ));
    assert forall|s: int, i: int|
        0 <= s < next.active.len() && 0 <= i < next.active[s].len() implies (
    #[trigger] next.active[s][i]) < next.workers.len() by {
        if s != stage_index || i < crew.active[s].len() {
            assert(crew.active[s][i] < crew.workers.len());
        }
    }
}

/// Putting a worker to work adds one to those at work and keeps the crew sound.
pub proof fn law_assignment_adds_one_worker<E>(
    crew: Roster<E>,
    worker_id: usize,
    stage_index: usize,
)
    requires
        is_sound(crew),
        worker_id < crew.workers.len(),
        stage_index < crew.active.len(),
    ensures
        is_sound(assigned(crew, worker_id, stage_index)),
        at_work(assigned(crew, worker_id, stage_index)) == at_work(crew) + 1,
{
    lemma_assignment(crew, worker_id, stage_index);
}

/// The crew with its last parked worker taken out.
pub open spec fn unparked<E>(crew: Roster<E>) -> Roster<E> {
    Roster { parked: crew.parked.drop_last(), ..crew }
}

/// A parked worker that is put to work leaves everyone in exactly one place.
pub proof fn law_unparked_worker_is_placed<E>(crew: Roster<E>, stage_index: usize)
    requires
        is_sound(crew),
        everyone_is_placed(crew),
        crew.parked.len() > 0,
        stage_index < crew.active.len(),
        crew.active.len() <= usize::MAX,
    ensures
        everyone_is_placed(assigned(unparked(crew), crew.parked.last(), stage_index)),
{
    let worker_id = crew.parked.last();
    let free = unparked(crew);
    let next = assigned(free, worker_id, stage_index);
    assert(crew.parked[crew.parked.len() - 1] < crew.workers.len());
    assert(is_sound(free)) by {
        assert forall|i: int| 0 <= i < free.parked.len() implies (#[trigger] free.parked[i])
            < free.workers.len() by {
            assert(crew.parked[i] < crew.workers.len());
        }
    }
    lemma_assignment(free, worker_id, stage_index);
    assert(crew.parked.contains(worker_id));
    assert(crew.workers[worker_id as int].active_stage is None);
    assert forall|w: usize| w < next.workers.len() implies (
    #[trigger] next.workers[w as int].active_stage is None <==> next.parked.contains(w)) by {
        assert(crew.workers[w as int].active_stage is None <==> crew.parked.contains(w));
        if next.parked.contains(w) {
            let i = choose|i: int| 0 <= i < next.parked.len() && next.parked[i] == w;
            assert(crew.parked[i] == w);
        } else if crew.parked.contains(w) {
            let i = choose|i: int| 0 <= i < crew.parked.len() && crew.parked[i] == w;
            if i < crew.parked.len() - 1 {
                assert(next.parked[i] == w);
            }
        }
    }
    lemma_placed_lists(crew, next, worker_id, stage_index);
}

proof fn lemma_placed_lists<E>(
    crew: Roster<E>,
    next: Roster<E>,
    worker_id: usize,
    stage_index: usize,
)
    requires
        everyone_is_placed(crew),
        crew.active.len() <= usize::MAX,
        stage_index < crew.active.len(),
        next.active == crew.active.update(
            stage_index as int,
            crew.active[stage_index as int].push(worker_id),
        ),
        worker_id < next.workers.len(),
        crew.workers.len() <= next.workers.len() <= crew.workers.len() + 1,
        next.workers.len() > crew.workers.len() ==> worker_id == crew.workers.len(),
        forall|s: int, i: int|
            0 <= s < crew.active.len() && 0 <= i < crew.active[s].len() ==> (
            #[trigger] crew.active[s][i]) < crew.workers.len(),
        worker_id < crew.workers.len() ==> crew.workers[worker_id as int].active_stage is None,
        next.workers[worker_id as int] == (WorkerSlot {
            active_stage: Some(stage_index),
            retire: Some(false),
        }),
        forall|w: usize|
            w < crew.workers.len() && w != worker_id ==> #[trigger] next.workers[w as int]
                == crew.workers[w as int],
    ensures
        forall|s: int|
            0 <= s < next.active.len() ==> (#[trigger] next.active[s]).no_duplicates(),
        forall|w: usize|
            w < next.workers.len() && (#[trigger] next.workers[w as int].active_stage) is Some ==> {
                &&& next.workers[w as int].active_stage->0 < next.active.len()
                &&& next.workers[w as int].retire is Some
            },
        forall|w: usize, s: int|
            w < next.workers.len() && 0 <= s < next.active.len() ==> (
            #[trigger] next.active[s].contains(w) <==> next.workers[w as int].active_stage == Some(
                s as usize,
            )),
{
    assert forall|s: int| 0 <= s < crew.active.len() implies !(
    #[trigger] crew.active[s]).contains(worker_id) by {
        if crew.active[s].contains(worker_id) {
            let i = choose|i: int| 0 <= i < crew.active[s].len() && crew.active[s][i] == worker_id;
            assert(crew.active[s][i] < crew.workers.len());
            assert(crew.workers[worker_id as int].active_stage == Some(s as usize));
        }
    }
    assert forall|s: int| 0 <= s < next.active.len() implies (
    #[trigger] next.active[s]).no_duplicates() by {
        let list = crew.active[s];
        assert(list.no_duplicates());
        if s == stage_index {
            assert forall|i: int, j: int|
                0 <= i < next.active[s].len() && 0 <= j < next.active[s].len() && i
                    != j implies next.active[s][i] != next.active[s][j] by {
                if i == list.len() {
                    assert(list.contains(list[j]));
                } else if j == list.len() {
                    assert(list.contains(list[i]));
                }
            }
        }
    }
    assert forall|w: usize|
        w < next.workers.len() && (#[trigger] next.workers[w as int].active_stage) is Some implies
    next.workers[w as int].active_stage->0 < next.active.len() && next.workers[w as int].retire
        is Some by {
        if w != worker_id {
            assert(crew.workers[w as int].active_stage is Some);
        }
    }
    assert forall|w: usize, s: int|
        w < next.workers.len() && 0 <= s < next.active.len() implies (
    #[trigger] next.active[s].contains(w) <==> next.workers[w as int].active_stage == Some(
        s as usize,
    )) by {
        let list = crew.active[s];
        if w != worker_id {
            assert(list.contains(w) <==> crew.workers[w as int].active_stage == Some(s as usize));
            if next.active[s].contains(w) {
                let i = choose|i: int| 0 <= i < next.active[s].len() && next.active[s][i] == w;
                assert(list[i] == w);
            }
            if list.contains(w) {
                let i = choose|i: int| 0 <= i < list.len() && list[i] == w;
                assert(next.active[s][i] == w);
            }
        } else if s == stage_index {
            assert(next.active[s][list.len() as int] == w);
        } else {
            assert(!list.contains(w));
        }
    }
}

/// A new worker that is put to work at once leaves everyone in exactly one place.
pub proof fn law_new_worker_is_placed<E>(crew: Roster<E>, stage_index: usize)
    requires
        is_sound(crew),
        everyone_is_placed(crew),
        stage_index < crew.active.len(),
        crew.active.len() <= usize::MAX,
        crew.workers.len() < usize::MAX,
    ensures
        everyone_is_placed(assigned(hired(crew), crew.workers.len() as usize, stage_index)),
{
    let worker_id = crew.workers.len() as usize;
    let more = hired(crew);
    let next = assigned(more, worker_id, stage_index);
    lemma_hiring(crew);
    lemma_assignment(more, worker_id, stage_index);
    assert forall|w: usize| w < next.workers.len() implies (
    #[trigger] next.workers[w as int].active_stage is None <==> next.parked.contains(w)) by {
        if w < crew.workers.len() {
            assert(crew.workers[w as int].active_stage is None <==> crew.parked.contains(w));
        } else if next.parked.contains(w) {
            let i = choose|i: int| 0 <= i < crew.parked.len() && crew.parked[i] == w;
            assert(crew.parked[i] < crew.workers.len());
        }
    }
    lemma_placed_lists(crew, next, worker_id, stage_index);
}

pub proof fn lemma_hiring<E>(crew: Roster<E>)
    requires
        is_sound(crew),
    ensures
        is_sound(hired(crew)),
        at_work(hired(crew)) == at_work(crew),
{
    let more = hired(crew);
    assert forall|i: int| 0 <= i < more.parked.len() implies (#[trigger] more.parked[i])
        < more.workers.len() by {
        assert(crew.parked[i] < crew.workers.len());
    }
    assert forall|s: int, i: int|
        0 <= s < more.active.len() && 0 <= i < more.active[s].len() implies (
    #[trigger] more.active[s][i]) < more.workers.len() by {
        assert(crew.active[s][i] < crew.workers.len());
    }
    assert forall|s: int| 0 <= s < more.controls.len() implies probe_exists(
        #[trigger] more.controls[s],
        more.workers.len(),
    ) by {
        assert(probe_exists(crew.controls[s], crew.workers.len()));
    }
}

/// A new worker that is parked leaves everyone in exactly one place.
pub proof fn law_spare_worker_is_placed<E>(crew: Roster<E>)
    requires
        is_sound(crew),
        everyone_is_placed(crew),
        crew.workers.len() < usize::MAX,
    ensures
        ({
            let more = hired(crew);
            everyone_is_placed(
                Roster { parked: more.parked.push(crew.workers.len() as usize), ..more },
            )
        }),
{
    let worker_id = crew.workers.len() as usize;
    let more = hired(crew);
    let next = Roster { parked: more.parked.push(worker_id), ..more };
    lemma_hiring(crew);
    assert(next.parked.no_duplicates()) by {
        assert forall|i: int, j: int|
            0 <= i < next.parked.len() && 0 <= j < next.parked.len() && i
                != j implies next.parked[i] != next.parked[j] by {
            if i < crew.parked.len() {
                assert(crew.parked[i] < crew.workers.len());
            }
            if j < crew.parked.len() {
                assert(crew.parked[j] < crew.workers.len());
            }
        }
    }
    assert forall|w: usize| w < next.workers.len() implies (
    #[trigger] next.workers[w as int].active_stage is None <==> next.parked.contains(w)) by {
        if w == worker_id {
            assert(next.parked[crew.parked.len() as int] == w);
        } else {
            assert(crew.workers[w as int].active_stage is None <==> crew.parked.contains(w));
            if next.parked.contains(w) {
                let i = choose|i: int| 0 <= i < next.parked.len() && next.parked[i] == w;
                assert(crew.parked[i] == w);
            }
            if crew.parked.contains(w) {
                let i = choose|i: int| 0 <= i < crew.parked.len() && crew.parked[i] == w;
                assert(next.parked[i] == w);
            }
        }
    }
    assert forall|w: usize, s: int|
        w < next.workers.len() && 0 <= s < next.active.len() implies (
    #[trigger] next.active[s].contains(w) <==> next.workers[w as int].active_stage == Some(
        s as usize,
    )) by {
        if w < crew.workers.len() {
            assert(crew.active[s].contains(w) <==> crew.workers[w as int].active_stage == Some(
                s as usize,
            ));
        } else if crew.active[s].contains(w) {
            let i = choose|i: int| 0 <= i < crew.active[s].len() && crew.active[s][i] == w;
            assert(crew.active[s][i] < crew.workers.len());
        }
    }
    assert forall|w: usize|
        w < next.workers.len() && (#[trigger] next.workers[w as int].active_stage) is Some implies
    next.workers[w as int].active_stage->0 < next.active.len() && next.workers[w as int].retire
        is Some by {
        if w < crew.workers.len() {
            assert(crew.workers[w as int].active_stage is Some);
        }
    }
}

/// A worker that parks leaves its stage and is free: its slot is empty, it is off the
/// stage's list, and it is the last among the parked.
pub proof fn law_parked_worker_is_free<E>(crew: Roster<E>, worker_id: usize, stage_index: usize)
    requires
        worker_id < crew.workers.len(),
        stage_index < crew.active.len(),
        crew.active[stage_index as int].no_duplicates(),
    ensures
        ({
            let after = after_event(crew, WorkerEvent::<E>::Parked { worker_id, stage_index });
            let stage = stage_index as int;
            &&& after.workers[worker_id as int].active_stage is None
            &&& after.workers[worker_id as int].retire is None
            &&& !after.active[stage].contains(worker_id)
            &&& forall|other: usize|
                other != worker_id ==> (#[trigger] after.active[stage].contains(other)
                    <==> crew.active[stage].contains(other))
            &&& crew.active[stage].contains(worker_id) ==> after.active[stage].len()
                == crew.active[stage].len() - 1
            &&& forall|s: int|
                0 <= s < crew.active.len() && s != stage ==> #[trigger] after.active[s]
                    == crew.active[s]
            &&& after.parked == crew.parked.push(worker_id)
            &&& after.failure == crew.failure
        }),
{
    lemma_without(crew.active[stage_index as int], worker_id);
}

/// A worker that fails leaves its stage and is free, its failure is the one that the
/// pipeline ends with, and a resizing that waits for it waits no longer.
pub proof fn law_failed_worker_is_free<E>(
    crew: Roster<E>,
    worker_id: usize,
    stage_index: usize,
    worker: String,
    failure: StageFailure<E>,
)
    requires
        worker_id < crew.workers.len(),
        stage_index < crew.active.len(),
        crew.active[stage_index as int].no_duplicates(),
    ensures
        ({
            let after = after_event(
                crew,
                WorkerEvent::Failed { worker_id, stage_index, worker, failure },
            );
            &&& after.workers[worker_id as int].active_stage is None
            &&& after.workers[worker_id as int].retire is None
            &&& !after.active[stage_index as int].contains(worker_id)
            &&& after.parked.contains(worker_id)
            &&& crew.parked.contains(worker_id) ==> after.parked == crew.parked
            &&& after.failure == Some(Cause::Stage { worker, failure })
            &&& !(after.pending matches Some(scale) && scale.worker_id == worker_id)
            &&& (crew.pending matches Some(scale) && scale.worker_id != worker_id) ==> after.pending
                == crew.pending
            &&& after.controls == crew.controls
        }),
{
    lemma_without(crew.active[stage_index as int], worker_id);
    let grown = crew.parked.push(worker_id);
    assert(grown[crew.parked.len() as int] == worker_id);
}

/// A resizing is over once its worker confirms it: the new one by starting, the one
/// that was asked to leave by parking. Nobody else's report ends it.
pub proof fn law_resizing_ends_with_its_worker<E>(
    crew: Roster<E>,
    scale: PendingScale,
    worker_id: usize,
    stage_index: usize,
)
    requires
        crew.pending == Some(scale),
    ensures
        ({
            let started = after_event(crew, WorkerEvent::<E>::Started { worker_id });
            let parked = after_event(crew, WorkerEvent::<E>::Parked { worker_id, stage_index });
            &&& started.pending is None <==> worker_id == scale.worker_id && scale.direction is Add
            &&& started.pending is Some ==> started == crew
            &&& parked.pending is None <==> worker_id == scale.worker_id && scale.direction
                is Remove
            &&& parked.pending is Some ==> parked.pending == crew.pending && parked.controls
                == crew.controls
            &&& started.workers == crew.workers && started.active == crew.active && started.parked
                == crew.parked && started.failure == crew.failure
            &&& after_event(crew, WorkerEvent::<E>::Stopped) == crew
        }),
{
}

/// Without a resizing under way, the start of a worker changes nothing, and parking
/// leaves the stages' memories.
pub proof fn law_reports_without_resizing_leave_the_memories<E>(
    crew: Roster<E>,
    worker_id: usize,
    stage_index: usize,
)
    requires
        crew.pending is None,
    ensures
        after_event(crew, WorkerEvent::<E>::Started { worker_id }) == crew,
        after_event(crew, WorkerEvent::<E>::Parked { worker_id, stage_index }).controls
            == crew.controls,
        after_event(crew, WorkerEvent::<E>::Parked { worker_id, stage_index }).pending is None,
{
}

/// A confirmed growth is remembered as one: an anchor's extra worker is on probe from
/// then on, and any other stage settles, with its samples counted anew.
pub proof fn law_confirmed_growth_is_remembered<E>(crew: Roster<E>, scale: PendingScale)
    requires
        crew.pending == Some(scale),
        scale.direction is Add,
        scale.stage_index < crew.controls.len(),
    ensures
        ({
            let stage = scale.stage_index as int;
            let before = crew.controls[stage];
            let controls = after_event(
                crew,
                WorkerEvent::<E>::Started { worker_id: scale.worker_id },
            ).controls;
            let after = controls[stage];
            &&& controls.len() == crew.controls.len()
            &&& forall|i: int|
                0 <= i < controls.len() && i != stage ==> #[trigger] controls[i] == crew.controls[i]
            &&& after.last_operation == Some(ScaleDirection::Add)
            &&& after.processed_count == before.processed_count && after.desired_workers
                == before.desired_workers && after.idle_samples == before.idle_samples && after.busy
                == before.busy
            &&& scale.reason is AnchorProbe ==> {
                &&& after.scaling_state is Probing
                &&& after.settling == before.settling
                &&& before.anchor matches Some(anchor) ==> after.anchor == Some(
                    AnchorControl {
                        probe: Some(
                            AnchorProbe {
                                worker_id: scale.worker_id,
                                samples: 0,
                                observed_work: false,
                            },
                        ),
                        ..anchor
                    },
                )
            }
            &&& !(scale.reason is AnchorProbe) ==> {
                &&& after.scaling_state is Settling
                &&& after.settling && after.settle_samples == 0 && !after.settle_observed_work
                &&& after.anchor == before.anchor
            }
        }),
{
}

/// A confirmed shrinking is remembered as one. An anchor that gave its probe back, or
/// a worker for want of room or of work, backs off: its probe is over and was
/// reverted, and its pause grows longer. Any other stage settles.
pub proof fn law_confirmed_shrinking_is_remembered<E>(
    crew: Roster<E>,
    scale: PendingScale,
    stage_index: usize,
)
    requires
        crew.pending == Some(scale),
        scale.direction is Remove,
        scale.stage_index < crew.controls.len(),
    ensures
        ({
            let stage = scale.stage_index as int;
            let before = crew.controls[stage];
            let controls = after_event(
                crew,
                WorkerEvent::<E>::Parked { worker_id: scale.worker_id, stage_index },
            ).controls;
            let after = controls[stage];
            let backs_off = before.anchor is Some && (scale.reason is AnchorRevert || scale.reason
                is BudgetPressure || scale.reason is Idle);
            &&& forall|i: int|
                0 <= i < controls.len() && i != stage ==> #[trigger] controls[i] == crew.controls[i]
            &&& after.last_operation == Some(ScaleDirection::Remove)
            &&& after.processed_count == before.processed_count && after.desired_workers
                == before.desired_workers && after.idle_samples == before.idle_samples && after.busy
                == before.busy
            &&& backs_off ==> {
                &&& after.scaling_state is BackingOff
                &&& after.settling == before.settling
                &&& after.anchor is Some
                &&& after.anchor->0.probe is None
                &&& after.anchor->0.last_probe_outcome is Reverted
                &&& after.anchor->0.max_threads == before.anchor->0.max_threads
                &&& after.anchor->0.fixed_threads == before.anchor->0.fixed_threads
                &&& after.anchor->0.warmup_complete == before.anchor->0.warmup_complete
                &&& 4 <= after.anchor->0.cooldown_samples <= 64
                &&& 2 <= before.anchor->0.cooldown_samples <= 32
                    ==> after.anchor->0.cooldown_samples == 2 * before.anchor->0.cooldown_samples
                &&& scale.reason is BudgetPressure ==> after.anchor->0.last_probe_reason
                    is BudgetPressure
                &&& scale.reason is Idle ==> after.anchor->0.last_probe_reason is Idle
                &&& scale.reason is AnchorRevert ==> after.anchor->0.last_probe_reason
                    == before.anchor->0.last_probe_reason
            }
            &&& !backs_off ==> {
                &&& after.scaling_state is Settling
                &&& after.settling && after.settle_samples == 0 && !after.settle_observed_work
                &&& after.anchor == before.anchor
            }
        }),
{
}

/// A worker that is put to work serves that stage and no other list changes; it is
/// not asked to retire yet.
pub proof fn law_assigned_worker_serves_its_stage<E>(
    crew: Roster<E>,
    worker_id: usize,
    stage_index: usize,
)
    requires
        worker_id < crew.workers.len(),
        stage_index < crew.active.len(),
    ensures
        ({
            let after = assigned(crew, worker_id, stage_index);
            &&& after.workers[worker_id as int].active_stage == Some(stage_index)
            &&& after.workers[worker_id as int].retire == Some(false)
            &&& after.active[stage_index as int].len() == crew.active[stage_index as int].len() + 1
            &&& after.active[stage_index as int].last() == worker_id
            &&& forall|s: int|
                0 <= s < crew.active.len() && s != stage_index ==> #[trigger] after.active[s]
                    == crew.active[s]
            &&& forall|w: int|
                0 <= w < crew.workers.len() && w != worker_id ==> #[trigger] after.workers[w]
                    == crew.workers[w]
            &&& after.parked == crew.parked && after.pending == crew.pending && after.controls
                == crew.controls && after.failure == crew.failure
        }),
{
}

/// A worker that is asked to retire still serves its stage; only its flag is raised.
pub proof fn law_asked_worker_serves_on<E>(crew: Roster<E>, worker_id: usize)
    requires
        worker_id < crew.workers.len(),
    ensures
        ({
            let after = asked_to_retire(crew, worker_id);
            &&& after.workers[worker_id as int].retire == Some(true)
            &&& after.workers[worker_id as int].active_stage
                == crew.workers[worker_id as int].active_stage
            &&& forall|w: int|
                0 <= w < crew.workers.len() && w != worker_id ==> #[trigger] after.workers[w]
                    == crew.workers[w]
            &&& after.active == crew.active && after.parked == crew.parked
        }),
{
}

/// A new thread has no place yet, and an unparked worker was the one that was parked
/// last.
pub proof fn law_new_and_unparked_workers<E>(crew: Roster<E>)
    ensures
        hired(crew).workers.len() == crew.workers.len() + 1,
        hired(crew).workers.last().active_stage is None,
        hired(crew).workers.last().retire is None,
        hired(crew).workers.drop_last() == crew.workers,
        hired(crew).active == crew.active,
        hired(crew).parked == crew.parked,
        crew.parked.len() > 0 ==> unparked(crew).parked.push(crew.parked.last()) == crew.parked,
        unparked(crew).workers == crew.workers,
        unparked(crew).active == crew.active,
{
    assert(hired(crew).workers.drop_last() =~= crew.workers);
    if crew.parked.len() > 0 {
        assert(unparked(crew).parked.push(crew.parked.last()) =~= crew.parked);
    }
}

/// The pipeline aborts exactly where some worker reports a failure, and ends with the
/// failure that was reported last.
pub proof fn law_last_failure_is_kept<E>(crew: Roster<E>, events: Seq<WorkerEvent<E>>)
    ensures
        any_failed(events) <==> exists|i: int|
            0 <= i < events.len() && (#[trigger] events[i]) is Failed,
        events.len() > 0 && events.last() is Failed ==> after_events(crew, events).failure == Some(
            Cause::Stage {
                worker: events.last()->Failed_worker,
                failure: events.last()->Failed_failure,
            },
        ),
        !any_failed(events) ==> after_events(crew, events).failure == crew.failure,
    decreases events.len(),
{
    if events.len() > 0 && !any_failed(events) {
        let earlier = events.drop_last();
        assert(!any_failed(earlier)) by {
            if any_failed(earlier) {
                let i = choose|i: int|
                    0 <= i < earlier.len() && (#[trigger] earlier[i]) is Failed;
                assert(events[i] is Failed);
            }
        }
        law_last_failure_is_kept(crew, earlier);
        assert(!(events[events.len() - 1] is Failed));
    }
}

/// The machinery's last failure is kept, and without one nothing changes.
pub proof fn law_machinery_failures_are_kept<E>(crew: Roster<E>, failures: Seq<InternalFailure>)
    ensures
        failures.len() == 0 ==> after_failures(crew, failures) == crew,
        failures.len() > 0 ==> after_failures(crew, failures) == (Roster {
            failure: Some(Cause::Machinery(failures.last())),
            ..crew
        }),
{
}

/// Events that come in two lists do what they do in one.
pub proof fn law_events_can_come_in_parts<E>(
    crew: Roster<E>,
    first: Seq<WorkerEvent<E>>,
    second: Seq<WorkerEvent<E>>,
)
    ensures
        after_events(crew, first + second) == after_events(after_events(crew, first), second),
    decreases second.len(),
{
    if second.len() == 0 {
        assert(first + second =~= first);
    } else {
        law_events_can_come_in_parts(crew, first, second.drop_last());
        assert((first + second).drop_last() =~= first + second.drop_last());
    }
}

/// What a report does to the crew: a worker that parks is taken off its stage's list,
/// loses its place and waits among the parked; one that fails does too, and its failure
/// is kept and aborts the pipeline; a start moves nobody. No other list and no other
/// worker changes.
pub proof fn law_report_moves_its_worker<E>(
    crew: &mut Crew<E>,
    event: WorkerEvent<E>,
    abort: bool,
    s: int,
    w: int,
)
    requires
        is_sound(old(crew)@),
        event_fits(event, old(crew)@.workers.len() as int, old(crew)@.active.len() as int),
        call_ensures(Crew::<E>::handle_worker_event, (crew, event), abort),
        0 <= s < old(crew)@.active.len(),
        0 <= w < old(crew)@.workers.len(),
    ensures
        ({
            let before = old(crew)@;
            let after = final(crew)@;
            &&& abort <==> event is Failed
            &&& match event {
                WorkerEvent::Started { .. } => after.active == before.active && after.workers
                    == before.workers && after.parked == before.parked && after.failure
                    == before.failure,
                WorkerEvent::Stopped => after == before,
                WorkerEvent::Parked { worker_id, stage_index } => {
                    &&& s != stage_index ==> after.active[s] == before.active[s]
                    &&& w != worker_id ==> after.workers[w] == before.workers[w]
                    &&& after.workers[worker_id as int].active_stage is None
                    &&& after.workers[worker_id as int].retire is None
                    &&& after.parked == before.parked.push(worker_id)
                    &&& before.active[stage_index as int].no_duplicates()
                        ==> !after.active[stage_index as int].contains(worker_id)
                    &&& after.failure == before.failure
                },
                WorkerEvent::Failed { worker_id, stage_index, worker, failure } => {
                    &&& s != stage_index ==> after.active[s] == before.active[s]
                    &&& w != worker_id ==> after.workers[w] == before.workers[w]
                    &&& after.workers[worker_id as int].active_stage is None
                    &&& after.workers[worker_id as int].retire is None
                    &&& after.parked.contains(worker_id)
                    &&& before.active[stage_index as int].no_duplicates()
                        ==> !after.active[stage_index as int].contains(worker_id)
                    &&& after.failure == Some(Cause::Stage { worker, failure })
                },
            }
        }),
{
    let before = old(crew)@;
    match event {
        WorkerEvent::Parked { worker_id, stage_index } => {
            lemma_without(before.active[stage_index as int], worker_id);
        },
        WorkerEvent::Failed { worker_id, stage_index, .. } => {
            lemma_without(before.active[stage_index as int], worker_id);
            let grown = before.parked.push(worker_id);
            assert(grown[before.parked.len() as int] == worker_id);
        },
        _ => {},
    }
}

/// A worker that is taken off a list is on it once less, and everyone else stays on it;
/// the other lists are left.
pub proof fn law_worker_leaves_one_list(
    active_by_stage: &mut Vec<Vec<usize>>,
    stage_index: usize,
    worker_id: usize,
    s: int,
)
    requires
        stage_index < old(active_by_stage)@.len(),
        call_ensures(remove_worker_from_stage, (active_by_stage, stage_index, worker_id), ()),
        0 <= s < old(active_by_stage)@.len(),
    ensures
        ({
            let before = old(active_by_stage)@;
            let after = final(active_by_stage)@;
            let stage = stage_index as int;
            &&& after.len() == before.len()
            &&& s != stage ==> after[s]@ == before[s]@
            &&& before[stage]@.contains(worker_id) ==> after[stage]@.len() == before[stage]@.len()
                - 1
            &&& !before[stage]@.contains(worker_id) ==> after[stage]@ == before[stage]@
            &&& before[stage]@.no_duplicates() ==> {
                &&& !after[stage]@.contains(worker_id)
                &&& forall|other: usize|
                    other != worker_id ==> (#[trigger] after[stage]@.contains(other)
                        <==> before[stage]@.contains(other))
            }
        }),
{
    let before = old(active_by_stage)@;
    let after = final(active_by_stage)@;
    let stage = stage_index as int;
    assert(lists(after)[stage] == without(before[stage]@, worker_id));
    assert(lists(after).len() == lists(before).len());
    assert(lists(after)[s] == after[s]@);
    lemma_without(before[stage]@, worker_id);
}

/// A resizing is noted at its stage alone.
pub proof fn law_direction_is_noted(
    controls: &mut Vec<StageControl>,
    stage_index: usize,
    direction: ScaleDirection,
    i: int,
)
    requires
        stage_index < old(controls)@.len(),
        call_ensures(record_stage_operation, (controls, stage_index, direction), ()),
        0 <= i < old(controls)@.len(),
    ensures
        final(controls)@[stage_index as int].last_operation == Some(direction),
        i != stage_index ==> final(controls)@[i] == old(controls)@[i],
        final(controls)@[i] == (StageControl {
            last_operation: final(controls)@[i].last_operation,
            ..old(controls)@[i]
        }),
{
}

/// A new crew has no workers, an empty list for each stage, and nothing under way.
pub proof fn law_crew_begins_empty<E>(
    stage_count: usize,
    controls: Vec<StageControl>,
    crew: Crew<E>,
    s: int,
)
    requires
        call_ensures(Crew::<E>::new, (stage_count, controls), crew),
    ensures
        crew@.workers.len() == 0 && crew@.parked.len() == 0,
        crew@.active.len() == stage_count,
        0 <= s < stage_count ==> crew@.active[s].len() == 0,
        crew@.controls == controls@,
        crew@.pending is None && crew@.failure is None,
{
}

/// A new worker has the next number and no place yet.
pub proof fn law_new_worker_has_the_next_number<E>(crew: &mut Crew<E>, worker_id: usize)
    requires
        call_ensures(Crew::<E>::spawn_worker, (crew,), worker_id),
    ensures
        worker_id == old(crew)@.workers.len(),
        final(crew)@.workers.len() == old(crew)@.workers.len() + 1,
        final(crew)@.workers[worker_id as int].active_stage is None,
        final(crew)@.workers[worker_id as int].retire is None,
        final(crew)@.active == old(crew)@.active,
        final(crew)@.parked == old(crew)@.parked,
{
}

/// A worker that is put to work is the last on its stage's list, and is not asked to
/// retire.
pub proof fn law_worker_is_put_to_work<E>(
    crew: &mut Crew<E>,
    worker_id: usize,
    stage_index: usize,
    s: int,
)
    requires
        worker_id < old(crew)@.workers.len(),
        stage_index < old(crew)@.active.len(),
        call_ensures(Crew::<E>::assign_worker, (crew, worker_id, stage_index), ()),
        0 <= s < old(crew)@.active.len(),
    ensures
        final(crew)@.active[stage_index as int] == old(crew)@.active[stage_index as int].push(
            worker_id,
        ),
        s != stage_index ==> final(crew)@.active[s] == old(crew)@.active[s],
        final(crew)@.workers[worker_id as int].active_stage == Some(stage_index),
        final(crew)@.workers[worker_id as int].retire == Some(false),
        final(crew)@.parked == old(crew)@.parked,
{
}

/// A worker is asked to retire exactly where it serves a stage, and serves it on.
pub proof fn law_worker_is_asked_to_retire<E>(crew: &mut Crew<E>, worker_id: usize, asked: bool)
    requires
        worker_id < old(crew)@.workers.len(),
        call_ensures(Crew::<E>::retire_worker, (crew, worker_id), asked),
    ensures
        asked <==> old(crew)@.workers[worker_id as int].retire is Some,
        asked ==> final(crew)@.workers[worker_id as int].retire == Some(true),
        !asked ==> final(crew)@ == old(crew)@,
        final(crew)@.active == old(crew)@.active,
        final(crew)@.workers[worker_id as int].active_stage
            == old(crew)@.workers[worker_id as int].active_stage,
{
}

/// A cause of failure is told as an error of its own sort.
pub proof fn law_cause_is_told<E>(cause: Cause<E>, error: PiperError<E>)
    requires
        call_ensures(Cause::<E>::into_error, (cause,), error),
    ensures
        cause matches Cause::Stage { worker, failure: error::StageFailure::Init(own) } ==> error
            == (PiperError::UserInit { worker, error: own }),
        cause matches Cause::Stage { worker, failure: error::StageFailure::Process(own) } ==> error
            == (PiperError::UserProcess { worker, error: own }),
        cause matches Cause::Stage { worker, failure: error::StageFailure::Cleanup(own) } ==> error
            == (PiperError::UserCleanup { worker, error: own }),
        cause matches Cause::Stage { worker, failure: error::StageFailure::Internal(message) }
            ==> error == (PiperError::<E>::Internal { worker, message }),
        cause matches Cause::Machinery(InternalFailure::Internal { message }) ==> error is Internal
            && error->Internal_message == message,
        cause matches Cause::Machinery(InternalFailure::Telemetry { message }) ==> error == (
        PiperError::<E>::Telemetry { message }),
{
}

/// Where a worker leaves a list, the last of the list takes its place, and everyone else
/// stays in place.
pub proof fn law_last_takes_the_empty_place(
    active_by_stage: &mut Vec<Vec<usize>>,
    stage_index: usize,
    worker_id: usize,
    p: int,
    i: int,
)
    requires
        stage_index < old(active_by_stage)@.len(),
        call_ensures(remove_worker_from_stage, (active_by_stage, stage_index, worker_id), ()),
        0 <= p < old(active_by_stage)@[stage_index as int]@.len(),
        old(active_by_stage)@[stage_index as int]@[p] == worker_id,
        forall|q: int|
            0 <= q < p ==> #[trigger] old(active_by_stage)@[stage_index as int]@[q] != worker_id,
    ensures
        ({
            let before = old(active_by_stage)@[stage_index as int]@;
            let after = final(active_by_stage)@[stage_index as int]@;
            &&& after.len() == before.len() - 1
            &&& p < after.len() ==> after[p] == before.last()
            &&& 0 <= i < after.len() && i != p ==> after[i] == before[i]
        }),
{
    let before = old(active_by_stage)@[stage_index as int]@;
    let after = final(active_by_stage)@[stage_index as int]@;
    assert(lists(final(active_by_stage)@)[stage_index as int] == without(before, worker_id));
    assert(lists(final(active_by_stage)@).len() == lists(old(active_by_stage)@).len());
    assert(lists(final(active_by_stage)@)[stage_index as int] == after);
    before.index_of_first_ensures(worker_id);
    assert(before.contains(worker_id));
}

} // verus!

//! The supervisor's decisions: whom it hires at the start, what it does with the
//! next resizing, and when it lets go and stops. Its caller runs the threads.
use crate::control::{
    build_stage_controls, collect_stage_samples, update_desired_workers, BusyBand, ScaleDirection,
    ScaleReason, StageControl, StageSample,
};
use crate::control;
use crate::crew::{Crew, PendingScale, Roster, WorkerEvent};
use crate::crew;
use crate::error::{InternalFailure, PiperError};
use crate::graph::RuntimeStage;
use crate::graph;
use crate::scaling::{active_worker_count, choose_scale_operation, ScaleOperation};
use crate::scaling;
use crate::search;
use crate::text;
use crate::trend::{classify_links, sample_links, LinkControl, LinkDelta, LinkRates, LinkReading};
use crate::trend;
use crate::worker::WorkerStats;
use std::sync::Arc;
use vstd::prelude::*;
use vstd::string::*;

verus! {

/// What stays as it is while a pipeline runs.
#[derive(Debug)]
pub struct Layout {
    pub stages: Vec<RuntimeStage>,
    pub input_link: usize,
    pub output_link: usize,
    pub global_worker_cap: usize,
    pub parked_target: usize,
}

/// The supervisor of a running pipeline.
#[derive(Debug)]
pub struct Supervisor<E> {
    pub layout: Layout,
    pub link_controls: Vec<LinkControl>,
    pub crew: Crew<E>,
    pub holds_links: bool,
}

/// A worker thread to start. `stage_index` is the stage that it serves, or
/// `None` for one that is kept in reserve.
#[derive(Clone, Copy, Debug, PartialEq, Eq, Structural)]
pub struct Hire {
    pub worker_id: usize,
    pub stage_index: Option<usize>,
}

/// What the caller has to do for a resizing.
#[derive(Clone, Copy, Debug, PartialEq, Eq, Structural)]
pub enum ScaleAction {
    /// There is nothing to do.
    Nothing,
    /// Worker `worker_id` is to serve the stage. Its thread is started first
    /// where `spawn` says so; then `spares` more threads are started, numbered
    /// on from `first_spare`, and kept in reserve.
    Assign { worker_id: usize, stage_index: usize, spawn: bool, first_spare: usize, spares: usize },
    /// The worker's retire flag is to be raised.
    Retire { worker_id: usize },
}

/// The number of workers that a stage starts with: a fixed anchor has its own
/// number, another anchor its initial one as far as the cap leaves room beside
/// one worker for each other stage, and any other stage has one.
pub open spec fn starting_workers(stage: RuntimeStage, stage_count: int, cap: usize) -> int {
    match stage.anchor {
        Some(anchor) => match anchor.fixed_threads {
            Some(threads) => threads as int,
            None => {
                let room = cap - (stage_count - 1);
                least(least(anchor.initial_threads as int, anchor.max_threads as int), if room
                    >= 1 {
                    room
                } else {
                    1
                })
            },
        },
        None => 1,
    }
}

pub open spec fn least(a: int, b: int) -> int {
    if a <= b {
        a
    } else {
        b
    }
}

/// The number of workers that a stage starts with.
pub fn initial_worker_count(stage: &RuntimeStage, stage_count: usize, cap: usize) -> (count: usize)
    requires
        stage_count > 0,
    ensures
        count == starting_workers(*stage, stage_count as int, cap),
{
    match stage.anchor {
        Some(anchor) => match anchor.fixed_threads {
            Some(threads) => threads,
            None => {
                let room: usize = cap.saturating_sub(stage_count - 1);
                let budget: usize = if room < 1 {
                    1
                } else {
                    room
                };
                let mut count: usize = anchor.initial_threads;
                if anchor.max_threads < count {
                    count = anchor.max_threads;
                }
                if budget < count {
                    count = budget;
                }
                count
            },
        },
        None => 1,
    }
}

/// The stage is an anchor with a fixed thread count.
pub open spec fn is_fixed_stage(stage: RuntimeStage) -> bool {
    stage.anchor matches Some(anchor) && anchor.fixed_threads is Some
}

/// How many of the stages can be resized.
pub open spec fn resizable(stages: Seq<RuntimeStage>) -> nat
    decreases stages.len(),
{
    if stages.len() == 0 {
        0
    } else {
        resizable(stages.drop_last()) + if is_fixed_stage(stages.last()) {
            0nat
        } else {
            1
        }
    }
}

/// The number of workers kept in reserve: one for each stage that can be resized.
pub fn parked_worker_target(stages: &Vec<RuntimeStage>) -> (target: usize)
    ensures
        target == resizable(stages@),
        target <= stages@.len(),
{
    let mut target: usize = 0;
    let mut index: usize = 0;
    while index < stages.len()
        invariant
            index <= stages@.len(),
            target == resizable(stages@.take(index as int)),
            target <= index,
        decreases stages@.len() - index,
    {
        proof {
            assert(stages@.take(index + 1).drop_last() =~= stages@.take(index as int));
        }
        let fixed: bool = match stages[index].anchor {
            Some(anchor) => anchor.fixed_threads.is_some(),
            None => false,
        };
        if !fixed {
            target += 1;
        }
        index += 1;
    }
    assert(stages@.take(index as int) =~= stages@);
    target
}

/// The name of a worker's thread.
pub open spec fn name_of_worker(worker_id: usize) -> Seq<char> {
    "piper-worker-"@ + text::decimal(worker_id as nat)
}

pub fn worker_name(worker_id: usize) -> (name: String)
    ensures
        name@ == name_of_worker(worker_id),
{
    let mut name = "piper-worker-".to_string();
    text::push_decimal(&mut name, worker_id as u64);
    name
}

/// What the rules of resizing look at.
pub open spec fn seen<E>(
    layout: Layout,
    links: Seq<LinkControl>,
    roster: Roster<E>,
) -> scaling::Picture {
    scaling::picture(
        links,
        crew::heads(roster.active),
        layout.stages@,
        layout.output_link,
        layout.global_worker_cap,
    )
}

/// A control belongs to its stage: both are anchors of the same measure, or none.
pub open spec fn belongs(control: StageControl, stage: RuntimeStage) -> bool {
    match (control.anchor, stage.anchor) {
        (Some(memory), Some(anchor)) => {
            &&& memory.max_threads == anchor.max_threads
            &&& memory.fixed_threads == anchor.fixed_threads
        },
        (None, None) => true,
        _ => false,
    }
}

/// Each part was taken from the counts of the worker in its place.
pub open spec fn are_taken_from(
    parts: Seq<StageSample>,
    workers: Seq<usize>,
    stats: Seq<Arc<WorkerStats>>,
) -> bool {
    parts.len() == workers.len() && forall|k: int|
        0 <= k < parts.len() ==> stats[workers[k] as int].may_yield(#[trigger] parts[k])
}

impl<E> Supervisor<E> {
    /// The parts fit together.
    pub open spec fn is_sound(self) -> bool {
        &&& crew::is_sound(self.crew@)
        &&& scaling::fits(seen(self.layout, self.link_controls@, self.crew@), self.crew@.controls)
        &&& forall|i: int|
            0 <= i < self.crew@.controls.len() ==> belongs(
                #[trigger] self.crew@.controls[i],
                self.layout.stages@[i],
            )
        &&& self.layout.stages@.len() > 0
    }

    /// Whether a stage takes the pipeline's input.
    pub fn is_input_stage(&self, stage_index: usize) -> (yes: bool)
        requires
            stage_index < self.layout.stages@.len(),
        ensures
            yes == (self.layout.stages@[stage_index as int].input_link == self.layout.input_link),
    {
        self.layout.stages[stage_index].input_link == self.layout.input_link
    }

    /// The supervisor of a pipeline whose threads are not yet started.
    pub fn new(
        stages: Vec<RuntimeStage>,
        input_link: usize,
        output_link: usize,
        link_count: usize,
        global_worker_cap: usize,
    ) -> (supervisor: Self)
        requires
            stages@.len() > 0,
            graph::links_exist(stages@, link_count as int),
            output_link < link_count,
        ensures
            supervisor.is_sound(),
            supervisor.layout.stages == stages,
            supervisor.layout.input_link == input_link,
            supervisor.layout.output_link == output_link,
            supervisor.layout.global_worker_cap == global_worker_cap,
            supervisor.layout.parked_target == resizable(stages@),
            supervisor.link_controls@ == Seq::new(link_count as nat, |i: int| trend::idle_link()),
            supervisor.crew@ == (Roster::<E> {
                workers: Seq::empty(),
                active: Seq::new(stages@.len(), |i: int| Seq::<usize>::empty()),
                parked: Seq::empty(),
                controls: Seq::new(stages@.len(), |i: int| control::fresh_control(stages@[i])),
                pending: None,
                failure: None,
            }),
            supervisor.holds_links,
    {
        let controls: Vec<StageControl> = build_stage_controls(&stages);
        let crew: Crew<E> = Crew::new(stages.len(), controls);
        let mut link_controls: Vec<LinkControl> = Vec::new();
        let mut index: usize = 0;
        while index < link_count
            invariant
                index <= link_count,
                link_controls@.len() == index,
                forall|i: int|
                    0 <= i < index ==> #[trigger] link_controls@[i] == trend::idle_link(),
            decreases link_count - index,
        {
            link_controls.push(LinkControl::default());
            index += 1;
        }
        let parked_target: usize = parked_worker_target(&stages);
        proof {
            lemma_no_heads(crew::heads(crew@.active));
        }
        Supervisor {
            layout: Layout { stages, input_link, output_link, global_worker_cap, parked_target },
            link_controls,
            crew,
            holds_links: true,
        }
    }
}

proof fn lemma_no_heads(counts: Seq<nat>)
    requires
        forall|i: int| 0 <= i < counts.len() ==> #[trigger] counts[i] == 0,
    ensures
        scaling::total_workers(counts) == 0,
    decreases counts.len(),
{
    if counts.len() > 0 {
        lemma_no_heads(counts.drop_last());
    }
}

/// Stage `s` has fewer workers than it starts with.
pub open spec fn understaffed<E>(layout: Layout, roster: Roster<E>) -> spec_fn(int) -> bool {
    |s: int|
        roster.active[s].len() < starting_workers(
            layout.stages@[s],
            layout.stages@.len() as int,
            layout.global_worker_cap,
        )
}

/// The stage that the next worker of the start serves, if one is understaffed.
pub open spec fn next_vacancy<E>(layout: Layout, roster: Roster<E>) -> Option<int> {
    search::first_where(understaffed(layout, roster), 0, layout.stages@.len() as int)
}

/// A worker more in reserve.
pub open spec fn with_spare<E>(roster: Roster<E>) -> Roster<E> {
    Roster {
        parked: roster.parked.push(roster.workers.len() as usize),
        ..crew::hired(roster)
    }
}

/// `count` workers more in reserve.
pub open spec fn with_spares<E>(roster: Roster<E>, count: nat) -> Roster<E>
    decreases count,
{
    if count == 0 {
        roster
    } else {
        with_spare(with_spares(roster, (count - 1) as nat))
    }
}

/// The error of a worker that cannot be put to work any more.
pub open spec fn is_assignment_error<E>(error: PiperError<E>, worker_id: usize) -> bool {
    &&& error is Internal
    &&& error->Internal_worker@ == name_of_worker(worker_id)
    &&& error->Internal_message@ == "cannot assign worker after output sender was dropped"@
}

/// Who takes the new place: the worker that was parked last, or else a new one.
pub open spec fn recruit<E>(roster: Roster<E>) -> (usize, Roster<E>) {
    if roster.parked.len() > 0 {
        (roster.parked.last(), crew::unparked(roster))
    } else {
        (roster.workers.len() as usize, crew::hired(roster))
    }
}

/// How many spares are missing.
pub open spec fn missing_spares<E>(layout: Layout, roster: Roster<E>) -> nat {
    if roster.parked.len() < layout.parked_target {
        (layout.parked_target - roster.parked.len()) as nat
    } else {
        0
    }
}

/// The crew after a stage's growth was begun.
pub open spec fn growing<E>(
    layout: Layout,
    roster: Roster<E>,
    stage_index: usize,
    reason: ScaleReason,
) -> Roster<E> {
    let (worker_id, free) = recruit(roster);
    let busy = Roster {
        pending: Some(
            PendingScale { worker_id, stage_index, direction: ScaleDirection::Add, reason },
        ),
        ..crew::assigned(free, worker_id, stage_index)
    };
    with_spares(busy, missing_spares(layout, busy))
}

/// The worker that a removal means, if there is one: the named one, or else the
/// first of the stage.
pub open spec fn leaver<E>(
    roster: Roster<E>,
    stage_index: usize,
    worker_id: Option<usize>,
) -> Option<usize> {
    match worker_id {
        Some(id) => Some(id),
        None => if roster.active[stage_index as int].len() > 0 {
            Some(roster.active[stage_index as int][0])
        } else {
            None
        },
    }
}

/// The crew after a stage's shrinking was begun.
pub open spec fn shrinking<E>(
    roster: Roster<E>,
    stage_index: usize,
    worker_id: usize,
    reason: ScaleReason,
) -> Roster<E> {
    Roster {
        pending: Some(
            PendingScale { worker_id, stage_index, direction: ScaleDirection::Remove, reason },
        ),
        ..crew::asked_to_retire(roster, worker_id)
    }
}

/// The stage and the worker that an operation names exist.
pub open spec fn operation_fits<E>(roster: Roster<E>, operation: ScaleOperation) -> bool {
    match operation {
        ScaleOperation::Add { stage_index, .. } => stage_index < roster.active.len(),
        ScaleOperation::Remove { stage_index, worker_id, .. } => {
            &&& stage_index < roster.active.len()
            &&& worker_id matches Some(id) ==> id < roster.workers.len()
        },
    }
}

/// The pipeline winds down: it was asked to, or it failed.
pub open spec fn winds_down<E>(roster: Roster<E>, shutdown: bool, abort: bool) -> bool {
    shutdown || abort || roster.failure is Some
}

proof fn lemma_heads(active_by_stage: Seq<Vec<usize>>)
    ensures
        crew::heads(crew::lists(active_by_stage)) == scaling::headcounts(active_by_stage),
{
    assert(crew::heads(crew::lists(active_by_stage)) =~= scaling::headcounts(active_by_stage));
}

proof fn lemma_spares<E>(roster: Roster<E>, count: nat)
    requires
        crew::is_sound(roster),
    ensures
        crew::is_sound(with_spares(roster, count)) || roster.workers.len() + count > usize::MAX,
        with_spares(roster, count).active == roster.active,
        with_spares(roster, count).controls == roster.controls,
        with_spares(roster, count).pending == roster.pending,
        with_spares(roster, count).failure == roster.failure,
        with_spares(roster, count).workers.len() == roster.workers.len() + count,
        with_spares(roster, count).parked.len() == roster.parked.len() + count,
    decreases count,
{
    if count > 0 {
        lemma_spares(roster, (count - 1) as nat);
        let fewer = with_spares(roster, (count - 1) as nat);
        if roster.workers.len() + count <= usize::MAX {
            crew::lemma_hiring(fewer);
        }
    }
}

impl<E> Supervisor<E> {
    /// Puts a worker to work on a stage, unless the links were let go.
    pub fn assign_worker(&mut self, worker_id: usize, stage_index: usize) -> (outcome: Result<
        (),
        PiperError<E>,
    >)
        requires
            worker_id < old(self).crew@.workers.len(),
            stage_index < old(self).crew@.active.len(),
        ensures
            outcome is Ok <==> old(self).holds_links,
            outcome is Ok ==> final(self).crew@ == crew::assigned(
                old(self).crew@,
                worker_id,
                stage_index,
            ),
            outcome matches Err(error) ==> is_assignment_error(error, worker_id)
                && final(self).crew@ == old(self).crew@,
            final(self).layout == old(self).layout,
            final(self).link_controls == old(self).link_controls,
            final(self).holds_links == old(self).holds_links,
    {
        if !self.holds_links {
            return Err(
                PiperError::Internal {
                    worker: worker_name(worker_id),
                    message: "cannot assign worker after output sender was dropped".to_string(),
                },
            );
        }
        self.crew.assign_worker(worker_id, stage_index);
        Ok(())
    }

    /// Hires the next worker of the start: first for the stages, in order, and
    /// then for the reserve. `Ok(None)` says that the start is complete.
    pub fn hire_next(&mut self) -> (outcome: Result<Option<Hire>, PiperError<E>>)
        requires
            old(self).is_sound(),
            crew::at_work(old(self).crew@) < usize::MAX,
        ensures
            ({
                let layout = old(self).layout;
                let before = old(self).crew@;
                let id = before.workers.len() as usize;
                match next_vacancy(layout, before) {
                    Some(s) => if old(self).holds_links {
                        &&& outcome is Ok && outcome->Ok_0 == Some(
                            Hire { worker_id: id, stage_index: Some(s as usize) },
                        )
                        &&& final(self).crew@ == crew::assigned(
                            crew::hired(before),
                            id,
                            s as usize,
                        )
                    } else {
                        &&& outcome is Err && is_assignment_error(outcome->Err_0, id)
                        &&& final(self).crew@ == crew::hired(before)
                    },
                    None => if before.parked.len() < layout.parked_target {
                        &&& outcome is Ok && outcome->Ok_0 == Some(
                            Hire { worker_id: id, stage_index: None },
                        )
                        &&& final(self).crew@ == with_spare(before)
                    } else {
                        &&& outcome is Ok && outcome->Ok_0 is None
                        &&& final(self).crew@ == before
                    },
                }
            }),
            final(self).is_sound(),
            final(self).layout == old(self).layout,
            final(self).link_controls == old(self).link_controls,
            final(self).holds_links == old(self).holds_links,
    {
        let ghost before = self.crew@;
        let ghost p = understaffed(self.layout, before);
        let ghost n = self.layout.stages@.len() as int;
        let stage_count: usize = self.layout.stages.len();
        let mut stage_index: usize = 0;
        while stage_index < stage_count
            invariant
                *self == *old(self),
                self.is_sound(),
                before == self.crew@,
                stage_count == n,
                n == self.layout.stages@.len(),
                stage_index <= n,
                p == understaffed(self.layout, before),
                search::first_where(p, 0, n) == search::first_where(p, stage_index as int, n),
                crew::at_work(before) < usize::MAX,
            decreases n - stage_index,
        {
            let wanted: usize = initial_worker_count(
                &self.layout.stages[stage_index],
                stage_count,
                self.layout.global_worker_cap,
            );
            if self.crew.active_by_stage[stage_index].len() < wanted {
                let worker_id: usize = self.crew.spawn_worker();
                proof {
                    crew::lemma_hiring(before);
                    crew::law_assignment_adds_one_worker(
                        crew::hired(before),
                        worker_id,
                        stage_index,
                    );
                }
                return match self.assign_worker(worker_id, stage_index) {
                    Ok(()) => Ok(Some(Hire { worker_id, stage_index: Some(stage_index) })),
                    Err(error) => Err(error),
                };
            }
            stage_index += 1;
        }
        if self.crew.parked.len() < self.layout.parked_target {
            let worker_id: usize = self.crew.spawn_worker();
            self.crew.parked.push(worker_id);
            proof {
                crew::lemma_hiring(before);
            }
            Ok(Some(Hire { worker_id, stage_index: None }))
        } else {
            Ok(None)
        }
    }

    /// Lets the links go when the pipeline winds down. The answer says whether
    /// the caller has to drop its senders now.
    pub fn release_links(&mut self, shutdown: bool, abort: bool) -> (release: bool)
        ensures
            release == (old(self).holds_links && winds_down(old(self).crew@, shutdown, abort)),
            *final(self) == (Supervisor {
                holds_links: old(self).holds_links && !release,
                ..*old(self)
            }),
    {
        if (shutdown || abort || self.crew.stored_failure.is_some()) && self.holds_links {
            self.holds_links = false;
            true
        } else {
            false
        }
    }

    /// Decides on the next resizing, unless the pipeline winds down or another
    /// resizing is not yet confirmed.
    pub fn plan_scaling(&mut self, shutdown: bool, abort: bool) -> (operation: Option<
        ScaleOperation,
    >)
        requires
            old(self).is_sound(),
        ensures
            ({
                let before = old(self).crew@;
                if winds_down(before, shutdown, abort) || before.pending is Some {
                    operation is None && final(self).crew@ == before
                } else {
                    let d = scaling::decision(
                        seen(old(self).layout, old(self).link_controls@, before),
                        before.controls,
                    );
                    operation == d.0 && final(self).crew@ == (Roster { controls: d.1, ..before })
                }
            }),
            operation matches Some(op) ==> operation_fits(final(self).crew@, op),
            final(self).is_sound(),
            final(self).layout == old(self).layout,
            final(self).link_controls == old(self).link_controls,
            final(self).holds_links == old(self).holds_links,
    {
        if shutdown || abort || self.crew.stored_failure.is_some()
            || self.crew.pending_scale.is_some() {
            return None;
        }
        let ghost before = self.crew@;
        let ghost v = seen(self.layout, self.link_controls@, before);
        proof {
            lemma_heads(self.crew.active_by_stage@);
            assert(self.crew.controls.len() <= usize::MAX);
            scaling::law_decisions_keep_the_measurements(v, before.controls);
            scaling::law_fixed_anchor_is_never_resized(v, before.controls);
            scaling::law_only_a_probe_is_taken_back_by_name(v, before.controls);
        }
        let operation: Option<ScaleOperation> = choose_scale_operation(
            &self.link_controls,
            &self.crew.active_by_stage,
            &mut self.crew.controls,
            &self.layout.stages,
            self.layout.output_link,
            self.layout.global_worker_cap,
        );
        proof {
            let after = self.crew@;
            assert forall|i: int| 0 <= i < after.controls.len() implies crew::probe_exists(
                #[trigger] after.controls[i],
                after.workers.len(),
            ) && belongs(after.controls[i], self.layout.stages@[i]) by {
                assert(scaling::same_stage(before.controls[i], after.controls[i]));
                assert(crew::probe_exists(before.controls[i], before.workers.len()));
                assert(belongs(before.controls[i], self.layout.stages@[i]));
            }
            if let Some(ScaleOperation::Remove { stage_index, worker_id: Some(id), .. }) =
                operation {
                assert(crew::probe_exists(
                    before.controls[stage_index as int],
                    before.workers.len(),
                ));
            }
        }
        operation
    }

    /// Begins a resizing and says what the caller has to do for it.
    pub fn begin_scaling(&mut self, operation: ScaleOperation) -> (outcome: Result<
        ScaleAction,
        PiperError<E>,
    >)
        requires
            old(self).is_sound(),
            operation_fits(old(self).crew@, operation),
            operation is Add ==> crew::at_work(old(self).crew@) < usize::MAX,
        ensures
            ({
                let layout = old(self).layout;
                let before = old(self).crew@;
                match operation {
                    ScaleOperation::Add { stage_index, reason } => {
                        let (worker_id, free) = recruit(before);
                        if old(self).holds_links {
                            let busy = crew::assigned(free, worker_id, stage_index);
                            &&& outcome is Ok && outcome->Ok_0 == (ScaleAction::Assign {
                                worker_id,
                                stage_index,
                                spawn: before.parked.len() == 0,
                                first_spare: busy.workers.len() as usize,
                                spares: missing_spares(layout, busy) as usize,
                            })
                            &&& final(self).crew@ == growing(layout, before, stage_index, reason)
                        } else {
                            &&& outcome is Err && is_assignment_error(outcome->Err_0, worker_id)
                            &&& final(self).crew@ == free
                        }
                    },
                    ScaleOperation::Remove { stage_index, worker_id, reason } => match leaver(
                        before,
                        stage_index,
                        worker_id,
                    ) {
                        Some(id) => if before.workers[id as int].retire is Some {
                            &&& outcome is Ok && outcome->Ok_0 == (ScaleAction::Retire {
                                worker_id: id,
                            })
                            &&& final(self).crew@ == shrinking(before, stage_index, id, reason)
                        } else {
                            &&& outcome is Ok && outcome->Ok_0 == ScaleAction::Nothing
                            &&& final(self).crew@ == before
                        },
                        None => {
                            &&& outcome is Ok && outcome->Ok_0 == ScaleAction::Nothing
                            &&& final(self).crew@ == before
                        },
                    },
                }
            }),
            final(self).is_sound(),
            final(self).layout == old(self).layout,
            final(self).link_controls == old(self).link_controls,
            final(self).holds_links == old(self).holds_links,
    {
        let ghost before = self.crew@;
        match operation {
            ScaleOperation::Add { stage_index, reason } => {
                let spawn: bool = self.crew.parked.len() == 0;
                proof {
                    crew::lemma_hiring(before);
                    if before.parked.len() > 0 {
                        assert(before.parked[before.parked.len() - 1] < before.workers.len());
                        assert forall|i: int|
                            0 <= i < crew::unparked(before).parked.len() implies (
                        #[trigger] crew::unparked(before).parked[i]) < before.workers.len() by {
                            assert(before.parked[i] < before.workers.len());
                        }
                    }
                }
                let worker_id: usize = match self.crew.parked.pop() {
                    Some(worker_id) => worker_id,
                    None => self.crew.spawn_worker(),
                };
                assert(self.crew@ == recruit(before).1);
                proof {
                    crew::law_assignment_adds_one_worker(self.crew@, worker_id, stage_index);
                }
                match self.assign_worker(worker_id, stage_index) {
                    Ok(()) => {},
                    Err(error) => return Err(error),
                }
                self.crew.pending_scale = Some(
                    PendingScale { worker_id, stage_index, direction: ScaleDirection::Add, reason },
                );
                let ghost busy = self.crew@;
                let first_spare: usize = self.crew.workers.len();
                let mut spares: usize = 0;
                let ghost missing = missing_spares(self.layout, busy);
                assert(crew::is_sound(busy));
                while self.crew.parked.len() < self.layout.parked_target
                    invariant
                        self.layout == old(self).layout,
                        self.link_controls == old(self).link_controls,
                        self.holds_links == old(self).holds_links,
                        self.crew@ == with_spares(busy, spares as nat),
                        crew::is_sound(busy),
                        crew::is_sound(self.crew@),
                        missing == missing_spares(self.layout, busy),
                        spares <= missing,
                        self.crew@.parked.len() == busy.parked.len() + spares,
                        missing > 0 ==> busy.parked.len() + missing == self.layout.parked_target,
                        missing == 0 ==> busy.parked.len() >= self.layout.parked_target,
                        missing <= usize::MAX,
                    decreases self.layout.parked_target - self.crew@.parked.len(),
                {
                    let ghost fewer = self.crew@;
                    let spare: usize = self.crew.spawn_worker();
                    self.crew.parked.push(spare);
                    spares = spares + 1;
                    proof {
                        crew::lemma_hiring(fewer);
                        assert(self.crew@ =~= with_spare(fewer));
                    }
                }
                proof {
                    lemma_spares(busy, spares as nat);
                }
                Ok(ScaleAction::Assign { worker_id, stage_index, spawn, first_spare, spares })
            },
            ScaleOperation::Remove { stage_index, worker_id, reason } => {
                let leaving: Option<usize> = match worker_id {
                    Some(id) => Some(id),
                    None => if self.crew.active_by_stage[stage_index].len() > 0 {
                        assert(before.active[stage_index as int][0] < before.workers.len());
                        Some(self.crew.active_by_stage[stage_index][0])
                    } else {
                        None
                    },
                };
                if let Some(id) = leaving {
                    if self.crew.retire_worker(id) {
                        self.crew.pending_scale = Some(
                            PendingScale {
                                worker_id: id,
                                stage_index,
                                direction: ScaleDirection::Remove,
                                reason,
                            },
                        );
                        return Ok(ScaleAction::Retire { worker_id: id });
                    }
                }
                Ok(ScaleAction::Nothing)
            },
        }
    }

    /// Whether the supervisor is done: the pipeline winds down and nobody works.
    pub fn should_stop(&self, shutdown: bool, abort: bool) -> (stop: bool)
        requires
            crew::at_work(self.crew@) <= usize::MAX,
        ensures
            stop == (winds_down(self.crew@, shutdown, abort) && crew::at_work(self.crew@) == 0),
    {
        proof {
            lemma_heads(self.crew.active_by_stage@);
        }
        (shutdown || abort || self.crew.stored_failure.is_some()) && active_worker_count(
            &self.crew.active_by_stage,
        ) == 0
    }

    /// Takes the parked workers out, in order; each is to be told to stop.
    pub fn dismiss_parked(&mut self) -> (workers: Vec<usize>)
        ensures
            workers@ == old(self).crew@.parked,
            final(self).crew@ == (Roster { parked: Seq::empty(), ..old(self).crew@ }),
            final(self).layout == old(self).layout,
            final(self).link_controls == old(self).link_controls,
            final(self).holds_links == old(self).holds_links,
    {
        let mut workers: Vec<usize> = Vec::new();
        workers.append(&mut self.crew.parked);
        workers
    }

    /// How the pipeline ended: with the failure that was stored last, if any.
    pub fn outcome(self) -> (outcome: Result<(), PiperError<E>>)
        ensures
            match self.crew@.failure {
                Some(cause) => outcome is Err && crew::is_error_of(outcome->Err_0, cause),
                None => outcome is Ok,
            },
    {
        match self.crew.stored_failure {
            Some(cause) => Err(cause.into_error()),
            None => Ok(()),
        }
    }
}

/// The stages' memories after a round of samples.
pub open spec fn sampled(
    controls: Seq<StageControl>,
    samples: Seq<StageSample>,
    busy: Seq<BusyBand>,
    links: Seq<LinkControl>,
    stages: Seq<RuntimeStage>,
) -> Seq<StageControl> {
    Seq::new(
        controls.len(),
        |i: int|
            if i < samples.len() {
                control::after_sample(
                    controls[i],
                    samples[i],
                    busy[i],
                    links[stages[i].input_link as int].trend,
                    links[stages[i].output_link as int].trend,
                )
            } else {
                controls[i]
            },
    )
}

/// The stages' memories with their wanted worker counts renewed.
pub open spec fn rated(
    controls: Seq<StageControl>,
    by_rate: Seq<Option<usize>>,
    links: Seq<LinkControl>,
    active: Seq<Seq<usize>>,
    stages: Seq<RuntimeStage>,
) -> Seq<StageControl> {
    Seq::new(
        controls.len(),
        |i: int|
            StageControl {
                desired_workers: control::wanted_workers(
                    by_rate[i],
                    links[stages[i].input_link as int].trend,
                    active[i].len() as usize,
                ),
                ..controls[i]
            },
    )
}

impl<E> Supervisor<E> {
    /// Takes the workers' reports in. The answer says whether the pipeline has to
    /// abort.
    pub fn drain_worker_events(&mut self, events: Vec<WorkerEvent<E>>) -> (abort: bool)
        requires
            old(self).is_sound(),
            crew::events_fit(
                events@,
                old(self).crew@.workers.len() as int,
                old(self).crew@.active.len() as int,
            ),
        ensures
            final(self).crew@ == crew::after_events(old(self).crew@, events@),
            abort == crew::any_failed(events@),
            final(self).is_sound(),
            final(self).layout == old(self).layout,
            final(self).link_controls == old(self).link_controls,
            final(self).holds_links == old(self).holds_links,
    {
        let ghost before = self.crew@;
        let abort: bool = self.crew.drain_worker_events(events);
        proof {
            lemma_events_keep_belonging(before, events@, self.layout.stages@);
        }
        abort
    }

    /// Takes the machinery's failures in. The answer says whether the pipeline
    /// has to abort.
    pub fn drain_internal_failures(&mut self, failures: Vec<InternalFailure>) -> (abort: bool)
        requires
            old(self).is_sound(),
        ensures
            final(self).crew@ == crew::after_failures(old(self).crew@, failures@),
            abort == (failures@.len() > 0),
            final(self).is_sound(),
            final(self).layout == old(self).layout,
            final(self).link_controls == old(self).link_controls,
            final(self).holds_links == old(self).holds_links,
    {
        self.crew.drain_internal_failures(failures)
    }

    /// Takes one reading per link in and returns what moved over each of them.
    pub fn read_links(&mut self, readings: &Vec<LinkReading>) -> (deltas: Vec<LinkDelta>)
        requires
            old(self).is_sound(),
            readings@.len() == old(self).link_controls@.len(),
        ensures
            final(self).link_controls@ == Seq::new(
                readings@.len(),
                |i: int| trend::link_after_reading(old(self).link_controls@[i], readings@[i]),
            ),
            deltas@ == Seq::new(
                readings@.len(),
                |i: int|
                    LinkDelta {
                        arrivals: trend::rise(
                            old(self).link_controls@[i].last_arrivals,
                            readings@[i].arrivals,
                        ),
                        drains: trend::rise(
                            old(self).link_controls@[i].last_drains,
                            readings@[i].drains,
                        ),
                    },
            ),
            final(self).is_sound(),
            final(self).layout == old(self).layout,
            final(self).crew == old(self).crew,
            final(self).holds_links == old(self).holds_links,
    {
        sample_links(readings, &mut self.link_controls)
    }

    /// Sets the links' trends from their smoothed rates.
    pub fn judge_links(&mut self, rates: &Vec<LinkRates>)
        requires
            old(self).is_sound(),
            rates@.len() == old(self).link_controls@.len(),
            forall|i: int|
                0 <= i < rates@.len() ==> (#[trigger] old(self).link_controls@[i]).len
                    <= isize::MAX && old(self).link_controls@[i].previous_len <= isize::MAX,
        ensures
            final(self).link_controls@ == Seq::new(
                rates@.len(),
                |i: int| trend::link_after_rates(old(self).link_controls@[i], rates@[i]),
            ),
            final(self).is_sound(),
            final(self).layout == old(self).layout,
            final(self).crew == old(self).crew,
            final(self).holds_links == old(self).holds_links,
    {
        classify_links(rates, &mut self.link_controls);
    }

    /// Takes what the workers of each stage counted, and has them start anew. Those
    /// of other workers are left.
    pub fn collect_parts(&self, stats: &Vec<Arc<WorkerStats>>) -> (parts: Vec<Vec<StageSample>>)
        requires
            self.is_sound(),
            stats@.len() == self.crew@.workers.len(),
        ensures
            parts@.len() == self.crew@.active.len(),
            forall|s: int|
                0 <= s < parts@.len() ==> are_taken_from(
                    #[trigger] parts@[s]@,
                    self.crew@.active[s],
                    stats@,
                ),
    {
        let mut parts: Vec<Vec<StageSample>> = Vec::new();
        let mut stage: usize = 0;
        while stage < self.crew.active_by_stage.len()
            invariant
                self.is_sound(),
                stats@.len() == self.crew@.workers.len(),
                stage <= self.crew@.active.len(),
                self.crew@.active.len() == self.crew.active_by_stage@.len(),
                parts@.len() == stage,
                forall|s: int|
                    0 <= s < parts@.len() ==> are_taken_from(
                        #[trigger] parts@[s]@,
                        self.crew@.active[s],
                        stats@,
                    ),
            decreases self.crew@.active.len() - stage,
        {
            let workers: &Vec<usize> = &self.crew.active_by_stage[stage];
            assert(workers@ == self.crew@.active[stage as int]);
            let mut taken: Vec<StageSample> = Vec::new();
            let mut index: usize = 0;
            while index < workers.len()
                invariant
                    self.is_sound(),
                    stats@.len() == self.crew@.workers.len(),
                    stage < self.crew@.active.len(),
                    workers@ == self.crew@.active[stage as int],
                    index <= workers@.len(),
                    taken@.len() == index,
                    forall|k: int|
                        0 <= k < index ==> stats@[workers@[k] as int].may_yield(
                            #[trigger] taken@[k],
                        ),
                decreases workers@.len() - index,
            {
                assert(self.crew@.active[stage as int][index as int] < self.crew@.workers.len());
                taken.push(stats[workers[index]].take());
                index += 1;
            }
            parts.push(taken);
            stage += 1;
        }
        parts
    }

    /// Takes one sample per stage in.
    pub fn take_samples(&mut self, samples: &Vec<StageSample>, busy: &Vec<BusyBand>)
        requires
            old(self).is_sound(),
            samples@.len() == old(self).layout.stages@.len(),
            busy@.len() == samples@.len(),
        ensures
            final(self).crew@ == (Roster {
                controls: sampled(
                    old(self).crew@.controls,
                    samples@,
                    busy@,
                    old(self).link_controls@,
                    old(self).layout.stages@,
                ),
                ..old(self).crew@
            }),
            final(self).is_sound(),
            final(self).layout == old(self).layout,
            final(self).link_controls == old(self).link_controls,
            final(self).holds_links == old(self).holds_links,
    {
        let ghost before = self.crew@;
        collect_stage_samples(
            samples,
            busy,
            &self.link_controls,
            &self.layout.stages,
            &mut self.crew.controls,
        );
        proof {
            let after = self.crew@;
            assert forall|i: int| 0 <= i < after.controls.len() implies crew::probe_exists(
                #[trigger] after.controls[i],
                after.workers.len(),
            ) && belongs(after.controls[i], self.layout.stages@[i]) by {
                assert(crew::probe_exists(before.controls[i], before.workers.len()));
                assert(belongs(before.controls[i], self.layout.stages@[i]));
            }
        }
    }

    /// Renews the stages' wanted worker counts.
    pub fn rate_stages(&mut self, by_rate: &Vec<Option<usize>>)
        requires
            old(self).is_sound(),
            by_rate@.len() == old(self).layout.stages@.len(),
        ensures
            final(self).crew@ == (Roster {
                controls: rated(
                    old(self).crew@.controls,
                    by_rate@,
                    old(self).link_controls@,
                    old(self).crew@.active,
                    old(self).layout.stages@,
                ),
                ..old(self).crew@
            }),
            final(self).is_sound(),
            final(self).layout == old(self).layout,
            final(self).link_controls == old(self).link_controls,
            final(self).holds_links == old(self).holds_links,
    {
        let ghost before = self.crew@;
        update_desired_workers(
            by_rate,
            &self.link_controls,
            &self.crew.active_by_stage,
            &self.layout.stages,
            &mut self.crew.controls,
        );
        proof {
            let after = self.crew@;
            assert(after.controls =~= rated(
                before.controls,
                by_rate@,
                self.link_controls@,
                before.active,
                self.layout.stages@,
            ));
            assert forall|i: int| 0 <= i < after.controls.len() implies crew::probe_exists(
                #[trigger] after.controls[i],
                after.workers.len(),
            ) && belongs(after.controls[i], self.layout.stages@[i]) by {
                assert(crew::probe_exists(before.controls[i], before.workers.len()));
                assert(belongs(before.controls[i], self.layout.stages@[i]));
            }
        }
    }
}

proof fn lemma_events_keep_belonging<E>(
    roster: Roster<E>,
    events: Seq<WorkerEvent<E>>,
    stages: Seq<RuntimeStage>,
)
    requires
        crew::is_sound(roster),
        crew::events_fit(events, roster.workers.len() as int, roster.active.len() as int),
        roster.controls.len() <= stages.len(),
        forall|i: int|
            0 <= i < roster.controls.len() ==> belongs(#[trigger] roster.controls[i], stages[i]),
    ensures
        ({
            let next = crew::after_events(roster, events);
            &&& next.controls.len() == roster.controls.len()
            &&& next.workers.len() == roster.workers.len()
            &&& next.active.len() == roster.active.len()
            &&& crew::is_sound(next)
            &&& forall|i: int|
                0 <= i < next.controls.len() ==> belongs(#[trigger] next.controls[i], stages[i])
        }),
    decreases events.len(),
{
    if events.len() > 0 {
        let earlier = events.drop_last();
        assert(crew::events_fit(earlier, roster.workers.len() as int, roster.active.len() as int))
            by {
            assert forall|i: int| 0 <= i < earlier.len() implies crew::event_fits(
                #[trigger] earlier[i],
                roster.workers.len() as int,
                roster.active.len() as int,
            ) by {
                assert(crew::event_fits(
                    events[i],
                    roster.workers.len() as int,
                    roster.active.len() as int,
                ));
            }
        }
        lemma_events_keep_belonging(roster, earlier, stages);
        let middle = crew::after_events(roster, earlier);
        assert(crew::event_fits(
            events[events.len() - 1],
            roster.workers.len() as int,
            roster.active.len() as int,
        ));
        crew::law_events_keep_a_crew_sound(middle, events.last());
        let next = crew::after_event(middle, events.last());
        assert forall|i: int| 0 <= i < next.controls.len() implies belongs(
            #[trigger] next.controls[i],
            stages[i],
        ) by {
            assert(belongs(middle.controls[i], stages[i]));
        }
    }
}

/// The number of workers that the stages start with in all.
pub open spec fn starting_total(
    stages: Seq<RuntimeStage>,
    stage_count: int,
    cap: usize,
) -> int
    decreases stages.len(),
{
    if stages.len() == 0 {
        0
    } else {
        starting_total(stages.drop_last(), stage_count, cap) + starting_workers(
            stages.last(),
            stage_count,
            cap,
        )
    }
}

proof fn lemma_unanchored_total(stages: Seq<RuntimeStage>, stage_count: int, cap: usize)
    requires
        forall|i: int| 0 <= i < stages.len() ==> (#[trigger] stages[i]).anchor is None,
    ensures
        starting_total(stages, stage_count, cap) == stages.len(),
    decreases stages.len(),
{
    if stages.len() > 0 {
        lemma_unanchored_total(stages.drop_last(), stage_count, cap);
    }
}

proof fn lemma_one_anchor_total(stages: Seq<RuntimeStage>, stage_count: int, cap: usize, a: int)
    requires
        0 <= a < stages.len(),
        forall|i: int| 0 <= i < stages.len() && i != a ==> (#[trigger] stages[i]).anchor is None,
    ensures
        starting_total(stages, stage_count, cap) == stages.len() - 1 + starting_workers(
            stages[a],
            stage_count,
            cap,
        ),
    decreases stages.len(),
{
    if a == stages.len() - 1 {
        lemma_unanchored_total(stages.drop_last(), stage_count, cap);
    } else {
        lemma_one_anchor_total(stages.drop_last(), stage_count, cap, a);
    }
}

/// A pipeline with a single anchor, and not a fixed one, starts within a cap that
/// leaves each stage a worker.
pub proof fn law_single_anchor_starts_within_the_cap(
    stages: Seq<RuntimeStage>,
    cap: usize,
    a: int,
)
    requires
        0 <= a < stages.len() <= cap,
        !is_fixed_stage(stages[a]),
        forall|i: int| 0 <= i < stages.len() && i != a ==> (#[trigger] stages[i]).anchor is None,
    ensures
        starting_total(stages, stages.len() as int, cap) <= cap,
{
    lemma_one_anchor_total(stages, stages.len() as int, cap, a);
}

/// The start never gives a stage more workers than it starts with, and once no
/// place is vacant every stage has exactly that many.
pub proof fn law_start_staffs_each_stage_exactly<E>(layout: Layout, roster: Roster<E>)
    requires
        roster.active.len() == layout.stages@.len(),
        roster.active.len() <= usize::MAX,
        forall|s: int|
            0 <= s < roster.active.len() ==> (#[trigger] roster.active[s]).len()
                <= starting_workers(
                layout.stages@[s],
                layout.stages@.len() as int,
                layout.global_worker_cap,
            ),
    ensures
        ({
            let n = layout.stages@.len() as int;
            let cap = layout.global_worker_cap;
            match next_vacancy(layout, roster) {
                Some(v) => {
                    let next = crew::assigned(
                        crew::hired(roster),
                        roster.workers.len() as usize,
                        v as usize,
                    );
                    &&& 0 <= v < n
                    &&& forall|s: int|
                        0 <= s < n ==> (#[trigger] next.active[s]).len() <= starting_workers(
                            layout.stages@[s],
                            n,
                            cap,
                        )
                },
                None => forall|s: int|
                    0 <= s < n ==> (#[trigger] roster.active[s]).len() == starting_workers(
                        layout.stages@[s],
                        n,
                        cap,
                    ),
            }
        }),
{
    let p = understaffed(layout, roster);
    let n = layout.stages@.len() as int;
    search::lemma_first_where_holds(p, 0, n);
    if next_vacancy(layout, roster) is None {
        assert forall|s: int| 0 <= s < n implies (#[trigger] roster.active[s]).len()
            == starting_workers(layout.stages@[s], n, layout.global_worker_cap) by {
            assert(!p(s));
        }
    } else {
        assert(p(next_vacancy(layout, roster)->0));
    }
}

/// A growth that was decided on ends with no more workers at work than the cap.
pub proof fn law_growth_ends_within_the_cap<E>(
    layout: Layout,
    links: Seq<LinkControl>,
    roster: Roster<E>,
)
    requires
        crew::is_sound(roster),
        roster.controls.len() <= usize::MAX,
        roster.workers.len() < usize::MAX,
    ensures
        scaling::decision(seen(layout, links, roster), roster.controls).0 matches Some(
            ScaleOperation::Add { stage_index, reason },
        ) ==> {
            let next = growing(
                layout,
                Roster {
                    controls: scaling::decision(seen(layout, links, roster), roster.controls).1,
                    ..roster
                },
                stage_index,
                reason,
            );
            &&& crew::at_work(next) == crew::at_work(roster) + 1
            &&& crew::at_work(next) <= layout.global_worker_cap
        },
{
    let v = seen(layout, links, roster);
    scaling::law_growth_stays_under_the_cap(v, roster.controls);
    scaling::law_fixed_anchor_is_never_resized(v, roster.controls);
    scaling::law_decisions_keep_the_measurements(v, roster.controls);
    let d = scaling::decision(v, roster.controls);
    if let Some(ScaleOperation::Add { stage_index, reason }) = d.0 {
        let planned = Roster { controls: d.1, ..roster };
        assert(crew::is_sound(planned)) by {
            assert forall|s: int| 0 <= s < planned.controls.len() implies crew::probe_exists(
                #[trigger] planned.controls[s],
                planned.workers.len(),
            ) by {
                assert(scaling::same_stage(roster.controls[s], planned.controls[s]));
                assert(crew::probe_exists(roster.controls[s], roster.workers.len()));
            }
        }
        lemma_growing(layout, planned, stage_index, reason);
    }
}

proof fn lemma_recruit<E>(roster: Roster<E>)
    requires
        crew::is_sound(roster),
        roster.workers.len() < usize::MAX,
    ensures
        crew::is_sound(recruit(roster).1),
        recruit(roster).0 < recruit(roster).1.workers.len(),
        crew::at_work(recruit(roster).1) == crew::at_work(roster),
        recruit(roster).1.active == roster.active,
{
    crew::lemma_hiring(roster);
    if roster.parked.len() > 0 {
        assert(roster.parked[roster.parked.len() - 1] < roster.workers.len());
        assert forall|i: int| 0 <= i < crew::unparked(roster).parked.len() implies (
        #[trigger] crew::unparked(roster).parked[i]) < roster.workers.len() by {
            assert(roster.parked[i] < roster.workers.len());
        }
    }
}

proof fn lemma_growing<E>(
    layout: Layout,
    roster: Roster<E>,
    stage_index: usize,
    reason: ScaleReason,
)
    requires
        crew::is_sound(roster),
        stage_index < roster.active.len(),
        roster.workers.len() < usize::MAX,
    ensures
        crew::at_work(growing(layout, roster, stage_index, reason)) == crew::at_work(roster) + 1,
        growing(layout, roster, stage_index, reason).pending is Some,
{
    lemma_recruit(roster);
    let (worker_id, free) = recruit(roster);
    crew::law_assignment_adds_one_worker(free, worker_id, stage_index);
    let busy = Roster {
        pending: Some(
            PendingScale { worker_id, stage_index, direction: ScaleDirection::Add, reason },
        ),
        ..crew::assigned(free, worker_id, stage_index)
    };
    assert(crew::is_sound(busy));
    lemma_spares(busy, missing_spares(layout, busy));
}

/// A begun growth leaves every worker in exactly one place.
pub proof fn law_growth_keeps_everyone_placed<E>(
    layout: Layout,
    roster: Roster<E>,
    stage_index: usize,
    reason: ScaleReason,
)
    requires
        crew::is_sound(roster),
        crew::everyone_is_placed(roster),
        stage_index < roster.active.len(),
        roster.active.len() <= usize::MAX,
        roster.workers.len() + 1 + layout.parked_target <= usize::MAX,
    ensures
        crew::everyone_is_placed(growing(layout, roster, stage_index, reason)),
{
    lemma_recruit(roster);
    let (worker_id, free) = recruit(roster);
    if roster.parked.len() > 0 {
        crew::law_unparked_worker_is_placed(roster, stage_index);
    } else {
        crew::law_new_worker_is_placed(roster, stage_index);
    }
    crew::law_assignment_adds_one_worker(free, worker_id, stage_index);
    let busy = Roster {
        pending: Some(
            PendingScale { worker_id, stage_index, direction: ScaleDirection::Add, reason },
        ),
        ..crew::assigned(free, worker_id, stage_index)
    };
    assert(crew::is_sound(busy));
    assert(crew::everyone_is_placed(busy));
    lemma_spares_are_placed(busy, missing_spares(layout, busy));
}

proof fn lemma_spares_are_placed<E>(roster: Roster<E>, count: nat)
    requires
        crew::is_sound(roster),
        crew::everyone_is_placed(roster),
        roster.workers.len() + count <= usize::MAX,
    ensures
        crew::is_sound(with_spares(roster, count)),
        crew::everyone_is_placed(with_spares(roster, count)),
    decreases count,
{
    lemma_spares(roster, count);
    if count > 0 {
        lemma_spares_are_placed(roster, (count - 1) as nat);
        lemma_spares(roster, (count - 1) as nat);
        crew::law_spare_worker_is_placed(with_spares(roster, (count - 1) as nat));
    }
}

/// A begun shrinking leaves every worker in exactly one place.
pub proof fn law_shrinking_keeps_everyone_placed<E>(
    roster: Roster<E>,
    stage_index: usize,
    worker_id: usize,
    reason: ScaleReason,
)
    requires
        crew::everyone_is_placed(roster),
        worker_id < roster.workers.len(),
    ensures
        crew::everyone_is_placed(shrinking(roster, stage_index, worker_id, reason)),
{
    let next = shrinking(roster, stage_index, worker_id, reason);
    assert forall|w: usize| w < next.workers.len() implies #[trigger] next.workers[
        w as int
    ].active_stage == roster.workers[w as int].active_stage by {}
    assert forall|w: usize| w < next.workers.len() implies (
    #[trigger] next.workers[w as int].active_stage is None <==> next.parked.contains(w)) by {
        assert(roster.workers[w as int].active_stage is None <==> roster.parked.contains(w));
    }
    assert forall|w: usize|
        w < next.workers.len() && (#[trigger] next.workers[w as int].active_stage) is Some implies
    next.workers[w as int].active_stage->0 < next.active.len() && next.workers[w as int].retire
        is Some by {
        assert(roster.workers[w as int].active_stage is Some);
    }
    assert forall|w: usize, s: int|
        w < next.workers.len() && 0 <= s < next.active.len() implies (
    #[trigger] next.active[s].contains(w) <==> next.workers[w as int].active_stage == Some(
        s as usize,
    )) by {
        assert(roster.active[s].contains(w) <==> roster.workers[w as int].active_stage == Some(
            s as usize,
        ));
    }
}

/// One resizing at a time: what begins a resizing leaves it pending.
pub proof fn law_begun_resizing_is_pending<E>(
    layout: Layout,
    roster: Roster<E>,
    stage_index: usize,
    worker_id: usize,
    reason: ScaleReason,
)
    requires
        crew::is_sound(roster),
        stage_index < roster.active.len(),
        roster.workers.len() < usize::MAX,
    ensures
        growing(layout, roster, stage_index, reason).pending is Some,
        shrinking(roster, stage_index, worker_id, reason).pending is Some,
{
    lemma_growing(layout, roster, stage_index, reason);
}

/// A worker that failed fails the pipeline: whatever happens afterwards, a
/// failure stays stored.
pub proof fn law_failed_worker_fails_the_pipeline<E>(
    roster: Roster<E>,
    events: Seq<WorkerEvent<E>>,
)
    ensures
        crew::any_failed(events) || roster.failure is Some <==> crew::after_events(
            roster,
            events,
        ).failure is Some,
    decreases events.len(),
{
    if events.len() > 0 {
        let earlier = events.drop_last();
        law_failed_worker_fails_the_pipeline(roster, earlier);
        if crew::any_failed(earlier) {
            let i = choose|i: int| 0 <= i < earlier.len() && (#[trigger] earlier[i]) is Failed;
            assert(events[i] is Failed);
        }
        if events.last() is Failed {
            assert(events[events.len() - 1] is Failed);
        } else if crew::any_failed(events) {
            let i = choose|i: int| 0 <= i < events.len() && (#[trigger] events[i]) is Failed;
            assert(earlier[i] is Failed);
        }
    }
}

/// A fixed anchor keeps its workers through every resizing that is decided on.
pub proof fn law_fixed_anchor_keeps_its_workers<E>(
    layout: Layout,
    links: Seq<LinkControl>,
    roster: Roster<E>,
    fixed: int,
)
    requires
        crew::is_sound(roster),
        roster.controls.len() <= usize::MAX,
        roster.workers.len() < usize::MAX,
        0 <= fixed < roster.controls.len(),
        scaling::is_fixed(roster.controls[fixed]),
    ensures
        scaling::decision(seen(layout, links, roster), roster.controls).0 matches Some(operation)
            ==> match operation {
            ScaleOperation::Add { stage_index, reason } => growing(
                layout,
                roster,
                stage_index,
                reason,
            ).active[fixed] == roster.active[fixed],
            ScaleOperation::Remove { stage_index, .. } => stage_index != fixed,
        },
{
    let v = seen(layout, links, roster);
    scaling::law_fixed_anchor_is_never_resized(v, roster.controls);
    let d = scaling::decision(v, roster.controls);
    if let Some(ScaleOperation::Add { stage_index, reason }) = d.0 {
        lemma_recruit(roster);
        let (worker_id, free) = recruit(roster);
        crew::law_assignment_adds_one_worker(free, worker_id, stage_index);
        let busy = Roster {
            pending: Some(
                PendingScale { worker_id, stage_index, direction: ScaleDirection::Add, reason },
            ),
            ..crew::assigned(free, worker_id, stage_index)
        };
        assert(crew::is_sound(busy));
        lemma_spares(busy, missing_spares(layout, busy));
    }
}

/// A stage starts with one worker; a fixed anchor with its own number; any other
/// anchor with no more than its initial number, no more than its bound and no more
/// than the cap leaves beside one worker for each other stage, and with the most of
/// which all this holds, one worker always being left to it.
pub proof fn law_stage_starts_with_its_share(
    stage: RuntimeStage,
    stage_count: usize,
    cap: usize,
    count: usize,
)
    requires
        stage_count > 0,
        call_ensures(initial_worker_count, (&stage, stage_count, cap), count),
    ensures
        stage.anchor is None ==> count == 1,
        stage.anchor matches Some(anchor) ==> {
            &&& anchor.fixed_threads matches Some(threads) ==> count == threads
            &&& anchor.fixed_threads is None ==> {
                &&& count <= anchor.initial_threads
                &&& count <= anchor.max_threads
                &&& count > 1 ==> count + stage_count - 1 <= cap
                &&& count == anchor.initial_threads || count == anchor.max_threads || count == 1
                    || count + stage_count - 1 == cap
                &&& count == 0 ==> anchor.initial_threads == 0 || anchor.max_threads == 0
                &&& count == 1 ==> anchor.initial_threads == 1 || anchor.max_threads == 1 || cap
                    <= stage_count
            }
        },
{
}

/// One worker is kept in reserve for each stage that is not a fixed anchor, and for
/// no other: one more stage adds one, and one more fixed anchor none.
pub proof fn law_reserve_counts_the_stages(
    fewer: Vec<RuntimeStage>,
    stages: Vec<RuntimeStage>,
    target_of_fewer: usize,
    target: usize,
)
    requires
        call_ensures(parked_worker_target, (&fewer,), target_of_fewer),
        call_ensures(parked_worker_target, (&stages,), target),
    ensures
        stages@.len() == 0 ==> target == 0,
        stages@.len() > 0 && fewer@ == stages@.drop_last() ==> match stages@.last().anchor {
            Some(anchor) => target == target_of_fewer + if anchor.fixed_threads is Some {
                0int
            } else {
                1
            },
            None => target == target_of_fewer + 1,
        },
{
}

/// The name of a worker's thread ends in the worker's number.
pub proof fn law_worker_is_named_by_its_number(worker_id: usize, name: String)
    requires
        call_ensures(worker_name, (worker_id,), name),
    ensures
        name@.len() == 13 + text::decimal(worker_id as nat).len(),
        name@.take(13) == "piper-worker-"@,
        name@.skip(13) == text::decimal(worker_id as nat),
{
    reveal_strlit("piper-worker-");
    assert(name@.take(13) =~= "piper-worker-"@);
    assert(name@.skip(13) =~= text::decimal(worker_id as nat));
}

/// The input stages are those that read the pipeline's own input link.
pub proof fn law_input_stage_reads_the_input<E>(
    supervisor: Supervisor<E>,
    stage_index: usize,
    yes: bool,
)
    requires
        stage_index < supervisor.layout.stages@.len(),
        call_ensures(Supervisor::<E>::is_input_stage, (&supervisor, stage_index), yes),
    ensures
        yes <==> supervisor.layout.stages@[stage_index as int].input_link
            == supervisor.layout.input_link,
{
}

/// A new supervisor knows the pipeline as it was laid out, has nobody at work and
/// nothing under way, holds the links, and is to keep one worker in reserve for each
/// stage that can be resized.
pub proof fn law_new_supervisor_has_nobody<E>(
    stages: Vec<RuntimeStage>,
    input_link: usize,
    output_link: usize,
    link_count: usize,
    global_worker_cap: usize,
    supervisor: Supervisor<E>,
    i: int,
)
    requires
        call_ensures(
            Supervisor::<E>::new,
            (stages, input_link, output_link, link_count, global_worker_cap),
            supervisor,
        ),
    ensures
        supervisor.layout.stages@ == stages@,
        supervisor.layout.input_link == input_link,
        supervisor.layout.output_link == output_link,
        supervisor.layout.global_worker_cap == global_worker_cap,
        supervisor.layout.parked_target == resizable(stages@),
        supervisor.holds_links,
        supervisor.crew@.workers.len() == 0,
        supervisor.crew@.parked.len() == 0,
        supervisor.crew@.pending is None,
        supervisor.crew@.failure is None,
        supervisor.crew@.active.len() == stages@.len(),
        supervisor.crew@.controls.len() == stages@.len(),
        supervisor.link_controls@.len() == link_count,
        0 <= i < stages@.len() ==> supervisor.crew@.active[i].len() == 0,
        0 <= i < stages@.len() ==> supervisor.crew@.controls[i] == control::fresh_control(
            stages@[i],
        ),
        0 <= i < link_count ==> supervisor.link_controls@[i].len == 0
            && supervisor.link_controls@[i].last_arrivals == 0
            && supervisor.link_controls@[i].last_drains == 0,
{
}

/// A worker is put to work while the links are held: it joins its stage's list and
/// nobody else moves. Afterwards it is refused and nothing changes.
pub proof fn law_worker_joins_while_links_are_held<E>(
    supervisor: &mut Supervisor<E>,
    worker_id: usize,
    stage_index: usize,
    outcome: Result<(), PiperError<E>>,
)
    requires
        worker_id < old(supervisor).crew@.workers.len(),
        stage_index < old(supervisor).crew@.active.len(),
        call_ensures(
            Supervisor::<E>::assign_worker,
            (supervisor, worker_id, stage_index),
            outcome,
        ),
    ensures
        ({
            let before = old(supervisor).crew@;
            let after = final(supervisor).crew@;
            &&& outcome is Ok <==> old(supervisor).holds_links
            &&& outcome is Ok ==> {
                &&& after.active[stage_index as int] == before.active[stage_index as int].push(
                    worker_id,
                )
                &&& after.workers[worker_id as int].active_stage == Some(stage_index)
                &&& after.workers[worker_id as int].retire == Some(false)
                &&& forall|s: int|
                    0 <= s < before.active.len() && s != stage_index ==> #[trigger] after.active[s]
                        == before.active[s]
                &&& after.parked == before.parked
            }
            &&& outcome is Err ==> after == before && outcome->Err_0 is Internal
        }),
{
}

/// The links are let go once, when the pipeline is asked to stop, aborts or failed.
pub proof fn law_links_are_let_go_once<E>(
    supervisor: &mut Supervisor<E>,
    shutdown: bool,
    abort: bool,
    release: bool,
)
    requires
        call_ensures(Supervisor::<E>::release_links, (supervisor, shutdown, abort), release),
    ensures
        release <==> old(supervisor).holds_links && (shutdown || abort
            || old(supervisor).crew@.failure is Some),
        release ==> !final(supervisor).holds_links,
        !release ==> *final(supervisor) == *old(supervisor),
        final(supervisor).crew == old(supervisor).crew,
        final(supervisor).layout == old(supervisor).layout,
        final(supervisor).link_controls == old(supervisor).link_controls,
{
}

/// No resizing is decided while the pipeline winds down or another resizing is under
/// way, and nothing changes then. Otherwise the rules decide on what the supervisor
/// knows: its links, the number of workers on each list, the stages, the output and
/// the cap. They move nobody.
pub proof fn law_rules_decide_one_resizing_at_a_time<E>(
    supervisor: &mut Supervisor<E>,
    shutdown: bool,
    abort: bool,
    operation: Option<ScaleOperation>,
)
    requires
        old(supervisor).is_sound(),
        call_ensures(Supervisor::<E>::plan_scaling, (supervisor, shutdown, abort), operation),
    ensures
        ({
            let before = old(supervisor).crew@;
            let after = final(supervisor).crew@;
            let known = scaling::picture(
                old(supervisor).link_controls@,
                Seq::new(before.active.len(), |s: int| before.active[s].len()),
                old(supervisor).layout.stages@,
                old(supervisor).layout.output_link,
                old(supervisor).layout.global_worker_cap,
            );
            let idle = shutdown || abort || before.failure is Some || before.pending is Some;
            &&& idle ==> operation is None && after == before
            &&& !idle ==> operation == scaling::decision(known, before.controls).0
            &&& !idle ==> after.controls == scaling::decision(known, before.controls).1
            &&& after.active == before.active && after.workers == before.workers && after.parked
                == before.parked && after.pending == before.pending && after.failure
                == before.failure
        }),
{
    let before = old(supervisor).crew@;
    assert(crew::heads(before.active) =~= Seq::new(
        before.active.len(),
        |s: int| before.active[s].len(),
    ));
}

proof fn lemma_spares_are_listed<E>(roster: Roster<E>, count: nat, k: int)
    requires
        roster.workers.len() + count <= usize::MAX,
    ensures
        ({
            let after = with_spares(roster, count);
            &&& after.workers.len() == roster.workers.len() + count
            &&& after.parked.len() == roster.parked.len() + count
            &&& 0 <= k < roster.parked.len() ==> after.parked[k] == roster.parked[k]
            &&& 0 <= k < count ==> after.parked[roster.parked.len() + k] == roster.workers.len() + k
            &&& 0 <= k < roster.workers.len() ==> after.workers[k] == roster.workers[k]
            &&& roster.workers.len() <= k < after.workers.len() ==> after.workers[k].active_stage
                is None
            &&& after.active == roster.active
            &&& after.controls == roster.controls
            &&& after.pending == roster.pending
            &&& after.failure == roster.failure
        }),
    decreases count,
{
    if count > 0 {
        lemma_spares_are_listed(roster, (count - 1) as nat, k);
    }
}

/// A stage grows by one worker: the one that was parked last, or a new thread where
/// nobody is parked. It joins the stage's list, the growth is under way in its name,
/// and the reserve is filled up with new threads.
pub proof fn law_growth_takes_the_last_parked<E>(
    supervisor: &mut Supervisor<E>,
    stage_index: usize,
    reason: ScaleReason,
    action: ScaleAction,
    k: int,
)
    requires
        old(supervisor).is_sound(),
        stage_index < old(supervisor).crew@.active.len(),
        old(supervisor).holds_links,
        old(supervisor).crew@.workers.len() + old(supervisor).layout.parked_target < usize::MAX,
        call_ensures(
            Supervisor::<E>::begin_scaling,
            (supervisor, ScaleOperation::Add { stage_index, reason }),
            Ok::<ScaleAction, PiperError<E>>(action),
        ),
    ensures
        ({
            let before = old(supervisor).crew@;
            let after = final(supervisor).crew@;
            let target = old(supervisor).layout.parked_target;
            let s = stage_index as int;
            &&& action is Assign
            &&& action->Assign_stage_index == stage_index
            &&& action->spawn <==> before.parked.len() == 0
            &&& before.parked.len() > 0 ==> action->Assign_worker_id == before.parked.last()
            &&& before.parked.len() == 0 ==> action->Assign_worker_id == before.workers.len()
            &&& after.active[s] == before.active[s].push(action->Assign_worker_id)
            &&& forall|o: int|
                0 <= o < before.active.len() && o != s ==> #[trigger] after.active[o]
                    == before.active[o]
            &&& after.workers[action->Assign_worker_id as int].active_stage == Some(stage_index)
            &&& after.workers[action->Assign_worker_id as int].retire == Some(false)
            &&& after.pending == Some(
                PendingScale {
                    worker_id: action->Assign_worker_id,
                    stage_index,
                    direction: ScaleDirection::Add,
                    reason,
                },
            )
            &&& after.controls == before.controls && after.failure == before.failure
            &&& after.parked.len() >= target
            &&& action->spares > 0 ==> after.parked.len() == target
            &&& action->first_spare + action->spares == after.workers.len()
            &&& action->first_spare == before.workers.len() + if before.parked.len() == 0 {
                1int
            } else {
                0
            }
            &&& 0 <= k < action->spares ==> after.parked[after.parked.len() - action->spares + k]
                == action->first_spare + k
            &&& 0 <= k < before.parked.len() - 1 ==> after.parked[k] == before.parked[k]
        }),
{
    let before = old(supervisor).crew@;
    let (worker_id, free) = recruit(before);
    let busy = Roster {
        pending: Some(
            PendingScale { worker_id, stage_index, direction: ScaleDirection::Add, reason },
        ),
        ..crew::assigned(free, worker_id, stage_index)
    };
    let missing = missing_spares(old(supervisor).layout, busy);
    if before.parked.len() > 0 {
        assert(before.parked[before.parked.len() - 1] < before.workers.len());
    }
    assert(missing_spares(
        old(supervisor).layout,
        crew::assigned(free, worker_id, stage_index),
    ) == missing);
    lemma_spares_are_listed(busy, missing, k);
    lemma_spares_are_listed(busy, missing, worker_id as int);
}

/// A growth is refused once the links were let go, and nobody is put to work for it.
pub proof fn law_growth_needs_the_links<E>(
    supervisor: &mut Supervisor<E>,
    stage_index: usize,
    reason: ScaleReason,
    outcome: Result<ScaleAction, PiperError<E>>,
)
    requires
        old(supervisor).is_sound(),
        stage_index < old(supervisor).crew@.active.len(),
        call_ensures(
            Supervisor::<E>::begin_scaling,
            (supervisor, ScaleOperation::Add { stage_index, reason }),
            outcome,
        ),
    ensures
        outcome is Ok <==> old(supervisor).holds_links,
        outcome is Err ==> outcome->Err_0 is Internal && final(supervisor).crew@.active
            == old(supervisor).crew@.active && final(supervisor).crew@.pending
            == old(supervisor).crew@.pending,
{
}

/// A stage shrinks by the worker that is named, or else by the first on its list: that
/// worker is asked to retire and stays on the list until it parks, and the shrinking
/// is under way in its name. Nothing happens where there is nobody to ask.
pub proof fn law_shrinking_asks_the_first<E>(
    supervisor: &mut Supervisor<E>,
    stage_index: usize,
    named: Option<usize>,
    reason: ScaleReason,
    outcome: Result<ScaleAction, PiperError<E>>,
)
    requires
        old(supervisor).is_sound(),
        operation_fits(
            old(supervisor).crew@,
            ScaleOperation::Remove { stage_index, worker_id: named, reason },
        ),
        call_ensures(
            Supervisor::<E>::begin_scaling,
            (supervisor, ScaleOperation::Remove { stage_index, worker_id: named, reason }),
            outcome,
        ),
    ensures
        ({
            let before = old(supervisor).crew@;
            let after = final(supervisor).crew@;
            let list = before.active[stage_index as int];
            let who: usize = match named {
                Some(id) => id,
                None => list[0],
            };
            let asked = (named is Some || list.len() > 0) && before.workers[who as int].retire
                is Some;
            &&& outcome is Ok
            &&& asked ==> {
                &&& outcome->Ok_0 == (ScaleAction::Retire { worker_id: who })
                &&& after.workers[who as int].retire == Some(true)
                &&& after.workers[who as int].active_stage
                    == before.workers[who as int].active_stage
                &&& after.pending == Some(
                    PendingScale {
                        worker_id: who,
                        stage_index,
                        direction: ScaleDirection::Remove,
                        reason,
                    },
                )
                &&& forall|w: int|
                    0 <= w < before.workers.len() && w != who ==> #[trigger] after.workers[w]
                        == before.workers[w]
                &&& after.active == before.active && after.parked == before.parked
                    && after.controls == before.controls && after.failure == before.failure
            }
            &&& !asked ==> outcome->Ok_0 == ScaleAction::Nothing && after == before
        }),
{
    let before = old(supervisor).crew@;
    if named is None && before.active[stage_index as int].len() > 0 {
        assert(before.active[stage_index as int][0] < before.workers.len());
    }
}

proof fn lemma_nobody_at_work(counts: Seq<nat>)
    ensures
        scaling::total_workers(counts) == 0 <==> forall|s: int|
            0 <= s < counts.len() ==> #[trigger] counts[s] == 0,
    decreases counts.len(),
{
    if counts.len() > 0 {
        let earlier = counts.drop_last();
        lemma_nobody_at_work(earlier);
        assert(forall|s: int| 0 <= s < earlier.len() ==> #[trigger] earlier[s] == counts[s]);
        if scaling::total_workers(counts) == 0 {
            assert forall|s: int| 0 <= s < counts.len() implies #[trigger] counts[s] == 0 by {
                if s < earlier.len() {
                    assert(earlier[s] == 0);
                }
            }
        }
        if forall|s: int| 0 <= s < counts.len() ==> #[trigger] counts[s] == 0 {
            assert(counts[counts.len() - 1] == 0);
        }
    }
}

/// The supervisor is done exactly when the pipeline was asked to stop, aborts or
/// failed, and no stage has a worker left.
pub proof fn law_supervisor_waits_for_every_worker<E>(
    supervisor: Supervisor<E>,
    shutdown: bool,
    abort: bool,
    stop: bool,
)
    requires
        crew::at_work(supervisor.crew@) <= usize::MAX,
        call_ensures(Supervisor::<E>::should_stop, (&supervisor, shutdown, abort), stop),
    ensures
        stop <==> (shutdown || abort || supervisor.crew@.failure is Some) && forall|s: int|
            0 <= s < supervisor.crew@.active.len() ==> (#[trigger] supervisor.crew@.active[s]).len()
                == 0,
{
    let active = supervisor.crew@.active;
    let counts = crew::heads(active);
    lemma_nobody_at_work(counts);
    assert(forall|s: int|
        0 <= s < active.len() ==> counts[s] == (#[trigger] active[s]).len());
    if forall|s: int| 0 <= s < active.len() ==> (#[trigger] active[s]).len() == 0 {
        assert forall|s: int| 0 <= s < counts.len() implies #[trigger] counts[s] == 0 by {
            assert(active[s].len() == 0);
        }
    }
    if forall|s: int| 0 <= s < counts.len() ==> #[trigger] counts[s] == 0 {
        assert forall|s: int| 0 <= s < active.len() implies (#[trigger] active[s]).len() == 0 by {
            assert(counts[s] == 0);
        }
    }
}

/// Each parked worker is dismissed, in order, and nobody else.
pub proof fn law_parked_workers_are_dismissed<E>(
    supervisor: &mut Supervisor<E>,
    workers: Vec<usize>,
)
    requires
        call_ensures(Supervisor::<E>::dismiss_parked, (supervisor,), workers),
    ensures
        workers@ == old(supervisor).crew@.parked,
        final(supervisor).crew@.parked.len() == 0,
        final(supervisor).crew@.active == old(supervisor).crew@.active,
        final(supervisor).crew@.workers == old(supervisor).crew@.workers,
        final(supervisor).crew@.failure == old(supervisor).crew@.failure,
{
}

/// The pipeline ends well exactly where nothing failed; a stage's failure is told
/// with the worker's name and the user's own error.
pub proof fn law_pipeline_ends_with_its_failure<E>(
    supervisor: Supervisor<E>,
    outcome: Result<(), PiperError<E>>,
)
    requires
        call_ensures(Supervisor::<E>::outcome, (supervisor,), outcome),
    ensures
        outcome is Ok <==> supervisor.crew@.failure is None,
        supervisor.crew@.failure matches Some(crew::Cause::Stage { worker, failure }) ==> {
            let error = outcome->Err_0;
            &&& failure matches crate::error::StageFailure::Init(own) ==> error == (
            PiperError::UserInit { worker, error: own })
            &&& failure matches crate::error::StageFailure::Process(own) ==> error == (
            PiperError::UserProcess { worker, error: own })
            &&& failure matches crate::error::StageFailure::Cleanup(own) ==> error == (
            PiperError::UserCleanup { worker, error: own })
            &&& failure matches crate::error::StageFailure::Internal(message) ==> error == (
            PiperError::<E>::Internal { worker, message })
        },
        supervisor.crew@.failure matches Some(crew::Cause::Machinery(failure)) ==> {
            let error = outcome->Err_0;
            &&& failure is Internal ==> error is Internal && error->Internal_message
                == failure->Internal_message
            &&& failure is Telemetry ==> error is Telemetry && error->Telemetry_message
                == failure->Telemetry_message
        },
{
}

/// The start hires for the first stage that has fewer workers than it starts with; once
/// every stage has its number it hires for the reserve, and it is complete once the
/// reserve has its number too. Whoever is hired is a new thread.
pub proof fn law_start_fills_stages_then_reserve<E>(
    supervisor: &mut Supervisor<E>,
    hire: Option<Hire>,
    i: int,
)
    requires
        old(supervisor).is_sound(),
        crew::at_work(old(supervisor).crew@) < usize::MAX,
        0 <= i < old(supervisor).layout.stages@.len(),
        call_ensures(
            Supervisor::<E>::hire_next,
            (supervisor,),
            Ok::<Option<Hire>, PiperError<E>>(hire),
        ),
    ensures
        ({
            let layout = old(supervisor).layout;
            let before = old(supervisor).crew@;
            let after = final(supervisor).crew@;
            let lacks = |s: int|
                before.active[s].len() < starting_workers(
                    layout.stages@[s],
                    layout.stages@.len() as int,
                    layout.global_worker_cap,
                );
            &&& hire matches Some(hire) ==> hire.worker_id as int == before.workers.len() as usize
                && after.workers.len() == before.workers.len() + 1
            &&& match hire {
                Some(Hire { worker_id, stage_index: Some(s) }) => {
                    &&& lacks(s as int)
                    &&& i < s ==> !lacks(i)
                    &&& after.active[s as int] == before.active[s as int].push(worker_id)
                    &&& i != s ==> after.active[i] == before.active[i]
                    &&& after.parked == before.parked
                },
                Some(Hire { worker_id, stage_index: None }) => {
                    &&& !lacks(i)
                    &&& before.parked.len() < layout.parked_target
                    &&& after.parked == before.parked.push(worker_id)
                    &&& after.active == before.active
                },
                None => {
                    &&& !lacks(i)
                    &&& before.parked.len() >= layout.parked_target
                    &&& after == before
                },
            }
        }),
{
    let layout = old(supervisor).layout;
    let p = understaffed(layout, old(supervisor).crew@);
    search::lemma_first_where_holds(p, 0, layout.stages@.len() as int);
    assert(layout.stages@.len() == layout.stages.len());
    assert(p(i) == understaffed(layout, old(supervisor).crew@)(i));
}

/// A worker's failure aborts the pipeline, and nothing else that a worker reports does.
pub proof fn law_only_failures_abort<E>(
    supervisor: &mut Supervisor<E>,
    events: Vec<WorkerEvent<E>>,
    abort: bool,
)
    requires
        call_ensures(Supervisor::<E>::drain_worker_events, (supervisor, events), abort),
    ensures
        abort <==> exists|i: int| 0 <= i < events@.len() && (#[trigger] events@[i]) is Failed,
        !abort ==> final(supervisor).crew@.failure == old(supervisor).crew@.failure,
        events@.len() == 0 ==> final(supervisor).crew@ == old(supervisor).crew@,
{
    crew::law_last_failure_is_kept(old(supervisor).crew@, events@);
}

/// Any failure of the machinery aborts the pipeline, which keeps the last one.
pub proof fn law_machinery_failure_aborts<E>(
    supervisor: &mut Supervisor<E>,
    failures: Vec<InternalFailure>,
    abort: bool,
)
    requires
        call_ensures(Supervisor::<E>::drain_internal_failures, (supervisor, failures), abort),
    ensures
        abort <==> failures@.len() > 0,
        abort ==> final(supervisor).crew@.failure == Some(
            crew::Cause::<E>::Machinery(failures@.last()),
        ),
        !abort ==> final(supervisor).crew@.failure == old(supervisor).crew@.failure,
        final(supervisor).crew@.active == old(supervisor).crew@.active,
        final(supervisor).crew@.parked == old(supervisor).crew@.parked,
{
}

/// Each link remembers its own reading, and its delta is the rise of its own totals.
pub proof fn law_each_link_is_read<E>(
    supervisor: &mut Supervisor<E>,
    readings: Vec<LinkReading>,
    deltas: Vec<LinkDelta>,
    i: int,
)
    requires
        0 <= i < readings@.len(),
        call_ensures(Supervisor::<E>::read_links, (supervisor, &readings), deltas),
    ensures
        ({
            let before = old(supervisor).link_controls@[i];
            let after = final(supervisor).link_controls@[i];
            &&& deltas@.len() == readings@.len()
            &&& readings@[i].arrivals >= before.last_arrivals ==> before.last_arrivals
                + deltas@[i].arrivals == readings@[i].arrivals
            &&& readings@[i].arrivals < before.last_arrivals ==> deltas@[i].arrivals == 0
            &&& readings@[i].drains >= before.last_drains ==> before.last_drains
                + deltas@[i].drains == readings@[i].drains
            &&& readings@[i].drains < before.last_drains ==> deltas@[i].drains == 0
            &&& after.last_arrivals == readings@[i].arrivals
            &&& after.last_drains == readings@[i].drains
            &&& after.len == readings@[i].len
            &&& after.previous_len == before.len
            &&& after.trend == before.trend
        }),
{
}

/// Each link is judged by its own rates: it is starved exactly where it is empty and
/// quiet, and nothing but its trend changes.
pub proof fn law_each_link_is_judged<E>(
    supervisor: &mut Supervisor<E>,
    rates: Vec<LinkRates>,
    i: int,
)
    requires
        0 <= i < rates@.len(),
        call_ensures(Supervisor::<E>::judge_links, (supervisor, &rates), ()),
    ensures
        ({
            let before = old(supervisor).link_controls@[i];
            let after = final(supervisor).link_controls@[i];
            &&& after == (LinkControl { trend: after.trend, ..before })
            &&& after.trend is Starved <==> before.len == 0 && rates@[i].quiet
            &&& after.trend == trend::queue_trend(
                before.len as int,
                before.previous_len as int,
                rates@[i].quiet,
                rates@[i].band,
            )
        }),
{
}

/// Each stage takes its own sample in, with its own links' trends: the running total
/// grows by what the sample counted.
pub proof fn law_each_stage_takes_its_sample<E>(
    supervisor: &mut Supervisor<E>,
    samples: Vec<StageSample>,
    busy: Vec<BusyBand>,
    i: int,
)
    requires
        old(supervisor).is_sound(),
        samples@.len() == old(supervisor).layout.stages@.len(),
        0 <= i < samples@.len(),
        call_ensures(Supervisor::<E>::take_samples, (supervisor, &samples, &busy), ()),
    ensures
        ({
            let before = old(supervisor).crew@.controls[i];
            let after = final(supervisor).crew@.controls[i];
            let stage = old(supervisor).layout.stages@[i];
            let links = old(supervisor).link_controls@;
            &&& after.last_sample_processed == samples@[i].processed_items
            &&& before.processed_count + samples@[i].processed_items <= u64::MAX
                ==> after.processed_count == before.processed_count + samples@[i].processed_items
            &&& after == control::after_sample(
                before,
                samples@[i],
                busy@[i],
                links[stage.input_link as int].trend,
                links[stage.output_link as int].trend,
            )
            &&& final(supervisor).crew@.active == old(supervisor).crew@.active
            &&& final(supervisor).crew@.pending == old(supervisor).crew@.pending
        }),
{
}

/// Each stage's wanted number is the one that its throughput asks for, at least one.
/// Where that is unknown it is the number that it has, at least one, and one more
/// while its input grows.
pub proof fn law_each_stage_is_rated<E>(
    supervisor: &mut Supervisor<E>,
    by_rate: Vec<Option<usize>>,
    i: int,
)
    requires
        old(supervisor).is_sound(),
        by_rate@.len() == old(supervisor).layout.stages@.len(),
        0 <= i < by_rate@.len(),
        call_ensures(Supervisor::<E>::rate_stages, (supervisor, &by_rate), ()),
    ensures
        ({
            let before = old(supervisor).crew@.controls[i];
            let after = final(supervisor).crew@.controls[i];
            let stage = old(supervisor).layout.stages@[i];
            let input = old(supervisor).link_controls@[stage.input_link as int].trend;
            let active = old(supervisor).crew@.active[i].len();
            let present = if active == 0 {
                1nat
            } else {
                active
            };
            &&& by_rate@[i] matches Some(workers) ==> after.desired_workers == if workers == 0 {
                1
            } else {
                workers
            }
            &&& by_rate@[i] is None && (input is Growing || input is FastGrowing || input
                is Runaway) && present < usize::MAX ==> after.desired_workers == present + 1
            &&& by_rate@[i] is None && (input is Starved || input is FastDraining || input
                is Draining || input is Stable) && active <= usize::MAX ==> after.desired_workers
                == present
            &&& after == (StageControl { desired_workers: after.desired_workers, ..before })
            &&& final(supervisor).crew@.active == old(supervisor).crew@.active
        }),
{
}

} // verus!

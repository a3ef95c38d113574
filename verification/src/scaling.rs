//! Which stage is resized next: the rules that keep anchors fed and drained
//! within the worker budget.
use crate::control;
use crate::control::{
    AnchorControl, AnchorProbe, AnchorProbeOutcome, AnchorProbeReason, BusyBand, ScaleDirection,
    ScaleReason, StageControl, StageScalingState, IDLE_SHRINK_SAMPLES, PROBE_SETTLE_SAMPLES,
};
use crate::graph;
use crate::graph::RuntimeStage;
use crate::search;
use crate::trend;
use crate::trend::{LinkControl, QueueTrend};
use vstd::prelude::*;

verus! {

/// One resizing: a worker more for a stage, or one less. `worker_id` names the
/// worker to retire; where it is `None`, any worker of the stage will do.
#[derive(Clone, Copy, Debug)]
pub enum ScaleOperation {
    Add { stage_index: usize, reason: ScaleReason },
    Remove { stage_index: usize, worker_id: Option<usize>, reason: ScaleReason },
}

/// What the rules look at besides the stages' own memories.
pub struct Picture {
    pub links: Seq<LinkControl>,
    pub active: Seq<nat>,
    pub stages: Seq<RuntimeStage>,
    pub output_link: usize,
    pub cap: usize,
}

/// An operation, if any, and the memories after the decision.
pub type Decision = (Option<ScaleOperation>, Seq<StageControl>);

/// How many workers each stage has.
pub open spec fn headcounts(active_by_stage: Seq<Vec<usize>>) -> Seq<nat> {
    Seq::new(active_by_stage.len(), |i: int| active_by_stage[i]@.len())
}

/// How many workers are at work in all.
pub open spec fn total_workers(active: Seq<nat>) -> nat
    decreases active.len(),
{
    if active.len() == 0 {
        0
    } else {
        total_workers(active.drop_last()) + active.last()
    }
}

/// The picture fits the memories: every stage has its workers and its memory,
/// and every link that is spoken of exists.
pub open spec fn fits(v: Picture, controls: Seq<StageControl>) -> bool {
    &&& v.active.len() == controls.len()
    &&& v.stages.len() == controls.len()
    &&& graph::links_exist(v.stages, v.links.len() as int)
    &&& v.output_link < v.links.len()
    &&& total_workers(v.active) <= usize::MAX
}

pub open spec fn workers(v: Picture, i: int) -> int {
    v.active[i] as int
}

pub open spec fn input_of(v: Picture, i: int) -> LinkControl {
    v.links[v.stages[i].input_link as int]
}

pub open spec fn output_of(v: Picture, i: int) -> LinkControl {
    v.links[v.stages[i].output_link as int]
}

/// The pipeline's own output piles up.
pub open spec fn output_backs_up(v: Picture) -> bool {
    trend::growing(v.links[v.output_link as int].trend)
}

/// Another worker fits under the cap.
pub open spec fn has_budget(active: Seq<nat>, cap: usize) -> bool {
    total_workers(active) < cap
}

pub open spec fn is_fixed(control: StageControl) -> bool {
    control.anchor matches Some(anchor) && anchor.fixed_threads is Some
}

pub open spec fn is_scalable_anchor(control: StageControl) -> bool {
    control.anchor matches Some(anchor) && anchor.fixed_threads is None
}

/// The stage may be resized now.
pub open spec fn can_scale(control: StageControl) -> bool {
    &&& !is_fixed(control)
    &&& !control.settling
    &&& control.scaling_state != StageScalingState::Settling
    &&& control.scaling_state != StageScalingState::Probing
}

/// The link does not keep `active` workers in work: it is starved, or drains
/// with no more than two items left for each of them.
pub open spec fn underfeeds(link: LinkControl, active: int) -> bool {
    ||| link.trend == QueueTrend::Starved
    ||| trend::draining(link.trend) && (link.len <= 2 * active || link.len <= 1)
}

/// The stage is a scalable anchor that has all the threads it may have.
pub open spec fn is_at_maximum(control: StageControl, active: int) -> bool {
    control.anchor matches Some(anchor) && active >= anchor.max_threads
}

/// The memories with the reason noted at stage `i`, if that is an anchor.
pub open spec fn with_reason(
    controls: Seq<StageControl>,
    i: int,
    reason: AnchorProbeReason,
) -> Seq<StageControl> {
    match controls[i].anchor {
        Some(anchor) => controls.update(
            i,
            StageControl {
                anchor: Some(AnchorControl { last_probe_reason: reason, ..anchor }),
                ..controls[i]
            },
        ),
        None => controls,
    }
}

/// Stage `i` is an anchor that can spare a worker.
pub open spec fn can_spare(
    active: Seq<nat>,
    controls: Seq<StageControl>,
    i: int,
) -> bool {
    is_scalable_anchor(controls[i]) && active[i] > 1 && can_scale(controls[i])
}

pub open spec fn sparing(active: Seq<nat>, controls: Seq<StageControl>) -> spec_fn(
    int,
) -> bool {
    |i: int| can_spare(active, controls, i)
}

pub open spec fn sparing_for(
    active: Seq<nat>,
    controls: Seq<StageControl>,
    stage: int,
) -> spec_fn(int) -> bool {
    |i: int| stage != i && can_spare(active, controls, i)
}

/// An anchor gives up a worker.
pub open spec fn giving_up(
    controls: Seq<StageControl>,
    i: int,
    why: AnchorProbeReason,
    reason: ScaleReason,
) -> Decision {
    (
        Some(ScaleOperation::Remove { stage_index: i as usize, worker_id: None, reason }),
        with_reason(controls, i, why),
    )
}

/// Stage `stage` gets a worker if the budget allows it. Otherwise the first
/// other anchor that can spare one gives it up.
pub open spec fn growth_of(
    active: Seq<nat>,
    cap: usize,
    controls: Seq<StageControl>,
    stage: int,
) -> Decision {
    if has_budget(active, cap) {
        (
            Some(ScaleOperation::Add { stage_index: stage as usize, reason: ScaleReason::Support }),
            controls,
        )
    } else {
        match search::first_where(sparing_for(active, controls, stage), 0, controls.len() as int) {
            Some(i) => giving_up(
                controls,
                i,
                AnchorProbeReason::BudgetPressure,
                ScaleReason::BudgetPressure,
            ),
            None => (None, controls),
        }
    }
}

/// Stage `s` takes its input from the growing link `l`, is no anchor, and wants
/// more workers than it has.
pub open spec fn is_needy(v: Picture, controls: Seq<StageControl>, l: int, s: int) -> bool {
    &&& v.stages[s].input_link == l
    &&& controls[s].anchor is None
    &&& workers(v, s) < controls[s].desired_workers
    &&& can_scale(controls[s])
}

pub open spec fn needy_on(v: Picture, controls: Seq<StageControl>, l: int) -> spec_fn(int) -> bool {
    |s: int| is_needy(v, controls, l, s)
}

/// The first needy consumer of link `l`.
pub open spec fn needy_consumer(v: Picture, controls: Seq<StageControl>, l: int) -> Option<int> {
    search::first_where(needy_on(v, controls, l), 0, controls.len() as int)
}

pub open spec fn overflowing(v: Picture, controls: Seq<StageControl>) -> spec_fn(int) -> bool {
    |l: int| trend::growing(v.links[l].trend) && needy_consumer(v, controls, l) is Some
}

/// Anchor `a` is busy and its input does not keep up.
pub open spec fn is_underfed(v: Picture, controls: Seq<StageControl>, a: int) -> bool {
    &&& controls[a].anchor is Some
    &&& underfeeds(input_of(v, a), workers(v, a))
    &&& controls[a].busy is Busy || controls[a].busy is Saturated
}

/// Stage `s` feeds the input of anchor `a`, has input of its own, and may get
/// another worker. An anchor that has its maximum may not.
pub open spec fn is_helper(v: Picture, controls: Seq<StageControl>, a: int, s: int) -> bool {
    &&& v.stages[s].output_link == v.stages[a].input_link
    &&& input_of(v, s).trend != QueueTrend::Starved
    &&& can_scale(controls[s])
    &&& !is_at_maximum(controls[s], workers(v, s))
}

pub open spec fn helping(v: Picture, controls: Seq<StageControl>, a: int) -> spec_fn(int) -> bool {
    |s: int| is_helper(v, controls, a, s)
}

/// The first stage that can help to feed anchor `a`.
pub open spec fn helper_of(v: Picture, controls: Seq<StageControl>, a: int) -> Option<int> {
    search::first_where(helping(v, controls, a), 0, controls.len() as int)
}

pub open spec fn asking_for_help(v: Picture, controls: Seq<StageControl>) -> spec_fn(int) -> bool {
    |a: int|
        is_underfed(v, controls, a) && (helper_of(v, controls, a) is Some || can_spare(
            v.active,
            controls,
            a,
        ))
}

/// What the stages around the anchors need. While the output piles up, only an
/// anchor may be reduced. Otherwise a consumer that a growing link overruns
/// comes first, and then an anchor that starves while it is busy: a producer is
/// grown for it, or else it gives up a worker.
pub open spec fn support_decision(v: Picture, controls: Seq<StageControl>) -> Decision {
    let n = controls.len() as int;
    if output_backs_up(v) {
        match search::first_where(sparing(v.active, controls), 0, n) {
            Some(i) => giving_up(
                controls,
                i,
                AnchorProbeReason::OutputBackpressure,
                ScaleReason::AnchorRevert,
            ),
            None => (None, controls),
        }
    } else {
        match search::first_where(overflowing(v, controls), 0, v.links.len() as int) {
            Some(l) => growth_of(v.active, v.cap, controls, needy_consumer(v, controls, l)->0),
            None => match search::first_where(asking_for_help(v, controls), 0, n) {
                Some(a) => match helper_of(v, controls, a) {
                    Some(s) => growth_of(v.active, v.cap, controls, s),
                    None => giving_up(
                        controls,
                        a,
                        AnchorProbeReason::InputUnderfed,
                        ScaleReason::AnchorRevert,
                    ),
                },
                None => (None, controls),
            },
        }
    }
}

/// A stage other than `a` was just given a worker and has not settled.
pub open spec fn growth_settles_beside(controls: Seq<StageControl>, a: int) -> bool {
    exists|i: int|
        0 <= i < controls.len() && i != a && (#[trigger] controls[i]).settling
            && controls[i].last_operation == Some(ScaleDirection::Add)
}

/// The probe has run long enough to be judged.
pub open spec fn is_ripe(probe: AnchorProbe) -> bool {
    probe.samples >= PROBE_SETTLE_SAMPLES && probe.observed_work
}

/// Why the probe of anchor `a` is taken back, if it is.
pub open spec fn revert_reason(v: Picture, controls: Seq<StageControl>, a: int) -> Option<
    AnchorProbeReason,
> {
    if output_backs_up(v) {
        Some(AnchorProbeReason::OutputBackpressure)
    } else if !has_budget(v.active, v.cap) && workers(v, a) > 1 {
        Some(AnchorProbeReason::BudgetPressure)
    } else if underfeeds(input_of(v, a), workers(v, a)) {
        Some(AnchorProbeReason::InputUnderfed)
    } else if trend::growing(output_of(v, a).trend) {
        Some(AnchorProbeReason::SupportUnstable)
    } else if (controls[a].busy is Idle || controls[a].busy is Light) && !trend::growing(
        input_of(v, a).trend,
    ) {
        Some(AnchorProbeReason::Idle)
    } else {
        None
    }
}

/// The memory of an anchor whose probe is kept.
pub open spec fn keeping_probe(control: StageControl) -> StageControl {
    StageControl {
        anchor: Some(
            AnchorControl {
                probe: None,
                last_probe_outcome: AnchorProbeOutcome::Kept,
                last_probe_reason: AnchorProbeReason::Unset,
                cooldown_samples: 2,
                ..control.anchor->0
            },
        ),
        scaling_state: StageScalingState::Eligible,
        ..control
    }
}

/// Judges the probe of anchor `a`.
pub open spec fn probe_decision(v: Picture, controls: Seq<StageControl>, a: int) -> Decision {
    if growth_settles_beside(controls, a) {
        (None, controls)
    } else {
        match controls[a].anchor {
            Some(anchor) => match anchor.probe {
                Some(probe) => if !is_ripe(probe) {
                    (None, controls)
                } else {
                    match revert_reason(v, controls, a) {
                        Some(why) => (
                            Some(
                                ScaleOperation::Remove {
                                    stage_index: a as usize,
                                    worker_id: Some(probe.worker_id),
                                    reason: ScaleReason::AnchorRevert,
                                },
                            ),
                            with_reason(controls, a, why),
                        ),
                        None => (None, controls.update(a, keeping_probe(controls[a]))),
                    }
                },
                None => (None, controls),
            },
            None => (None, controls),
        }
    }
}

/// The memories with stage `i` put in another scaling state.
pub open spec fn in_state(
    controls: Seq<StageControl>,
    i: int,
    state: StageScalingState,
) -> Seq<StageControl> {
    controls.update(i, StageControl { scaling_state: state, ..controls[i] })
}

/// Anchor `a` can be tried with one more worker.
pub open spec fn is_ready_for_probe(v: Picture, controls: Seq<StageControl>, a: int) -> bool {
    &&& has_budget(v.active, v.cap)
    &&& !underfeeds(input_of(v, a), workers(v, a))
    &&& !trend::growing(output_of(v, a).trend)
    &&& !output_backs_up(v)
    &&& controls[a].busy is Saturated || trend::growing(input_of(v, a).trend)
}

/// Whether anchor `a` is tried with one more worker.
pub open spec fn anchor_decision(v: Picture, controls: Seq<StageControl>, a: int) -> Decision {
    match controls[a].anchor {
        Some(anchor) => if anchor.fixed_threads is Some || anchor.probe is Some {
            (None, controls)
        } else if anchor.cooldown_samples > 0 {
            (None, in_state(controls, a, StageScalingState::BackingOff))
        } else if workers(v, a) >= anchor.max_threads {
            (None, in_state(controls, a, StageScalingState::Eligible))
        } else if !anchor.warmup_complete {
            (None, in_state(controls, a, StageScalingState::BackingOff))
        } else if is_ready_for_probe(v, controls, a) {
            (
                Some(
                    ScaleOperation::Add {
                        stage_index: a as usize,
                        reason: ScaleReason::AnchorProbe,
                    },
                ),
                controls,
            )
        } else {
            (None, in_state(controls, a, StageScalingState::Eligible))
        },
        None => (None, controls),
    }
}

/// Judges the probes of the scalable anchors from `from` on, until one is taken
/// back.
pub open spec fn probe_decisions(v: Picture, controls: Seq<StageControl>, from: int) -> Decision
    decreases controls.len() - from,
    when 0 <= from
    via probe_decisions_end
{
    if from >= controls.len() {
        (None, controls)
    } else if is_scalable_anchor(controls[from]) {
        let decision = probe_decision(v, controls, from);
        if decision.0 is Some {
            decision
        } else {
            probe_decisions(v, decision.1, from + 1)
        }
    } else {
        probe_decisions(v, controls, from + 1)
    }
}

#[via_fn]
proof fn probe_decisions_end(v: Picture, controls: Seq<StageControl>, from: int) {
    if 0 <= from < controls.len() {
        assert(probe_decision(v, controls, from).1.len() == controls.len());
    }
}

/// Looks among the scalable anchors from `from` on for one to try with one more
/// worker.
pub open spec fn anchor_decisions(v: Picture, controls: Seq<StageControl>, from: int) -> Decision
    decreases controls.len() - from,
    when 0 <= from
    via anchor_decisions_end
{
    if from >= controls.len() {
        (None, controls)
    } else if is_scalable_anchor(controls[from]) {
        let decision = anchor_decision(v, controls, from);
        if decision.0 is Some {
            decision
        } else {
            anchor_decisions(v, decision.1, from + 1)
        }
    } else {
        anchor_decisions(v, controls, from + 1)
    }
}

#[via_fn]
proof fn anchor_decisions_end(v: Picture, controls: Seq<StageControl>, from: int) {
    if 0 <= from < controls.len() {
        assert(anchor_decision(v, controls, from).1.len() == controls.len());
    }
}

/// Stage `i` is no anchor, has more workers than it wants, and its input does
/// not grow.
pub open spec fn has_spare_workers(
    links: Seq<LinkControl>,
    active: Seq<nat>,
    stages: Seq<RuntimeStage>,
    controls: Seq<StageControl>,
    i: int,
) -> bool {
    &&& controls[i].anchor is None
    &&& active[i] > controls[i].desired_workers
    &&& !trend::growing(links[stages[i].input_link as int].trend)
}

/// Stage `i` has a worker too many: it can be resized, keeps one, and either
/// wants fewer or has been idle for long.
pub open spec fn is_oversized(
    links: Seq<LinkControl>,
    active: Seq<nat>,
    stages: Seq<RuntimeStage>,
    controls: Seq<StageControl>,
    i: int,
) -> bool {
    &&& active[i] > 1
    &&& can_scale(controls[i])
    &&& has_spare_workers(links, active, stages, controls, i) || controls[i].idle_samples
        >= IDLE_SHRINK_SAMPLES
}

pub open spec fn oversized(
    links: Seq<LinkControl>,
    active: Seq<nat>,
    stages: Seq<RuntimeStage>,
    controls: Seq<StageControl>,
) -> spec_fn(int) -> bool {
    |i: int| is_oversized(links, active, stages, controls, i)
}

/// The first oversized stage gives a worker back.
pub open spec fn idle_decision(
    links: Seq<LinkControl>,
    active: Seq<nat>,
    stages: Seq<RuntimeStage>,
    controls: Seq<StageControl>,
) -> Decision {
    match search::first_where(oversized(links, active, stages, controls), 0, controls.len() as int) {
        Some(i) => if has_spare_workers(links, active, stages, controls, i) {
            (
                Some(
                    ScaleOperation::Remove {
                        stage_index: i as usize,
                        worker_id: None,
                        reason: ScaleReason::Support,
                    },
                ),
                controls,
            )
        } else {
            giving_up(controls, i, AnchorProbeReason::Idle, ScaleReason::Idle)
        },
        None => (None, controls),
    }
}

/// The next resizing: what the stages around the anchors need, then the anchors'
/// probes, then a new probe, then what is idle.
pub open spec fn decision(v: Picture, controls: Seq<StageControl>) -> Decision {
    let support = support_decision(v, controls);
    if support.0 is Some {
        support
    } else {
        let probes = probe_decisions(v, support.1, 0);
        if probes.0 is Some {
            probes
        } else {
            let anchors = anchor_decisions(v, probes.1, 0);
            if anchors.0 is Some {
                anchors
            } else {
                idle_decision(v.links, v.active, v.stages, anchors.1)
            }
        }
    }
}

proof fn lemma_total_grows(active: Seq<nat>, end: int)
    requires
        0 <= end <= active.len(),
    ensures
        total_workers(active.take(end)) <= total_workers(active),
    decreases active.len() - end,
{
    if end < active.len() {
        lemma_total_grows(active, end + 1);
        assert(active.take(end + 1).drop_last() =~= active.take(end));
    } else {
        assert(active.take(end) =~= active);
    }
}

/// Counts the workers that are at work.
pub fn active_worker_count(active_by_stage: &Vec<Vec<usize>>) -> (count: usize)
    requires
        total_workers(headcounts(active_by_stage@)) <= usize::MAX,
    ensures
        count == total_workers(headcounts(active_by_stage@)),
{
    let mut count: usize = 0;
    let mut index: usize = 0;
    while index < active_by_stage.len()
        invariant
            index <= active_by_stage@.len(),
            total_workers(headcounts(active_by_stage@)) <= usize::MAX,
            count == total_workers(headcounts(active_by_stage@).take(index as int)),
        decreases active_by_stage@.len() - index,
    {
        proof {
            lemma_total_grows(headcounts(active_by_stage@), index + 1);
            assert(headcounts(active_by_stage@).take(index + 1).drop_last() =~= headcounts(active_by_stage@).take(
                index as int,
            ));
        }
        count = count + active_by_stage[index].len();
        index += 1;
    }
    assert(headcounts(active_by_stage@).take(index as int) =~= headcounts(active_by_stage@));
    count
}

pub fn link_underfeeds_stage(link: &LinkControl, active_threads: usize) -> (yes: bool)
    ensures
        yes == underfeeds(*link, active_threads as int),
{
    link.trend == QueueTrend::Starved || (link.trend.is_draining() && (link.len <= 1 || (link.len
        - 1) / 2 < active_threads))
}

pub fn stage_can_scale(control: &StageControl) -> (yes: bool)
    ensures
        yes == can_scale(*control),
{
    !is_fixed_anchor(control) && !control.settling && control.scaling_state
        != StageScalingState::Settling && control.scaling_state != StageScalingState::Probing
}

pub fn support_can_add(stage_index: usize, controls: &Vec<StageControl>) -> (yes: bool)
    requires
        stage_index < controls@.len(),
    ensures
        yes == can_scale(controls@[stage_index as int]),
{
    stage_can_scale(&controls[stage_index])
}

fn is_fixed_anchor(control: &StageControl) -> (yes: bool)
    ensures
        yes == is_fixed(*control),
{
    match control.anchor {
        Some(anchor) => anchor.fixed_threads.is_some(),
        None => false,
    }
}

fn is_free_anchor(control: &StageControl) -> (yes: bool)
    ensures
        yes == is_scalable_anchor(*control),
{
    match control.anchor {
        Some(anchor) => anchor.fixed_threads.is_none(),
        None => false,
    }
}

/// Notes at an anchor why it gives up a worker.
pub fn set_anchor_reason(
    controls: &mut Vec<StageControl>,
    anchor_index: usize,
    reason: AnchorProbeReason,
)
    requires
        anchor_index < old(controls)@.len(),
    ensures
        final(controls)@ == with_reason(old(controls)@, anchor_index as int, reason),
{
    if let Some(anchor) = controls[anchor_index].anchor.as_mut() {
        anchor.last_probe_reason = reason;
    }
}

/// Finds the first anchor that can spare a worker, other than `except`.
fn find_sparing_anchor(
    active_by_stage: &Vec<Vec<usize>>,
    controls: &Vec<StageControl>,
    except: Option<usize>,
) -> (found: Option<usize>)
    requires
        active_by_stage@.len() == controls@.len(),
    ensures
        ({
            let p = match except {
                None => sparing(headcounts(active_by_stage@), controls@),
                Some(stage) => sparing_for(headcounts(active_by_stage@), controls@, stage as int),
            };
            match search::first_where(p, 0, controls@.len() as int) {
                Some(i) => found is Some && found->0 == i && i < controls@.len(),
                None => found is None,
            }
        }),
{
    let ghost p = match except {
        None => sparing(headcounts(active_by_stage@), controls@),
        Some(stage) => sparing_for(headcounts(active_by_stage@), controls@, stage as int),
    };
    let mut index: usize = 0;
    while index < controls.len()
        invariant
            index <= controls@.len(),
            active_by_stage@.len() == controls@.len(),
            p == (match except {
                None => sparing(headcounts(active_by_stage@), controls@),
                Some(stage) => sparing_for(headcounts(active_by_stage@), controls@, stage as int),
            }),
            search::first_where(p, 0, controls@.len() as int) == search::first_where(
                p,
                index as int,
                controls@.len() as int,
            ),
        decreases controls@.len() - index,
    {
        let excluded: bool = match except {
            Some(stage) => stage == index,
            None => false,
        };
        if !excluded && is_free_anchor(&controls[index]) && active_by_stage[index].len() > 1
            && stage_can_scale(&controls[index]) {
            return Some(index);
        }
        index += 1;
    }
    None
}

/// Gives a stage another worker, or makes room for one at another anchor.
pub fn add_or_rebalance_for_stage(
    stage_index: usize,
    active_by_stage: &Vec<Vec<usize>>,
    controls: &mut Vec<StageControl>,
    global_worker_cap: usize,
) -> (operation: Option<ScaleOperation>)
    requires
        active_by_stage@.len() == old(controls)@.len(),
        total_workers(headcounts(active_by_stage@)) <= usize::MAX,
    ensures
        (operation, final(controls)@) == growth_of(
            headcounts(active_by_stage@),
            global_worker_cap,
            old(controls)@,
            stage_index as int,
        ),
{
    if active_worker_count(active_by_stage) < global_worker_cap {
        return Some(ScaleOperation::Add { stage_index, reason: ScaleReason::Support });
    }
    match find_sparing_anchor(active_by_stage, controls, Some(stage_index)) {
        Some(anchor_index) => {
            set_anchor_reason(controls, anchor_index, AnchorProbeReason::BudgetPressure);
            Some(
                ScaleOperation::Remove {
                    stage_index: anchor_index,
                    worker_id: None,
                    reason: ScaleReason::BudgetPressure,
                },
            )
        },
        None => None,
    }
}

/// What the rules look at, put together.
pub open spec fn picture(
    links: Seq<LinkControl>,
    active: Seq<nat>,
    stages: Seq<RuntimeStage>,
    output_link: usize,
    cap: usize,
) -> Picture {
    Picture { links, active, stages, output_link, cap }
}

/// Finds the first needy consumer of a link.
fn find_needy_consumer(
    active_by_stage: &Vec<Vec<usize>>,
    controls: &Vec<StageControl>,
    stages: &Vec<RuntimeStage>,
    link_index: usize,
    Ghost(v): Ghost<Picture>,
) -> (found: Option<usize>)
    requires
        v.active == headcounts(active_by_stage@),
        v.stages == stages@,
        fits(v, controls@),
    ensures
        match needy_consumer(v, controls@, link_index as int) {
            Some(s) => found is Some && found->0 == s && s < controls@.len(),
            None => found is None,
        },
{
    let ghost p = needy_on(v, controls@, link_index as int);
    let mut index: usize = 0;
    while index < controls.len()
        invariant
            index <= controls@.len(),
            v.active == headcounts(active_by_stage@),
            v.stages == stages@,
            fits(v, controls@),
            p == needy_on(v, controls@, link_index as int),
            search::first_where(p, 0, controls@.len() as int) == search::first_where(
                p,
                index as int,
                controls@.len() as int,
            ),
        decreases controls@.len() - index,
    {
        if stages[index].input_link == link_index && controls[index].anchor.is_none()
            && active_by_stage[index].len() < controls[index].desired_workers && support_can_add(
            index,
            controls,
        ) {
            return Some(index);
        }
        index += 1;
    }
    None
}

/// Finds the first stage that can help to feed an anchor.
fn find_helper(
    links: &Vec<LinkControl>,
    active_by_stage: &Vec<Vec<usize>>,
    controls: &Vec<StageControl>,
    stages: &Vec<RuntimeStage>,
    anchor_index: usize,
    Ghost(v): Ghost<Picture>,
) -> (found: Option<usize>)
    requires
        v.links == links@,
        v.active == headcounts(active_by_stage@),
        v.stages == stages@,
        fits(v, controls@),
        anchor_index < controls@.len(),
    ensures
        match helper_of(v, controls@, anchor_index as int) {
            Some(s) => found is Some && found->0 == s && s < controls@.len(),
            None => found is None,
        },
{
    let ghost p = helping(v, controls@, anchor_index as int);
    let mut index: usize = 0;
    while index < controls.len()
        invariant
            index <= controls@.len(),
            v.links == links@,
            v.active == headcounts(active_by_stage@),
            v.stages == stages@,
            fits(v, controls@),
            anchor_index < controls@.len(),
            p == helping(v, controls@, anchor_index as int),
            search::first_where(p, 0, controls@.len() as int) == search::first_where(
                p,
                index as int,
                controls@.len() as int,
            ),
        decreases controls@.len() - index,
    {
        assert(v.stages[index as int].input_link < links@.len());
        let full: bool = match controls[index].anchor {
            Some(anchor) => active_by_stage[index].len() >= anchor.max_threads,
            None => false,
        };
        if stages[index].output_link == stages[anchor_index].input_link
            && links[stages[index].input_link].trend != QueueTrend::Starved && support_can_add(
            index,
            controls,
        ) && !full {
            return Some(index);
        }
        index += 1;
    }
    None
}

/// Decides what the stages around the anchors need.
pub fn choose_support_operation(
    links: &Vec<LinkControl>,
    active_by_stage: &Vec<Vec<usize>>,
    controls: &mut Vec<StageControl>,
    stages: &Vec<RuntimeStage>,
    output_link: usize,
    global_worker_cap: usize,
) -> (operation: Option<ScaleOperation>)
    requires
        fits(
            picture(links@, headcounts(active_by_stage@), stages@, output_link, global_worker_cap),
            old(controls)@,
        ),
    ensures
        (operation, final(controls)@) == support_decision(
            picture(links@, headcounts(active_by_stage@), stages@, output_link, global_worker_cap),
            old(controls)@,
        ),
{
    let ghost v = picture(links@, headcounts(active_by_stage@), stages@, output_link, global_worker_cap);
    let ghost n = controls@.len() as int;
    let ghost before = controls@;
    if links[output_link].trend.is_growing() {
        return match find_sparing_anchor(active_by_stage, controls, None) {
            Some(anchor_index) => {
                set_anchor_reason(controls, anchor_index, AnchorProbeReason::OutputBackpressure);
                Some(
                    ScaleOperation::Remove {
                        stage_index: anchor_index,
                        worker_id: None,
                        reason: ScaleReason::AnchorRevert,
                    },
                )
            },
            None => None,
        };
    }
    let ghost flood = overflowing(v, before);
    let mut link_index: usize = 0;
    while link_index < links.len()
        invariant
            link_index <= links@.len(),
            controls@ == before,
            v == picture(links@, headcounts(active_by_stage@), stages@, output_link, global_worker_cap),
            fits(v, before),
            n == before.len(),
            !output_backs_up(v),
            flood == overflowing(v, before),
            search::first_where(flood, 0, v.links.len() as int) == search::first_where(
                flood,
                link_index as int,
                v.links.len() as int,
            ),
            before == old(controls)@,
        decreases links@.len() - link_index,
    {
        if links[link_index].trend.is_growing() {
            if let Some(consumer) = find_needy_consumer(
                active_by_stage,
                controls,
                stages,
                link_index,
                Ghost(v),
            ) {
                return add_or_rebalance_for_stage(
                    consumer,
                    active_by_stage,
                    controls,
                    global_worker_cap,
                );
            }
        }
        link_index += 1;
    }
    let ghost asking = asking_for_help(v, before);
    let mut anchor_index: usize = 0;
    while anchor_index < controls.len()
        invariant
            anchor_index <= controls@.len(),
            controls@ == before,
            v == picture(links@, headcounts(active_by_stage@), stages@, output_link, global_worker_cap),
            fits(v, before),
            n == before.len(),
            !output_backs_up(v),
            search::first_where(overflowing(v, before), 0, v.links.len() as int) is None,
            asking == asking_for_help(v, before),
            search::first_where(asking, 0, n) == search::first_where(asking, anchor_index as int, n),
            before == old(controls)@,
        decreases n - anchor_index,
    {
        assert(v.stages[anchor_index as int].input_link < links@.len());
        let busy: bool = controls[anchor_index].busy == BusyBand::Busy
            || controls[anchor_index].busy == BusyBand::Saturated;
        if controls[anchor_index].anchor.is_some() && link_underfeeds_stage(
            &links[stages[anchor_index].input_link],
            active_by_stage[anchor_index].len(),
        ) && busy {
            if let Some(helper) = find_helper(
                links,
                active_by_stage,
                controls,
                stages,
                anchor_index,
                Ghost(v),
            ) {
                return add_or_rebalance_for_stage(
                    helper,
                    active_by_stage,
                    controls,
                    global_worker_cap,
                );
            }
            if is_free_anchor(&controls[anchor_index]) && active_by_stage[anchor_index].len() > 1
                && stage_can_scale(&controls[anchor_index]) {
                set_anchor_reason(controls, anchor_index, AnchorProbeReason::InputUnderfed);
                return Some(
                    ScaleOperation::Remove {
                        stage_index: anchor_index,
                        worker_id: None,
                        reason: ScaleReason::AnchorRevert,
                    },
                );
            }
        }
        anchor_index += 1;
    }
    None
}

/// Whether a stage beside the anchor was just given a worker and has not settled.
pub fn support_growth_is_settling(controls: &Vec<StageControl>, anchor_index: usize) -> (yes: bool)
    ensures
        yes == growth_settles_beside(controls@, anchor_index as int),
{
    let mut index: usize = 0;
    while index < controls.len()
        invariant
            index <= controls@.len(),
            forall|i: int|
                0 <= i < index && i != anchor_index && (#[trigger] controls@[i]).settling
                    ==> controls@[i].last_operation != Some(ScaleDirection::Add),
        decreases controls@.len() - index,
    {
        if index != anchor_index && controls[index].settling {
            if let Some(direction) = controls[index].last_operation {
                if direction == ScaleDirection::Add {
                    return true;
                }
            }
        }
        index += 1;
    }
    false
}

/// Judges the probe of an anchor.
pub fn choose_anchor_probe_operation(
    links: &Vec<LinkControl>,
    active_by_stage: &Vec<Vec<usize>>,
    controls: &mut Vec<StageControl>,
    stages: &Vec<RuntimeStage>,
    anchor_index: usize,
    output_link: usize,
    global_worker_cap: usize,
) -> (operation: Option<ScaleOperation>)
    requires
        fits(
            picture(links@, headcounts(active_by_stage@), stages@, output_link, global_worker_cap),
            old(controls)@,
        ),
        anchor_index < old(controls)@.len(),
    ensures
        (operation, final(controls)@) == probe_decision(
            picture(links@, headcounts(active_by_stage@), stages@, output_link, global_worker_cap),
            old(controls)@,
            anchor_index as int,
        ),
{
    let ghost v = picture(links@, headcounts(active_by_stage@), stages@, output_link, global_worker_cap);
    if support_growth_is_settling(controls, anchor_index) {
        return None;
    }
    let control: StageControl = controls[anchor_index];
    let mut anchor: AnchorControl = match control.anchor {
        Some(anchor) => anchor,
        None => return None,
    };
    let probe: AnchorProbe = match anchor.probe {
        Some(probe) => probe,
        None => return None,
    };
    if probe.samples < PROBE_SETTLE_SAMPLES || !probe.observed_work {
        return None;
    }
    assert(v.stages[anchor_index as int].input_link < links@.len());
    let active: usize = active_by_stage[anchor_index].len();
    let input: LinkControl = links[stages[anchor_index].input_link];
    let output: LinkControl = links[stages[anchor_index].output_link];
    let barely_busy: bool = control.busy == BusyBand::Idle || control.busy == BusyBand::Light;
    let why: Option<AnchorProbeReason> = if links[output_link].trend.is_growing() {
        Some(AnchorProbeReason::OutputBackpressure)
    } else if active_worker_count(active_by_stage) >= global_worker_cap && active > 1 {
        Some(AnchorProbeReason::BudgetPressure)
    } else if link_underfeeds_stage(&input, active) {
        Some(AnchorProbeReason::InputUnderfed)
    } else if output.trend.is_growing() {
        Some(AnchorProbeReason::SupportUnstable)
    } else if barely_busy && !input.trend.is_growing() {
        Some(AnchorProbeReason::Idle)
    } else {
        None
    };
    if let Some(reason) = why {
        set_anchor_reason(controls, anchor_index, reason);
        return Some(
            ScaleOperation::Remove {
                stage_index: anchor_index,
                worker_id: Some(probe.worker_id),
                reason: ScaleReason::AnchorRevert,
            },
        );
    }
    anchor.probe = None;
    anchor.last_probe_outcome = AnchorProbeOutcome::Kept;
    anchor.last_probe_reason = AnchorProbeReason::Unset;
    anchor.cooldown_samples = 2;
    controls[anchor_index].anchor = Some(anchor);
    controls[anchor_index].scaling_state = StageScalingState::Eligible;
    None
}

/// Decides whether an anchor is tried with one more worker.
pub fn choose_anchor_operation(
    links: &Vec<LinkControl>,
    active_by_stage: &Vec<Vec<usize>>,
    controls: &mut Vec<StageControl>,
    stages: &Vec<RuntimeStage>,
    anchor_index: usize,
    output_link: usize,
    global_worker_cap: usize,
) -> (operation: Option<ScaleOperation>)
    requires
        fits(
            picture(links@, headcounts(active_by_stage@), stages@, output_link, global_worker_cap),
            old(controls)@,
        ),
        anchor_index < old(controls)@.len(),
    ensures
        (operation, final(controls)@) == anchor_decision(
            picture(links@, headcounts(active_by_stage@), stages@, output_link, global_worker_cap),
            old(controls)@,
            anchor_index as int,
        ),
{
    let ghost v = picture(links@, headcounts(active_by_stage@), stages@, output_link, global_worker_cap);
    let control: StageControl = controls[anchor_index];
    let anchor: AnchorControl = match control.anchor {
        Some(anchor) => anchor,
        None => return None,
    };
    if anchor.fixed_threads.is_some() || anchor.probe.is_some() {
        return None;
    }
    if anchor.cooldown_samples > 0 {
        controls[anchor_index].scaling_state = StageScalingState::BackingOff;
        return None;
    }
    let active: usize = active_by_stage[anchor_index].len();
    if active >= anchor.max_threads {
        controls[anchor_index].scaling_state = StageScalingState::Eligible;
        return None;
    }
    if !anchor.warmup_complete {
        controls[anchor_index].scaling_state = StageScalingState::BackingOff;
        return None;
    }
    assert(v.stages[anchor_index as int].input_link < links@.len());
    let input: LinkControl = links[stages[anchor_index].input_link];
    let output: LinkControl = links[stages[anchor_index].output_link];
    let has_budget: bool = active_worker_count(active_by_stage) < global_worker_cap;
    let input_ready: bool = !link_underfeeds_stage(&input, active);
    let downstream_ready: bool = !output.trend.is_growing()
        && !links[output_link].trend.is_growing();
    let enough_busy_signal: bool = control.busy == BusyBand::Saturated || input.trend.is_growing();
    if has_budget && input_ready && downstream_ready && enough_busy_signal {
        return Some(
            ScaleOperation::Add { stage_index: anchor_index, reason: ScaleReason::AnchorProbe },
        );
    }
    controls[anchor_index].scaling_state = StageScalingState::Eligible;
    None
}

/// Decides which stage gives a worker back.
pub fn choose_idle_operation(
    links: &Vec<LinkControl>,
    active_by_stage: &Vec<Vec<usize>>,
    controls: &mut Vec<StageControl>,
    stages: &Vec<RuntimeStage>,
) -> (operation: Option<ScaleOperation>)
    requires
        active_by_stage@.len() == old(controls)@.len(),
        stages@.len() == old(controls)@.len(),
        graph::links_exist(stages@, links@.len() as int),
    ensures
        (operation, final(controls)@) == idle_decision(
            links@,
            headcounts(active_by_stage@),
            stages@,
            old(controls)@,
        ),
{
    let ghost before = controls@;
    let ghost p = oversized(links@, headcounts(active_by_stage@), stages@, before);
    let mut index: usize = 0;
    while index < controls.len()
        invariant
            index <= controls@.len(),
            controls@ == before,
            before == old(controls)@,
            active_by_stage@.len() == before.len(),
            stages@.len() == before.len(),
            graph::links_exist(stages@, links@.len() as int),
            p == oversized(links@, headcounts(active_by_stage@), stages@, before),
            search::first_where(p, 0, before.len() as int) == search::first_where(
                p,
                index as int,
                before.len() as int,
            ),
        decreases before.len() - index,
    {
        assert(stages@[index as int].input_link < links@.len());
        if active_by_stage[index].len() > 1 && stage_can_scale(&controls[index]) {
            if controls[index].anchor.is_none() && active_by_stage[index].len()
                > controls[index].desired_workers
                && !links[stages[index].input_link].trend.is_growing() {
                return Some(
                    ScaleOperation::Remove {
                        stage_index: index,
                        worker_id: None,
                        reason: ScaleReason::Support,
                    },
                );
            }
            if controls[index].idle_samples >= IDLE_SHRINK_SAMPLES {
                set_anchor_reason(controls, index, AnchorProbeReason::Idle);
                return Some(
                    ScaleOperation::Remove {
                        stage_index: index,
                        worker_id: None,
                        reason: ScaleReason::Idle,
                    },
                );
            }
        }
        index += 1;
    }
    None
}

/// Decides what is resized next, if anything.
pub fn choose_scale_operation(
    links: &Vec<LinkControl>,
    active_by_stage: &Vec<Vec<usize>>,
    controls: &mut Vec<StageControl>,
    stages: &Vec<RuntimeStage>,
    output_link: usize,
    global_worker_cap: usize,
) -> (operation: Option<ScaleOperation>)
    requires
        fits(
            picture(links@, headcounts(active_by_stage@), stages@, output_link, global_worker_cap),
            old(controls)@,
        ),
    ensures
        (operation, final(controls)@) == decision(
            picture(links@, headcounts(active_by_stage@), stages@, output_link, global_worker_cap),
            old(controls)@,
        ),
{
    let ghost v = picture(links@, headcounts(active_by_stage@), stages@, output_link, global_worker_cap);
    let operation: Option<ScaleOperation> = choose_support_operation(
        links,
        active_by_stage,
        controls,
        stages,
        output_link,
        global_worker_cap,
    );
    if operation.is_some() {
        return operation;
    }
    let ghost supported = controls@;
    assert(supported.len() == old(controls)@.len());
    let mut index: usize = 0;
    while index < controls.len()
        invariant
            index <= controls@.len(),
            controls@.len() == supported.len(),
            v == picture(links@, headcounts(active_by_stage@), stages@, output_link, global_worker_cap),
            fits(v, controls@),
            probe_decisions(v, supported, 0) == probe_decisions(v, controls@, index as int),
            support_decision(v, old(controls)@) == (None::<ScaleOperation>, supported),
        decreases controls@.len() - index,
    {
        if is_free_anchor(&controls[index]) {
            let operation: Option<ScaleOperation> = choose_anchor_probe_operation(
                links,
                active_by_stage,
                controls,
                stages,
                index,
                output_link,
                global_worker_cap,
            );
            if operation.is_some() {
                return operation;
            }
        }
        index += 1;
    }
    let ghost probed = controls@;
    let mut index: usize = 0;
    while index < controls.len()
        invariant
            index <= controls@.len(),
            controls@.len() == probed.len(),
            v == picture(links@, headcounts(active_by_stage@), stages@, output_link, global_worker_cap),
            fits(v, controls@),
            anchor_decisions(v, probed, 0) == anchor_decisions(v, controls@, index as int),
            support_decision(v, old(controls)@) == (None::<ScaleOperation>, supported),
            probe_decisions(v, supported, 0) == (None::<ScaleOperation>, probed),
        decreases controls@.len() - index,
    {
        if is_free_anchor(&controls[index]) {
            let operation: Option<ScaleOperation> = choose_anchor_operation(
                links,
                active_by_stage,
                controls,
                stages,
                index,
                output_link,
                global_worker_cap,
            );
            if operation.is_some() {
                return operation;
            }
        }
        index += 1;
    }
    choose_idle_operation(links, active_by_stage, controls, stages)
}

/// Two lists of memories belong to the same anchors: a decision may note a
/// reason, end a probe or change a scaling state, and nothing else.
pub open spec fn same_stages(a: Seq<StageControl>, b: Seq<StageControl>) -> bool {
    &&& a.len() == b.len()
    &&& forall|i: int| 0 <= i < a.len() ==> same_stage(#[trigger] a[i], b[i])
}

pub open spec fn same_stage(a: StageControl, b: StageControl) -> bool {
    &&& b == (StageControl { scaling_state: b.scaling_state, anchor: b.anchor, ..a })
    &&& match (a.anchor, b.anchor) {
        (Some(before), Some(after)) => {
            &&& after.max_threads == before.max_threads
            &&& after.fixed_threads == before.fixed_threads
            &&& after.warmup_complete == before.warmup_complete
            &&& after.probe is None || after.probe == before.probe
        },
        (None, None) => true,
        _ => false,
    }
}

/// The worker is the one that the stage tries out.
pub open spec fn is_on_probe(control: StageControl, worker_id: usize) -> bool {
    control.anchor matches Some(anchor) && (anchor.probe matches Some(probe) && probe.worker_id
        == worker_id)
}

/// What holds of every operation that is decided on.
spec fn is_allowed(v: Picture, controls: Seq<StageControl>, operation: ScaleOperation) -> bool {
    match operation {
        ScaleOperation::Add { stage_index, reason } => {
            let i = stage_index as int;
            &&& i < controls.len()
            &&& !is_fixed(controls[i])
            &&& has_budget(v.active, v.cap)
            &&& !output_backs_up(v)
            &&& !is_at_maximum(controls[i], workers(v, i))
            &&& reason == ScaleReason::Support ==> !controls[i].settling
        },
        ScaleOperation::Remove { stage_index, worker_id, .. } => {
            let i = stage_index as int;
            &&& i < controls.len()
            &&& !is_fixed(controls[i])
            &&& match worker_id {
                Some(id) => is_on_probe(controls[i], id),
                None => workers(v, i) > 1 && !controls[i].settling,
            }
        },
    }
}

proof fn lemma_growth_is_allowed(v: Picture, controls: Seq<StageControl>, stage: int)
    requires
        controls.len() <= usize::MAX,
        0 <= stage < controls.len(),
        !output_backs_up(v),
        can_scale(controls[stage]),
        !is_at_maximum(controls[stage], workers(v, stage)),
    ensures
        ({
            let d = growth_of(v.active, v.cap, controls, stage);
            &&& d.0 matches Some(operation) ==> is_allowed(v, controls, operation)
            &&& same_stages(controls, d.1)
        }),
{
    search::lemma_first_where_holds(sparing_for(v.active, controls, stage), 0, controls.len() as int);
}

proof fn lemma_support_is_allowed(v: Picture, controls: Seq<StageControl>)
    requires
        controls.len() <= usize::MAX,
    ensures
        ({
            let d = support_decision(v, controls);
            &&& d.0 matches Some(operation) ==> is_allowed(v, controls, operation)
            &&& same_stages(controls, d.1)
        }),
{
    let n = controls.len() as int;
    search::lemma_first_where_holds(sparing(v.active, controls), 0, n);
    search::lemma_first_where_holds(overflowing(v, controls), 0, v.links.len() as int);
    search::lemma_first_where_holds(asking_for_help(v, controls), 0, n);
    if !output_backs_up(v) {
        if let Some(l) = search::first_where(overflowing(v, controls), 0, v.links.len() as int) {
            search::lemma_first_where_holds(needy_on(v, controls, l), 0, n);
            let s = needy_consumer(v, controls, l)->0;
            assert(is_needy(v, controls, l, s));
            lemma_growth_is_allowed(v, controls, s);
        } else if let Some(a) = search::first_where(asking_for_help(v, controls), 0, n) {
            search::lemma_first_where_holds(helping(v, controls, a), 0, n);
            if let Some(s) = helper_of(v, controls, a) {
                assert(is_helper(v, controls, a, s));
                lemma_growth_is_allowed(v, controls, s);
            }
        }
    }
}

proof fn lemma_probes_are_allowed(v: Picture, controls: Seq<StageControl>, from: int)
    requires
        controls.len() <= usize::MAX,
        0 <= from <= controls.len(),
    ensures
        ({
            let d = probe_decisions(v, controls, from);
            &&& d.0 matches Some(operation) ==> is_allowed(v, controls, operation)
            &&& same_stages(controls, d.1)
        }),
    decreases controls.len() - from,
{
    if from < controls.len() {
        if is_scalable_anchor(controls[from]) {
            let d = probe_decision(v, controls, from);
            assert(same_stages(controls, d.1));
            if d.0 is None {
                lemma_probes_are_allowed(v, d.1, from + 1);
                lemma_same_stages_chain(controls, d.1, probe_decisions(v, d.1, from + 1).1);
            }
        } else {
            lemma_probes_are_allowed(v, controls, from + 1);
        }
    }
}

proof fn lemma_same_stages_chain(
    a: Seq<StageControl>,
    b: Seq<StageControl>,
    c: Seq<StageControl>,
)
    requires
        same_stages(a, b),
        same_stages(b, c),
    ensures
        same_stages(a, c),
{
    assert forall|i: int| 0 <= i < a.len() implies same_stage(#[trigger] a[i], c[i]) by {
        assert(same_stage(a[i], b[i]));
        assert(same_stage(b[i], c[i]));
    }
}

proof fn lemma_anchors_are_allowed(v: Picture, controls: Seq<StageControl>, from: int)
    requires
        controls.len() <= usize::MAX,
        0 <= from <= controls.len(),
    ensures
        ({
            let d = anchor_decisions(v, controls, from);
            &&& d.0 matches Some(operation) ==> is_allowed(v, controls, operation)
            &&& same_stages(controls, d.1)
        }),
    decreases controls.len() - from,
{
    if from < controls.len() {
        if is_scalable_anchor(controls[from]) {
            let d = anchor_decision(v, controls, from);
            assert(same_stages(controls, d.1));
            if d.0 is None {
                lemma_anchors_are_allowed(v, d.1, from + 1);
                lemma_same_stages_chain(controls, d.1, anchor_decisions(v, d.1, from + 1).1);
            }
        } else {
            lemma_anchors_are_allowed(v, controls, from + 1);
        }
    }
}

proof fn lemma_decision_is_allowed(v: Picture, controls: Seq<StageControl>)
    requires
        controls.len() <= usize::MAX,
    ensures
        ({
            let d = decision(v, controls);
            &&& d.0 matches Some(operation) ==> is_allowed(v, controls, operation)
            &&& same_stages(controls, d.1)
        }),
{
    lemma_support_is_allowed(v, controls);
    let support = support_decision(v, controls);
    if support.0 is None {
        lemma_probes_are_allowed(v, support.1, 0);
        let probes = probe_decisions(v, support.1, 0);
        lemma_same_stages_chain(controls, support.1, probes.1);
        if probes.0 is None {
            lemma_anchors_are_allowed(v, probes.1, 0);
            let anchors = anchor_decisions(v, probes.1, 0);
            lemma_same_stages_chain(controls, probes.1, anchors.1);
            if anchors.0 is None {
                search::lemma_first_where_holds(
                    oversized(v.links, v.active, v.stages, anchors.1),
                    0,
                    controls.len() as int,
                );
                let idle = idle_decision(v.links, v.active, v.stages, anchors.1);
                assert(same_stages(anchors.1, idle.1));
                lemma_same_stages_chain(controls, anchors.1, idle.1);
            }
        }
    }
}

/// An anchor with a fixed thread count is never resized.
pub proof fn law_fixed_anchor_is_never_resized(v: Picture, controls: Seq<StageControl>)
    requires
        controls.len() <= usize::MAX,
    ensures
        decision(v, controls).0 matches Some(operation) ==> match operation {
            ScaleOperation::Add { stage_index, .. } => stage_index < controls.len() && !is_fixed(
                controls[stage_index as int],
            ),
            ScaleOperation::Remove { stage_index, .. } => stage_index < controls.len()
                && !is_fixed(controls[stage_index as int]),
        },
{
    lemma_decision_is_allowed(v, controls);
}

/// No stage gets a worker once the cap is reached.
pub proof fn law_growth_stays_under_the_cap(v: Picture, controls: Seq<StageControl>)
    requires
        controls.len() <= usize::MAX,
    ensures
        decision(v, controls).0 matches Some(ScaleOperation::Add { .. }) ==> total_workers(v.active)
            < v.cap,
{
    lemma_decision_is_allowed(v, controls);
}

/// An anchor never grows beyond its maximum.
pub proof fn law_anchor_stays_within_its_maximum(v: Picture, controls: Seq<StageControl>)
    requires
        controls.len() <= usize::MAX,
    ensures
        decision(v, controls).0 matches Some(ScaleOperation::Add { stage_index, .. }) ==> (
        controls[stage_index as int].anchor matches Some(anchor) ==> workers(v, stage_index as int)
            < anchor.max_threads),
{
    lemma_decision_is_allowed(v, controls);
}

/// While the pipeline's output piles up, no stage gets a worker.
pub proof fn law_backed_up_output_stops_growth(v: Picture, controls: Seq<StageControl>)
    requires
        controls.len() <= usize::MAX,
        output_backs_up(v),
    ensures
        !(decision(v, controls).0 matches Some(ScaleOperation::Add { .. })),
{
    lemma_decision_is_allowed(v, controls);
}

/// A stage that gives up any one of its workers keeps at least one.
pub proof fn law_shrinking_leaves_a_worker(v: Picture, controls: Seq<StageControl>)
    requires
        controls.len() <= usize::MAX,
    ensures
        decision(v, controls).0 matches Some(
            ScaleOperation::Remove { stage_index, worker_id: None, .. },
        ) ==> workers(v, stage_index as int) > 1,
{
    lemma_decision_is_allowed(v, controls);
}

/// A worker that is named to be retired is one that an anchor tries out.
pub proof fn law_only_a_probe_is_taken_back_by_name(v: Picture, controls: Seq<StageControl>)
    requires
        controls.len() <= usize::MAX,
    ensures
        decision(v, controls).0 matches Some(
            ScaleOperation::Remove { stage_index, worker_id: Some(id), .. },
        ) ==> is_on_probe(controls[stage_index as int], id),
{
    lemma_decision_is_allowed(v, controls);
}

/// A stage that settles is neither grown to support an anchor nor asked to give
/// up any one of its workers.
pub proof fn law_settling_stage_is_left_alone(v: Picture, controls: Seq<StageControl>, stage: usize)
    requires
        controls.len() <= usize::MAX,
        stage < controls.len(),
        controls[stage as int].settling,
    ensures
        !(decision(v, controls).0 matches Some(ScaleOperation::Add { stage_index, reason })
            && stage_index == stage && reason == ScaleReason::Support),
        !(decision(v, controls).0 matches Some(
            ScaleOperation::Remove { stage_index, worker_id: None, .. },
        ) && stage_index == stage),
{
    lemma_decision_is_allowed(v, controls);
}

/// A probe is not judged while another stage settles after it grew.
pub proof fn law_settling_growth_blocks_a_probe(
    v: Picture,
    controls: Seq<StageControl>,
    a: int,
    other: int,
)
    requires
        0 <= other < controls.len(),
        other != a,
        controls[other].settling,
        controls[other].last_operation == Some(ScaleDirection::Add),
    ensures
        probe_decision(v, controls, a) == (None::<ScaleOperation>, controls),
{
}

/// A decision never changes what was measured of a stage, how it settles, or
/// what an anchor was set up with.
pub proof fn law_decisions_keep_the_measurements(v: Picture, controls: Seq<StageControl>)
    requires
        controls.len() <= usize::MAX,
    ensures
        same_stages(controls, decision(v, controls).1),
{
    lemma_decision_is_allowed(v, controls);
}

/// The count of all workers adds each stage's workers once.
pub proof fn law_workers_add_up(a: Seq<nat>, b: Seq<nat>, one: nat)
    ensures
        total_workers(Seq::empty()) == 0,
        total_workers(seq![one]) == one,
        total_workers(a + b) == total_workers(a) + total_workers(b),
    decreases b.len(),
{
    assert(seq![one].drop_last() =~= Seq::<nat>::empty());
    assert(total_workers(seq![one].drop_last()) == 0);
    if b.len() == 0 {
        assert(a + b =~= a);
    } else {
        law_workers_add_up(a, b.drop_last(), one);
        assert((a + b).drop_last() =~= a + b.drop_last());
    }
}

/// What the rules look at is what they are given: the links, the number of workers
/// on each stage's list, the stages, the output and the cap.
pub proof fn law_rules_see_the_pipeline(
    links: Seq<LinkControl>,
    active_by_stage: Seq<Vec<usize>>,
    stages: Seq<RuntimeStage>,
    output_link: usize,
    cap: usize,
    i: int,
)
    requires
        0 <= i < active_by_stage.len(),
    ensures
        ({
            let v = picture(links, headcounts(active_by_stage), stages, output_link, cap);
            &&& v.links == links
            &&& v.stages == stages
            &&& v.output_link == output_link
            &&& v.cap == cap
            &&& v.active.len() == active_by_stage.len()
            &&& v.active[i] == active_by_stage[i]@.len()
        }),
{
}

/// An overloaded anchor is tried with one more worker: one that is scalable, warm,
/// without a probe and without a cooldown, that has not all its threads, while the
/// cap leaves room, its input keeps it fed, and neither its output nor the
/// pipeline's grows. Overloaded it is where its workers are saturated or its input
/// grows. No other anchor is.
pub proof fn law_overloaded_anchor_is_tried(v: Picture, controls: Seq<StageControl>, a: int)
    requires
        0 <= a < controls.len() <= usize::MAX,
    ensures
        ({
            let input = v.links[v.stages[a].input_link as int];
            let output = v.links[v.stages[a].output_link as int];
            let last = v.links[v.output_link as int];
            let grows = |t: QueueTrend| t is Growing || t is FastGrowing || t is Runaway;
            let starves = input.trend is Starved || ((input.trend is FastDraining || input.trend
                is Draining) && (input.len <= 2 * v.active[a] || input.len <= 1));
            let overloaded = controls[a].busy is Saturated || grows(input.trend);
            let ready = controls[a].anchor matches Some(anchor) && {
                &&& anchor.fixed_threads is None
                &&& anchor.probe is None
                &&& anchor.cooldown_samples == 0
                &&& anchor.warmup_complete
                &&& v.active[a] < anchor.max_threads
            };
            let room = total_workers(v.active) < v.cap && !grows(output.trend) && !grows(
                last.trend,
            );
            anchor_decision(v, controls, a).0 == if ready && room && !starves && overloaded {
                Some(
                    ScaleOperation::Add {
                        stage_index: a as usize,
                        reason: ScaleReason::AnchorProbe,
                    },
                )
            } else {
                None
            }
        }),
{
}

/// An anchor whose input grows is tried with one more worker, however busy it is;
/// and one that is saturated and fed is, whatever the trend of its input.
pub proof fn law_growing_input_or_saturation_starts_a_probe(
    v: Picture,
    controls: Seq<StageControl>,
    a: int,
    anchor: AnchorControl,
)
    requires
        0 <= a < controls.len() <= usize::MAX,
        controls[a].anchor == Some(anchor),
        anchor.fixed_threads is None,
        anchor.probe is None,
        anchor.cooldown_samples == 0,
        anchor.warmup_complete,
        v.active[a] < anchor.max_threads,
        total_workers(v.active) < v.cap,
        ({
            let output = v.links[v.stages[a].output_link as int].trend;
            let last = v.links[v.output_link as int].trend;
            !(output is Growing || output is FastGrowing || output is Runaway) && !(last is Growing
                || last is FastGrowing || last is Runaway)
        }),
    ensures
        ({
            let input = v.links[v.stages[a].input_link as int];
            let add = Some(
                ScaleOperation::Add { stage_index: a as usize, reason: ScaleReason::AnchorProbe },
            );
            &&& (input.trend is Growing || input.trend is FastGrowing || input.trend is Runaway)
                ==> anchor_decision(v, controls, a).0 == add
            &&& controls[a].busy is Saturated && (input.trend is Stable || (!(
            input.trend is Starved) && input.len > 2 * v.active[a] && input.len > 1))
                ==> anchor_decision(v, controls, a).0 == add
        }),
{
    law_overloaded_anchor_is_tried(v, controls, a);
}

/// Looking at an anchor for a probe changes nothing but that anchor's scaling state:
/// it backs off while it cools down or is cold, and is eligible otherwise.
pub proof fn law_waiting_anchor_shows_its_state(
    v: Picture,
    controls: Seq<StageControl>,
    a: int,
    anchor: AnchorControl,
)
    requires
        0 <= a < controls.len() <= usize::MAX,
        controls[a].anchor == Some(anchor),
    ensures
        ({
            let after = anchor_decision(v, controls, a).1;
            let state = after[a].scaling_state;
            &&& after.len() == controls.len()
            &&& forall|i: int| 0 <= i < controls.len() && i != a ==> after[i] == controls[i]
            &&& after[a] == (StageControl { scaling_state: state, ..controls[a] })
            &&& anchor.fixed_threads is None && anchor.probe is None ==> {
                &&& anchor.cooldown_samples > 0 ==> state is BackingOff
                &&& anchor.cooldown_samples == 0 && v.active[a] >= anchor.max_threads ==> state
                    is Eligible
                &&& anchor.cooldown_samples == 0 && v.active[a] < anchor.max_threads
                    && !anchor.warmup_complete ==> state is BackingOff
                &&& anchor.cooldown_samples == 0 && v.active[a] < anchor.max_threads
                    && anchor.warmup_complete && anchor_decision(v, controls, a).0 is None
                    ==> state is Eligible
            }
        }),
{
}

/// A probe is judged once it has been sampled twice and has seen work, and nothing
/// else settles after growing. It is taken back, by its own worker, where the
/// pipeline's output or its own output grows, the cap leaves no room, its input
/// starves it, or its workers are hardly busy while the input does not grow. With
/// none of these it is kept.
pub proof fn law_ripe_probe_is_judged(
    v: Picture,
    controls: Seq<StageControl>,
    a: int,
    anchor: AnchorControl,
    probe: AnchorProbe,
)
    requires
        0 <= a < controls.len() <= usize::MAX,
        controls[a].anchor == Some(anchor),
        anchor.probe == Some(probe),
        forall|i: int|
            0 <= i < controls.len() && i != a && (#[trigger] controls[i]).settling
                ==> controls[i].last_operation != Some(ScaleDirection::Add),
    ensures
        ({
            let input = v.links[v.stages[a].input_link as int];
            let output = v.links[v.stages[a].output_link as int];
            let last = v.links[v.output_link as int];
            let grows = |t: QueueTrend| t is Growing || t is FastGrowing || t is Runaway;
            let starves = input.trend is Starved || ((input.trend is FastDraining || input.trend
                is Draining) && (input.len <= 2 * v.active[a] || input.len <= 1));
            let crowded = total_workers(v.active) >= v.cap && v.active[a] > 1;
            let slack = (controls[a].busy is Idle || controls[a].busy is Light) && !grows(
                input.trend,
            );
            let bad = grows(last.trend) || crowded || starves || grows(output.trend) || slack;
            let ripe = probe.samples >= 2 && probe.observed_work;
            let d = probe_decision(v, controls, a);
            &&& d.0 == if ripe && bad {
                Some(
                    ScaleOperation::Remove {
                        stage_index: a as usize,
                        worker_id: Some(probe.worker_id),
                        reason: ScaleReason::AnchorRevert,
                    },
                )
            } else {
                None
            }
            &&& !ripe ==> d.1 == controls
            &&& d.1.len() == controls.len()
            &&& forall|i: int| 0 <= i < controls.len() && i != a ==> d.1[i] == controls[i]
            &&& ripe && !bad ==> {
                &&& d.1[a].scaling_state is Eligible
                &&& d.1[a].anchor == Some(
                    AnchorControl {
                        probe: None,
                        last_probe_outcome: AnchorProbeOutcome::Kept,
                        last_probe_reason: AnchorProbeReason::Unset,
                        cooldown_samples: 2,
                        ..anchor
                    },
                )
            }
            &&& ripe && bad ==> {
                let why = d.1[a].anchor->0.last_probe_reason;
                &&& d.1[a] == (StageControl {
                    anchor: Some(AnchorControl { last_probe_reason: why, ..anchor }),
                    ..controls[a]
                })
                &&& grows(last.trend) ==> why is OutputBackpressure
                &&& !grows(last.trend) && crowded ==> why is BudgetPressure
                &&& !grows(last.trend) && !crowded && starves ==> why is InputUnderfed
                &&& !grows(last.trend) && !crowded && !starves && grows(output.trend) ==> why
                    is SupportUnstable
                &&& !grows(last.trend) && !crowded && !starves && !grows(output.trend) ==> why
                    is Idle
            }
        }),
{
    assert(!growth_settles_beside(controls, a));
}

/// Anchor `i` is scalable, has a worker to spare, and is neither settling nor
/// trying one out.
pub open spec fn spares_a_worker(active: Seq<nat>, control: StageControl, i: int) -> bool {
    &&& control.anchor is Some && control.anchor->0.fixed_threads is None
    &&& active[i] > 1
    &&& !control.settling
    &&& !(control.scaling_state is Settling)
    &&& !(control.scaling_state is Probing)
}

/// A stage that is to grow gets a worker while the cap leaves room. At the cap the
/// first other anchor that can spare a worker gives one up for it; where there is
/// none, nothing happens.
pub proof fn law_growth_takes_room_or_makes_it(
    active: Seq<nat>,
    cap: usize,
    controls: Seq<StageControl>,
    stage: int,
    first: int,
)
    requires
        0 <= stage <= usize::MAX,
        controls.len() <= usize::MAX,
    ensures
        total_workers(active) < cap ==> growth_of(active, cap, controls, stage) == (
            Some(ScaleOperation::Add { stage_index: stage as usize, reason: ScaleReason::Support }),
            controls,
        ),
        total_workers(active) >= cap && 0 <= first < controls.len() && first != stage
            && spares_a_worker(active, controls[first], first) && (forall|i: int|
            0 <= i < first && i != stage ==> !spares_a_worker(active, #[trigger] controls[i], i))
            ==> growth_of(active, cap, controls, stage).0 == Some(
            ScaleOperation::Remove {
                stage_index: first as usize,
                worker_id: None,
                reason: ScaleReason::BudgetPressure,
            },
        ),
        total_workers(active) >= cap && (forall|i: int|
            0 <= i < controls.len() && i != stage ==> !spares_a_worker(
                active,
                #[trigger] controls[i],
                i,
            )) ==> growth_of(active, cap, controls, stage) == (None::<ScaleOperation>, controls),
{
    let p = sparing_for(active, controls, stage);
    search::lemma_first_where_holds(p, 0, controls.len() as int);
    assert forall|i: int| 0 <= i < controls.len() implies #[trigger] p(i) == (i != stage
        && spares_a_worker(active, controls[i], i)) by {}
    if 0 <= first < controls.len() {
        assert(p(first) == (first != stage && spares_a_worker(active, controls[first], first)));
    }
}

/// While the pipeline's output grows, the first anchor that can spare a worker
/// gives one up, and nothing else happens for the stages' support.
pub proof fn law_backed_up_output_reduces_an_anchor(
    v: Picture,
    controls: Seq<StageControl>,
    first: int,
)
    requires
        controls.len() <= usize::MAX,
        ({
            let last = v.links[v.output_link as int].trend;
            last is Growing || last is FastGrowing || last is Runaway
        }),
    ensures
        0 <= first < controls.len() && spares_a_worker(v.active, controls[first], first) && (
        forall|i: int|
            0 <= i < first ==> !spares_a_worker(v.active, #[trigger] controls[i], i))
            ==> support_decision(v, controls).0 == Some(
            ScaleOperation::Remove {
                stage_index: first as usize,
                worker_id: None,
                reason: ScaleReason::AnchorRevert,
            },
        ) && support_decision(v, controls).1[first].anchor->0.last_probe_reason
            is OutputBackpressure,
        (forall|i: int|
            0 <= i < controls.len() ==> !spares_a_worker(v.active, #[trigger] controls[i], i))
            ==> support_decision(v, controls) == (None::<ScaleOperation>, controls),
{
    let p = sparing(v.active, controls);
    search::lemma_first_where_holds(p, 0, controls.len() as int);
    assert forall|i: int| 0 <= i < controls.len() implies #[trigger] p(i) == spares_a_worker(
        v.active,
        controls[i],
        i,
    ) by {}
    if 0 <= first < controls.len() {
        assert(p(first) == spares_a_worker(v.active, controls[first], first));
    }
}

/// Stage `s` reads link `l`, is no anchor, wants more workers than it has, and is
/// neither settling nor trying one out.
pub open spec fn wants_help_on(v: Picture, control: StageControl, l: int, s: int) -> bool {
    &&& v.stages[s].input_link == l
    &&& control.anchor is None
    &&& v.active[s] < control.desired_workers
    &&& !control.settling
    &&& !(control.scaling_state is Settling)
    &&& !(control.scaling_state is Probing)
}

/// A stage that its growing input overruns, and that wants more workers, comes
/// before the anchors: the first such stage of the first such link grows.
pub proof fn law_overrun_stage_grows_first(
    v: Picture,
    controls: Seq<StageControl>,
    l: int,
    s: int,
)
    requires
        controls.len() <= usize::MAX,
        ({
            let last = v.links[v.output_link as int].trend;
            !(last is Growing || last is FastGrowing || last is Runaway)
        }),
        0 <= l < v.links.len(),
        0 <= s < controls.len(),
        v.links[l].trend is Growing || v.links[l].trend is FastGrowing || v.links[l].trend
            is Runaway,
        wants_help_on(v, controls[s], l, s),
        forall|t: int| 0 <= t < s ==> !wants_help_on(v, #[trigger] controls[t], l, t),
        forall|k: int, t: int|
            0 <= k < l && 0 <= t < controls.len() && ((#[trigger] v.links[k]).trend is Growing
                || v.links[k].trend is FastGrowing || v.links[k].trend is Runaway)
                ==> !wants_help_on(v, #[trigger] controls[t], k, t),
    ensures
        support_decision(v, controls) == growth_of(v.active, v.cap, controls, s),
        total_workers(v.active) < v.cap ==> support_decision(v, controls).0 == Some(
            ScaleOperation::Add { stage_index: s as usize, reason: ScaleReason::Support },
        ),
{
    let n = controls.len() as int;
    let needy = needy_on(v, controls, l);
    search::lemma_first_where_holds(needy, 0, n);
    assert(needy(s));
    assert forall|t: int| 0 <= t < s implies !#[trigger] needy(t) by {
        assert(!wants_help_on(v, controls[t], l, t));
    }
    assert(needy_consumer(v, controls, l) == Some(s));
    let flood = overflowing(v, controls);
    search::lemma_first_where_holds(flood, 0, v.links.len() as int);
    assert(flood(l));
    assert forall|k: int| 0 <= k < l implies !#[trigger] flood(k) by {
        if flood(k) {
            search::lemma_first_where_holds(needy_on(v, controls, k), 0, n);
            let t = needy_consumer(v, controls, k)->0;
            assert(needy_on(v, controls, k)(t));
            assert(v.links[k].trend == v.links[k].trend);
            assert(wants_help_on(v, controls[t], k, t));
        }
    }
}

/// Stage `s` writes the input of anchor `a`, has input of its own, may grow, and is
/// no anchor with all its threads.
pub open spec fn can_help(v: Picture, control: StageControl, a: int, s: int) -> bool {
    &&& v.stages[s].output_link == v.stages[a].input_link
    &&& !(v.links[v.stages[s].input_link as int].trend is Starved)
    &&& !control.settling
    &&& !(control.scaling_state is Settling)
    &&& !(control.scaling_state is Probing)
    &&& control.anchor matches Some(anchor) ==> anchor.fixed_threads is None && v.active[s]
        < anchor.max_threads
}

/// Anchor `a` is busy while its input starves it.
pub open spec fn goes_hungry(v: Picture, control: StageControl, a: int) -> bool {
    let input = v.links[v.stages[a].input_link as int];
    &&& control.anchor is Some
    &&& control.busy is Busy || control.busy is Saturated
    &&& input.trend is Starved || ((input.trend is FastDraining || input.trend is Draining) && (
    input.len <= 2 * v.active[a] || input.len <= 1))
}

/// For a busy anchor that its input starves, the first stage that can help to feed
/// it grows; where none can, the anchor gives up a worker that it can spare.
pub proof fn law_hungry_anchor_is_helped(
    v: Picture,
    controls: Seq<StageControl>,
    a: int,
    s: int,
)
    requires
        controls.len() <= usize::MAX,
        ({
            let last = v.links[v.output_link as int].trend;
            !(last is Growing || last is FastGrowing || last is Runaway)
        }),
        forall|l: int, t: int|
            0 <= l < v.links.len() && 0 <= t < controls.len() && ((#[trigger] v.links[l]).trend
                is Growing || v.links[l].trend is FastGrowing || v.links[l].trend is Runaway)
                ==> !wants_help_on(v, #[trigger] controls[t], l, t),
        0 <= a < controls.len(),
        goes_hungry(v, controls[a], a),
        forall|b: int| 0 <= b < a ==> !goes_hungry(v, #[trigger] controls[b], b),
    ensures
        0 <= s < controls.len() && can_help(v, controls[s], a, s) && (forall|t: int|
            0 <= t < s ==> !can_help(v, #[trigger] controls[t], a, t)) ==> support_decision(
            v,
            controls,
        ) == growth_of(v.active, v.cap, controls, s),
        (forall|t: int|
            0 <= t < controls.len() ==> !can_help(v, #[trigger] controls[t], a, t))
            && spares_a_worker(v.active, controls[a], a) ==> support_decision(v, controls).0 == Some(
            ScaleOperation::Remove {
                stage_index: a as usize,
                worker_id: None,
                reason: ScaleReason::AnchorRevert,
            },
        ) && support_decision(v, controls).1[a].anchor->0.last_probe_reason is InputUnderfed,
{
    let n = controls.len() as int;
    lemma_no_flood(v, controls);
    let help = helping(v, controls, a);
    search::lemma_first_where_holds(help, 0, n);
    assert forall|t: int| 0 <= t < n implies #[trigger] help(t) == can_help(v, controls[t], a, t) by {
        assert(can_scale(controls[t]) == (!is_fixed(controls[t]) && !controls[t].settling
            && !(controls[t].scaling_state is Settling) && !(controls[t].scaling_state
            is Probing)));
    }
    let asking = asking_for_help(v, controls);
    search::lemma_first_where_holds(asking, 0, n);
    assert forall|b: int| 0 <= b < a implies !#[trigger] asking(b) by {
        assert(!goes_hungry(v, controls[b], b));
    }
    assert(is_underfed(v, controls, a));
    if 0 <= s < n {
        assert(help(s) == can_help(v, controls[s], a, s));
    }
    assert(can_spare(v.active, controls, a) == spares_a_worker(v.active, controls[a], a));
    if helper_of(v, controls, a) is Some || can_spare(v.active, controls, a) {
        assert(asking(a));
    }
}

proof fn lemma_no_flood(v: Picture, controls: Seq<StageControl>)
    requires
        forall|l: int, t: int|
            0 <= l < v.links.len() && 0 <= t < controls.len() && ((#[trigger] v.links[l]).trend
                is Growing || v.links[l].trend is FastGrowing || v.links[l].trend is Runaway)
                ==> !wants_help_on(v, #[trigger] controls[t], l, t),
    ensures
        search::first_where(overflowing(v, controls), 0, v.links.len() as int) is None,
{
    let flood = overflowing(v, controls);
    search::lemma_first_where_holds(flood, 0, v.links.len() as int);
    assert forall|k: int| 0 <= k < v.links.len() implies !#[trigger] flood(k) by {
        if flood(k) {
            search::lemma_first_where_holds(needy_on(v, controls, k), 0, controls.len() as int);
            let t = needy_consumer(v, controls, k)->0;
            assert(needy_on(v, controls, k)(t));
            assert(v.links[k].trend == v.links[k].trend);
            assert(wants_help_on(v, controls[t], k, t));
        }
    }
}

/// Where the pipeline's output does not grow, no growing link overruns a stage that
/// wants more workers, and no busy anchor is starved, the stages need no support.
pub proof fn law_content_stages_get_no_support(v: Picture, controls: Seq<StageControl>)
    requires
        ({
            let last = v.links[v.output_link as int].trend;
            !(last is Growing || last is FastGrowing || last is Runaway)
        }),
        forall|l: int, t: int|
            0 <= l < v.links.len() && 0 <= t < controls.len() && ((#[trigger] v.links[l]).trend
                is Growing || v.links[l].trend is FastGrowing || v.links[l].trend is Runaway)
                ==> !wants_help_on(v, #[trigger] controls[t], l, t),
        forall|a: int| 0 <= a < controls.len() ==> !goes_hungry(v, #[trigger] controls[a], a),
    ensures
        support_decision(v, controls) == (None::<ScaleOperation>, controls),
{
    lemma_no_flood(v, controls);
    let asking = asking_for_help(v, controls);
    search::lemma_first_where_holds(asking, 0, controls.len() as int);
    assert forall|b: int| 0 <= b < controls.len() implies !#[trigger] asking(b) by {
        assert(!goes_hungry(v, controls[b], b));
    }
}

/// Stage `i` has a worker too many, and may give it back.
pub open spec fn has_one_too_many(
    links: Seq<LinkControl>,
    active: Seq<nat>,
    stages: Seq<RuntimeStage>,
    control: StageControl,
    i: int,
) -> bool {
    let input = links[stages[i].input_link as int].trend;
    &&& active[i] > 1
    &&& !(control.anchor is Some && control.anchor->0.fixed_threads is Some)
    &&& !control.settling
    &&& !(control.scaling_state is Settling)
    &&& !(control.scaling_state is Probing)
    &&& control.idle_samples >= 50 || (control.anchor is None && active[i]
        > control.desired_workers && !(input is Growing || input is FastGrowing || input
        is Runaway))
}

/// The first stage that has a worker too many gives one back: one that has been idle
/// for fifty samples, or that wants fewer workers while its input does not grow.
/// Where there is none, nothing happens.
pub proof fn law_spare_worker_is_given_back(
    links: Seq<LinkControl>,
    active: Seq<nat>,
    stages: Seq<RuntimeStage>,
    controls: Seq<StageControl>,
    first: int,
)
    requires
        controls.len() <= usize::MAX,
    ensures
        0 <= first < controls.len() && has_one_too_many(
            links,
            active,
            stages,
            controls[first],
            first,
        ) && (forall|i: int|
            0 <= i < first ==> !has_one_too_many(links, active, stages, #[trigger] controls[i], i))
            ==> (idle_decision(links, active, stages, controls).0 matches Some(
            ScaleOperation::Remove { stage_index, worker_id, reason },
        ) && stage_index == first && worker_id is None && (reason is Idle ==> controls[first].idle_samples
            >= 50) && (reason is Support ==> controls[first].anchor is None && active[first]
            > controls[first].desired_workers) && (reason is Idle || reason is Support)),
        (forall|i: int|
            0 <= i < controls.len() ==> !has_one_too_many(
                links,
                active,
                stages,
                #[trigger] controls[i],
                i,
            )) ==> idle_decision(links, active, stages, controls) == (
            None::<ScaleOperation>,
            controls,
        ),
{
    let p = oversized(links, active, stages, controls);
    search::lemma_first_where_holds(p, 0, controls.len() as int);
    assert forall|i: int| 0 <= i < controls.len() implies #[trigger] p(i) == has_one_too_many(
        links,
        active,
        stages,
        controls[i],
        i,
    ) by {}
    if 0 <= first < controls.len() {
        assert(p(first) == has_one_too_many(links, active, stages, controls[first], first));
    }
}

/// What the stages need comes before everything else.
pub proof fn law_support_comes_first(v: Picture, controls: Seq<StageControl>)
    requires
        support_decision(v, controls).0 is Some,
    ensures
        decision(v, controls) == support_decision(v, controls),
{
}

proof fn lemma_untouched_support(v: Picture, controls: Seq<StageControl>)
    requires
        support_decision(v, controls).0 is None,
    ensures
        support_decision(v, controls).1 == controls,
{
}

proof fn lemma_quiet_probes(v: Picture, controls: Seq<StageControl>, from: int)
    requires
        0 <= from,
        forall|i: int|
            from <= i < controls.len() && (#[trigger] controls[i]).anchor is Some
                ==> controls[i].anchor->0.fixed_threads is Some || controls[i].anchor->0.probe
                is None,
    ensures
        probe_decisions(v, controls, from) == (None::<ScaleOperation>, controls),
    decreases controls.len() - from,
{
    if from < controls.len() {
        assert(controls[from].anchor is Some ==> controls[from].anchor->0.fixed_threads is Some
            || controls[from].anchor->0.probe is None);
        lemma_quiet_probes(v, controls, from + 1);
    }
}

proof fn lemma_first_tried(v: Picture, controls: Seq<StageControl>, from: int, a: int)
    requires
        0 <= from <= a < controls.len() <= usize::MAX,
        anchor_decision(v, controls, a).0 is Some,
        forall|i: int| from <= i < a ==> (#[trigger] anchor_decision(v, controls, i)).0 is None,
    ensures
        anchor_decisions(v, controls, from).0 == anchor_decision(v, controls, a).0,
    decreases a - from,
{
    if from < a {
        let here = anchor_decision(v, controls, from);
        assert(here.0 is None);
        let after = if is_scalable_anchor(controls[from]) {
            here.1
        } else {
            controls
        };
        assert(after.len() == controls.len());
        assert forall|i: int| from < i < controls.len() implies (#[trigger] anchor_decision(
            v,
            after,
            i,
        )).0 == anchor_decision(v, controls, i).0 by {
            assert(after[i] == controls[i]);
        }
        assert forall|i: int| from + 1 <= i < a implies (#[trigger] anchor_decision(
            v,
            after,
            i,
        )).0 is None by {
            assert(anchor_decision(v, controls, i).0 is None);
        }
        lemma_first_tried(v, after, from + 1, a);
    }
}

/// Where the stages need nothing and no anchor is on probe, the first anchor that
/// is due for a probe gets one.
pub proof fn law_due_anchor_is_tried(v: Picture, controls: Seq<StageControl>, a: int)
    requires
        0 <= a < controls.len() <= usize::MAX,
        support_decision(v, controls).0 is None,
        forall|i: int|
            0 <= i < controls.len() && (#[trigger] controls[i]).anchor is Some
                ==> controls[i].anchor->0.fixed_threads is Some || controls[i].anchor->0.probe
                is None,
        anchor_decision(v, controls, a).0 is Some,
        forall|i: int| 0 <= i < a ==> (#[trigger] anchor_decision(v, controls, i)).0 is None,
    ensures
        decision(v, controls).0 == Some(
            ScaleOperation::Add { stage_index: a as usize, reason: ScaleReason::AnchorProbe },
        ),
{
    lemma_untouched_support(v, controls);
    lemma_quiet_probes(v, controls, 0);
    lemma_first_tried(v, controls, 0, a);
}

/// Where the stages need nothing, the first probe that is to be taken back is.
pub proof fn law_failed_probe_is_taken_back(v: Picture, controls: Seq<StageControl>, a: int)
    requires
        0 <= a < controls.len() <= usize::MAX,
        support_decision(v, controls).0 is None,
        is_scalable_anchor(controls[a]),
        probe_decision(v, controls, a).0 is Some,
        forall|i: int| 0 <= i < a ==> (#[trigger] probe_decision(v, controls, i)).0 is None,
    ensures
        decision(v, controls).0 == probe_decision(v, controls, a).0,
{
    lemma_untouched_support(v, controls);
    lemma_first_taken_back(v, controls, 0, a);
}

proof fn lemma_first_taken_back(v: Picture, controls: Seq<StageControl>, from: int, a: int)
    requires
        0 <= from <= a < controls.len() <= usize::MAX,
        is_scalable_anchor(controls[a]),
        probe_decision(v, controls, a).0 is Some,
        forall|i: int| from <= i < a ==> (#[trigger] probe_decision(v, controls, i)).0 is None,
    ensures
        probe_decisions(v, controls, from).0 == probe_decision(v, controls, a).0,
    decreases a - from,
{
    if from < a {
        let here = probe_decision(v, controls, from);
        assert(here.0 is None);
        let after = if is_scalable_anchor(controls[from]) {
            here.1
        } else {
            controls
        };
        assert(after.len() == controls.len());
        assert(forall|k: int|
            0 <= k < controls.len() ==> (#[trigger] after[k]).settling == controls[k].settling
                && after[k].last_operation == controls[k].last_operation);
        assert forall|i: int| from < i < controls.len() implies (#[trigger] probe_decision(
            v,
            after,
            i,
        )).0 == probe_decision(v, controls, i).0 by {
            assert(after[i] == controls[i]);
            lemma_same_settling(controls, after, i);
        }
        assert forall|i: int| from + 1 <= i < a implies (#[trigger] probe_decision(
            v,
            after,
            i,
        )).0 is None by {
            assert(probe_decision(v, controls, i).0 is None);
        }
        lemma_first_taken_back(v, after, from + 1, a);
    }
}

proof fn lemma_same_settling(a: Seq<StageControl>, b: Seq<StageControl>, i: int)
    requires
        a.len() == b.len(),
        forall|k: int|
            0 <= k < a.len() ==> (#[trigger] b[k]).settling == a[k].settling && b[k].last_operation
                == a[k].last_operation,
    ensures
        growth_settles_beside(a, i) == growth_settles_beside(b, i),
{
    if growth_settles_beside(a, i) {
        let k = choose|k: int|
            0 <= k < a.len() && k != i && (#[trigger] a[k]).settling && a[k].last_operation == Some(
                ScaleDirection::Add,
            );
        assert(b[k].settling);
    }
    if growth_settles_beside(b, i) {
        let k = choose|k: int|
            0 <= k < b.len() && k != i && (#[trigger] b[k]).settling && b[k].last_operation == Some(
                ScaleDirection::Add,
            );
        assert(a[k].settling);
    }
}

/// In a pipeline without a scalable anchor, what is not needed for support is given
/// back: the decision is then that of the idle rule.
pub proof fn law_idle_rule_comes_last(v: Picture, controls: Seq<StageControl>)
    requires
        controls.len() <= usize::MAX,
        support_decision(v, controls).0 is None,
        forall|i: int|
            0 <= i < controls.len() && (#[trigger] controls[i]).anchor is Some
                ==> controls[i].anchor->0.fixed_threads is Some,
    ensures
        decision(v, controls) == idle_decision(v.links, v.active, v.stages, controls),
{
    lemma_untouched_support(v, controls);
    lemma_quiet_probes(v, controls, 0);
    lemma_no_anchor_tried(v, controls, 0);
}

proof fn lemma_no_anchor_tried(v: Picture, controls: Seq<StageControl>, from: int)
    requires
        0 <= from,
        forall|i: int|
            0 <= i < controls.len() && (#[trigger] controls[i]).anchor is Some
                ==> controls[i].anchor->0.fixed_threads is Some,
    ensures
        anchor_decisions(v, controls, from) == (None::<ScaleOperation>, controls),
    decreases controls.len() - from,
{
    if from < controls.len() {
        assert(controls[from].anchor is Some ==> controls[from].anchor->0.fixed_threads is Some);
        lemma_no_anchor_tried(v, controls, from + 1);
    }
}

/// Nothing is decided only where nothing is due: the stages need nothing, and no
/// anchor is tried or gives its probe back. With the first operation that is due,
/// something is decided.
pub proof fn law_what_is_due_is_decided(v: Picture, controls: Seq<StageControl>)
    requires
        controls.len() <= usize::MAX,
        decision(v, controls).0 is None,
    ensures
        support_decision(v, controls).0 is None,
        probe_decisions(v, controls, 0).0 is None,
        anchor_decisions(v, probe_decisions(v, controls, 0).1, 0).0 is None,
        idle_decision(v.links, v.active, v.stages, decision(v, controls).1).0 is None,
{
    lemma_untouched_support(v, controls);
}

/// A link underfeeds a stage where it is starved, and where it drains and holds no more
/// than one item, or than two for each worker.
pub proof fn law_underfed_stage_is_known(link: LinkControl, active_threads: usize, yes: bool)
    requires
        call_ensures(link_underfeeds_stage, (&link, active_threads), yes),
    ensures
        link.trend is Starved ==> yes,
        (link.trend is FastDraining || link.trend is Draining) ==> (yes <==> link.len <= 1
            || link.len <= 2 * active_threads),
        link.trend is Stable || link.trend is Growing || link.trend is FastGrowing || link.trend
            is Runaway ==> !yes,
{
}

/// A stage may be resized unless it is a fixed anchor, settles or tries a worker out.
pub proof fn law_stage_may_be_resized(
    controls: Vec<StageControl>,
    stage_index: usize,
    can: bool,
    may: bool,
)
    requires
        stage_index < controls@.len(),
        call_ensures(stage_can_scale, (&controls@[stage_index as int],), can),
        call_ensures(support_can_add, (stage_index, &controls), may),
    ensures
        ({
            let control = controls@[stage_index as int];
            &&& may == can
            &&& can <==> {
                &&& !(control.anchor is Some && control.anchor->0.fixed_threads is Some)
                &&& !control.settling
                &&& !(control.scaling_state is Settling)
                &&& !(control.scaling_state is Probing)
            }
        }),
{
}

/// A growth beside an anchor settles where some other stage settles after it was given
/// a worker.
pub proof fn law_growth_beside_is_known(
    controls: Vec<StageControl>,
    anchor_index: usize,
    yes: bool,
)
    requires
        call_ensures(support_growth_is_settling, (&controls, anchor_index), yes),
    ensures
        yes <==> exists|i: int|
            0 <= i < controls@.len() && i != anchor_index && (#[trigger] controls@[i]).settling
                && controls@[i].last_operation == Some(ScaleDirection::Add),
{
}

/// A reason is noted at its anchor alone, and nothing else of it changes.
pub proof fn law_reason_is_noted(
    controls: &mut Vec<StageControl>,
    anchor_index: usize,
    reason: AnchorProbeReason,
    i: int,
)
    requires
        anchor_index < old(controls)@.len(),
        call_ensures(set_anchor_reason, (controls, anchor_index, reason), ()),
        0 <= i < old(controls)@.len(),
    ensures
        i != anchor_index || old(controls)@[i].anchor is None ==> final(controls)@[i] == old(
            controls,
        )@[i],
        i == anchor_index && old(controls)@[i].anchor is Some ==> final(controls)@[i] == (
        StageControl {
            anchor: Some(
                AnchorControl { last_probe_reason: reason, ..old(controls)@[i].anchor->0 },
            ),
            ..old(controls)@[i]
        }),
        final(controls)@.len() == old(controls)@.len(),
{
}

/// Every worker on a list is counted: one more list adds its length.
pub proof fn law_every_worker_is_counted(
    fewer: Vec<Vec<usize>>,
    lists: Vec<Vec<usize>>,
    count_of_fewer: usize,
    count: usize,
)
    requires
        total_workers(headcounts(fewer@)) <= usize::MAX,
        total_workers(headcounts(lists@)) <= usize::MAX,
        call_ensures(active_worker_count, (&fewer,), count_of_fewer),
        call_ensures(active_worker_count, (&lists,), count),
    ensures
        lists@.len() == 0 ==> count == 0,
        lists@.len() > 0 && fewer@ == lists@.drop_last() ==> count == count_of_fewer
            + lists@.last()@.len(),
{
    if lists@.len() > 0 && fewer@ == lists@.drop_last() {
        assert(headcounts(lists@).drop_last() =~= headcounts(fewer@));
    }
}

/// An anchor is tried with one more worker exactly where it is scalable, warm, without a
/// probe, without a cooldown and not at its bound, the cap leaves room, neither its own
/// output nor the pipeline's grows, its input does not starve it, and its workers are
/// saturated or its input grows.
pub proof fn law_anchor_is_tried_when_overloaded(
    links: Vec<LinkControl>,
    active_by_stage: Vec<Vec<usize>>,
    controls: &mut Vec<StageControl>,
    stages: Vec<RuntimeStage>,
    anchor_index: usize,
    output_link: usize,
    global_worker_cap: usize,
    operation: Option<ScaleOperation>,
)
    requires
        anchor_index < old(controls)@.len() <= usize::MAX,
        active_by_stage@.len() == old(controls)@.len(),
        call_ensures(
            choose_anchor_operation,
            (
                &links,
                &active_by_stage,
                controls,
                &stages,
                anchor_index,
                output_link,
                global_worker_cap,
            ),
            operation,
        ),
    ensures
        ({
            let a = anchor_index as int;
            let control = old(controls)@[a];
            let threads = active_by_stage@[a]@.len();
            let input = links@[stages@[a].input_link as int];
            let output = links@[stages@[a].output_link as int];
            let last = links@[output_link as int];
            let grows = |t: QueueTrend| t is Growing || t is FastGrowing || t is Runaway;
            let starves = input.trend is Starved || ((input.trend is FastDraining || input.trend
                is Draining) && (input.len <= 2 * threads || input.len <= 1));
            let ready = control.anchor matches Some(anchor) && {
                &&& anchor.fixed_threads is None
                &&& anchor.probe is None
                &&& anchor.cooldown_samples == 0
                &&& anchor.warmup_complete
                &&& threads < anchor.max_threads
            };
            let room = total_workers(
                Seq::new(active_by_stage@.len(), |i: int| active_by_stage@[i]@.len()),
            ) < global_worker_cap && !grows(output.trend) && !grows(last.trend);
            let tried = ready && room && !starves && (control.busy is Saturated || grows(
                input.trend,
            ));
            &&& tried ==> operation == Some(
                ScaleOperation::Add { stage_index: anchor_index, reason: ScaleReason::AnchorProbe },
            )
            &&& !tried ==> operation is None
        }),
{
    assert(headcounts(active_by_stage@) =~= Seq::new(
        active_by_stage@.len(),
        |i: int| active_by_stage@[i]@.len(),
    ));
    law_overloaded_anchor_is_tried(
        picture(links@, headcounts(active_by_stage@), stages@, output_link, global_worker_cap),
        old(controls)@,
        anchor_index as int,
    );
}

/// The support of the anchors is decided on the pipeline as it is given: the links, the
/// number of workers on each list, the stages, the output and the cap.
pub proof fn law_support_is_decided_on_what_is_given(
    links: Vec<LinkControl>,
    active_by_stage: Vec<Vec<usize>>,
    controls: &mut Vec<StageControl>,
    stages: Vec<RuntimeStage>,
    output_link: usize,
    global_worker_cap: usize,
    supported: Option<ScaleOperation>,
)
    requires
        call_ensures(
            choose_support_operation,
            (&links, &active_by_stage, controls, &stages, output_link, global_worker_cap),
            supported,
        ),
    ensures
        ({
            let v = Picture {
                links: links@,
                active: Seq::new(active_by_stage@.len(), |i: int| active_by_stage@[i]@.len()),
                stages: stages@,
                output_link,
                cap: global_worker_cap,
            };
            (supported, final(controls)@) == support_decision(v, old(controls)@)
        }),
{
    assert(headcounts(active_by_stage@) =~= Seq::new(
        active_by_stage@.len(),
        |i: int| active_by_stage@[i]@.len(),
    ));
}

/// The probe of an anchor is judged on the pipeline as it is given.
pub proof fn law_probe_is_judged_on_what_is_given(
    links: Vec<LinkControl>,
    active_by_stage: Vec<Vec<usize>>,
    controls: &mut Vec<StageControl>,
    stages: Vec<RuntimeStage>,
    anchor_index: usize,
    output_link: usize,
    global_worker_cap: usize,
    judged: Option<ScaleOperation>,
)
    requires
        anchor_index < old(controls)@.len(),
        call_ensures(
            choose_anchor_probe_operation,
            (
                &links,
                &active_by_stage,
                controls,
                &stages,
                anchor_index,
                output_link,
                global_worker_cap,
            ),
            judged,
        ),
    ensures
        ({
            let v = Picture {
                links: links@,
                active: Seq::new(active_by_stage@.len(), |i: int| active_by_stage@[i]@.len()),
                stages: stages@,
                output_link,
                cap: global_worker_cap,
            };
            (judged, final(controls)@) == probe_decision(v, old(controls)@, anchor_index as int)
        }),
{
    assert(headcounts(active_by_stage@) =~= Seq::new(
        active_by_stage@.len(),
        |i: int| active_by_stage@[i]@.len(),
    ));
}

/// The next resizing is decided on the pipeline as it is given.
pub proof fn law_next_resizing_is_decided_on_what_is_given(
    links: Vec<LinkControl>,
    active_by_stage: Vec<Vec<usize>>,
    controls: &mut Vec<StageControl>,
    stages: Vec<RuntimeStage>,
    output_link: usize,
    global_worker_cap: usize,
    decided: Option<ScaleOperation>,
)
    requires
        call_ensures(
            choose_scale_operation,
            (&links, &active_by_stage, controls, &stages, output_link, global_worker_cap),
            decided,
        ),
    ensures
        ({
            let v = Picture {
                links: links@,
                active: Seq::new(active_by_stage@.len(), |i: int| active_by_stage@[i]@.len()),
                stages: stages@,
                output_link,
                cap: global_worker_cap,
            };
            (decided, final(controls)@) == decision(v, old(controls)@)
        }),
{
    assert(headcounts(active_by_stage@) =~= Seq::new(
        active_by_stage@.len(),
        |i: int| active_by_stage@[i]@.len(),
    ));
}

/// A worker too many is sought on the links, lists and stages that are given.
pub proof fn law_idle_stage_is_sought_in_what_is_given(
    links: Vec<LinkControl>,
    active_by_stage: Vec<Vec<usize>>,
    controls: &mut Vec<StageControl>,
    stages: Vec<RuntimeStage>,
    given_back: Option<ScaleOperation>,
)
    requires
        call_ensures(
            choose_idle_operation,
            (&links, &active_by_stage, controls, &stages),
            given_back,
        ),
    ensures
        (given_back, final(controls)@) == idle_decision(
            links@,
            Seq::new(active_by_stage@.len(), |i: int| active_by_stage@[i]@.len()),
            stages@,
            old(controls)@,
        ),
{
    assert(headcounts(active_by_stage@) =~= Seq::new(
        active_by_stage@.len(),
        |i: int| active_by_stage@[i]@.len(),
    ));
}

/// A stage grows under the cap, and at the cap another anchor makes room for it, by the
/// lists that are given.
pub proof fn law_growth_is_decided_on_what_is_given(
    stage_index: usize,
    active_by_stage: Vec<Vec<usize>>,
    controls: &mut Vec<StageControl>,
    global_worker_cap: usize,
    operation: Option<ScaleOperation>,
)
    requires
        call_ensures(
            add_or_rebalance_for_stage,
            (stage_index, &active_by_stage, controls, global_worker_cap),
            operation,
        ),
    ensures
        (operation, final(controls)@) == growth_of(
            Seq::new(active_by_stage@.len(), |i: int| active_by_stage@[i]@.len()),
            global_worker_cap,
            old(controls)@,
            stage_index as int,
        ),
{
    assert(headcounts(active_by_stage@) =~= Seq::new(
        active_by_stage@.len(),
        |i: int| active_by_stage@[i]@.len(),
    ));
}

/// A stage that gives up a worker remembers why, if it is an anchor, and nothing else is
/// remembered for it: at the cap that the budget presses, when it was idle that it was,
/// and when the output piles up that it does.
pub proof fn law_anchor_remembers_why_it_gave_up(
    v: Picture,
    controls: Seq<StageControl>,
    stage: int,
    i: int,
)
    requires
        0 <= i < controls.len() <= usize::MAX,
        0 <= stage <= usize::MAX,
    ensures
        ({
            let told = |after: Seq<StageControl>, why: AnchorProbeReason|
                {
                    &&& after.len() == controls.len()
                    &&& controls[i].anchor matches Some(anchor) ==> after[i] == (StageControl {
                        anchor: Some(AnchorControl { last_probe_reason: why, ..anchor }),
                        ..controls[i]
                    })
                    &&& controls[i].anchor is None ==> after[i] == controls[i]
                };
            let removes = |operation: Option<ScaleOperation>|
                operation is Some && operation->0 is Remove && operation->0->Remove_stage_index
                    == i;
            let growth = growth_of(v.active, v.cap, controls, stage);
            let idle = idle_decision(v.links, v.active, v.stages, controls);
            let support = support_decision(v, controls);
            let last = v.links[v.output_link as int].trend;
            &&& removes(growth.0) ==> told(growth.1, AnchorProbeReason::BudgetPressure)
            &&& !removes(growth.0) ==> growth.1[i] == controls[i]
            &&& removes(idle.0) && idle.0->0->Remove_reason is Idle ==> told(
                idle.1,
                AnchorProbeReason::Idle,
            )
            &&& !removes(idle.0) || idle.0->0->Remove_reason is Support ==> idle.1[i]
                == controls[i]
            &&& removes(support.0) && (last is Growing || last is FastGrowing || last is Runaway)
                ==> told(support.1, AnchorProbeReason::OutputBackpressure)
            &&& !removes(support.0) ==> support.1[i] == controls[i]
        }),
{
    let n = controls.len() as int;
    search::lemma_first_where_holds(sparing_for(v.active, controls, stage), 0, n);
    search::lemma_first_where_holds(
        oversized(v.links, v.active, v.stages, controls),
        0,
        n,
    );
    search::lemma_first_where_holds(sparing(v.active, controls), 0, n);
    search::lemma_first_where_holds(overflowing(v, controls), 0, v.links.len() as int);
    search::lemma_first_where_holds(asking_for_help(v, controls), 0, n);
    if let Some(l) = search::first_where(overflowing(v, controls), 0, v.links.len() as int) {
        let s = needy_consumer(v, controls, l)->0;
        search::lemma_first_where_holds(sparing_for(v.active, controls, s), 0, n);
    }
    if let Some(a) = search::first_where(asking_for_help(v, controls), 0, n) {
        let s = helper_of(v, controls, a)->0;
        search::lemma_first_where_holds(sparing_for(v.active, controls, s), 0, n);
    }
}

} // verus!

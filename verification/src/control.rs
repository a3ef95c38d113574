//! What the controller remembers of each stage, and how a sample of the stage's
//! workers changes it.
use crate::graph;
use crate::graph::{ResolvedAnchor, RuntimeStage};
use crate::trend;
use crate::trend::{LinkControl, QueueTrend};
use vstd::prelude::*;

verus! {

/// Samples that a stage rests after it was resized.
pub const SETTLE_SAMPLES: u32 = 2;

/// Samples after which an anchor's extra worker is judged.
pub const PROBE_SETTLE_SAMPLES: u32 = 2;

/// Samples without work after which a stage gives a worker back.
pub const IDLE_SHRINK_SAMPLES: u32 = 50;

/// Where a stage stands with respect to being resized.
#[derive(Clone, Copy, Debug, PartialEq, Eq, Structural)]
pub enum StageScalingState {
    Eligible,
    Settling,
    Probing,
    BackingOff,
}

/// Where an anchor stands in its search for the right thread count.
#[derive(Clone, Copy, Debug, PartialEq, Eq, Structural)]
pub enum AnchorProbeState {
    WarmingUp,
    Eligible,
    Probing,
    BackingOff,
    AtMax,
}

/// How an anchor's last probe ended.
#[derive(Clone, Copy, Debug, PartialEq, Eq, Structural)]
pub enum AnchorProbeOutcome {
    /// No probe has ended yet.
    Unset,
    Kept,
    Reverted,
}

/// Why an anchor last gave up a worker.
#[derive(Clone, Copy, Debug, PartialEq, Eq, Structural)]
pub enum AnchorProbeReason {
    /// There is no reason to tell.
    Unset,
    InputUnderfed,
    OutputBackpressure,
    BudgetPressure,
    SupportUnstable,
    Idle,
}

#[derive(Clone, Copy, Debug, PartialEq, Eq, Structural)]
pub enum ScaleDirection {
    Add,
    Remove,
}

/// Why a stage is resized.
#[derive(Clone, Copy, Debug, PartialEq, Eq, Structural)]
pub enum ScaleReason {
    Support,
    AnchorProbe,
    AnchorRevert,
    BudgetPressure,
    Idle,
}

/// The share of their time that a stage's workers spend on items:
///
/// - `Idle`: under 0.05
/// - `Light`: from 0.05 to under 0.45
/// - `Moderate`: from 0.45 to 0.60
/// - `Busy`: over 0.60 and under 0.70
/// - `Saturated`: 0.70 and over
#[derive(Clone, Copy, Debug, PartialEq, Eq, Structural)]
pub enum BusyBand {
    Idle,
    Light,
    Moderate,
    Busy,
    Saturated,
}

/// An extra worker that an anchor is trying out.
#[derive(Clone, Copy, Debug)]
pub struct AnchorProbe {
    pub worker_id: usize,
    pub samples: u32,
    pub observed_work: bool,
}

/// What the controller remembers of an anchor.
#[derive(Clone, Copy, Debug)]
pub struct AnchorControl {
    pub max_threads: usize,
    pub fixed_threads: Option<usize>,
    pub warmup_complete: bool,
    pub probe: Option<AnchorProbe>,
    pub cooldown_samples: u32,
    pub last_probe_outcome: AnchorProbeOutcome,
    pub last_probe_reason: AnchorProbeReason,
}

/// What the controller remembers of a stage.
#[derive(Clone, Copy, Debug)]
pub struct StageControl {
    pub processed_count: u64,
    pub busy: BusyBand,
    pub desired_workers: usize,
    pub last_sample_processed: u64,
    pub scaling_state: StageScalingState,
    pub settling: bool,
    pub settle_samples: u32,
    pub settle_observed_work: bool,
    pub idle_samples: u32,
    pub last_operation: Option<ScaleDirection>,
    pub anchor: Option<AnchorControl>,
}

/// What a stage's workers did since the sample before.
#[derive(Clone, Copy, Debug)]
pub struct StageSample {
    pub process_nanos: u64,
    pub wait_nanos: u64,
    pub processed_items: u64,
}

/// The memory of an anchor that has not run yet.
pub open spec fn fresh_anchor(anchor: ResolvedAnchor) -> AnchorControl {
    AnchorControl {
        max_threads: anchor.max_threads,
        fixed_threads: anchor.fixed_threads,
        warmup_complete: false,
        probe: None,
        cooldown_samples: 0,
        last_probe_outcome: AnchorProbeOutcome::Unset,
        last_probe_reason: AnchorProbeReason::Unset,
    }
}

/// The memory of a stage that has not run yet.
pub open spec fn fresh_control(stage: RuntimeStage) -> StageControl {
    StageControl {
        processed_count: 0,
        busy: BusyBand::Idle,
        desired_workers: 1,
        last_sample_processed: 0,
        scaling_state: StageScalingState::Eligible,
        settling: false,
        settle_samples: 0,
        settle_observed_work: false,
        idle_samples: 0,
        last_operation: None,
        anchor: match stage.anchor {
            Some(anchor) => Some(fresh_anchor(anchor)),
            None => None,
        },
    }
}

/// A fresh memory for every stage.
pub fn build_stage_controls(stages: &Vec<RuntimeStage>) -> (controls: Vec<StageControl>)
    ensures
        controls@ == Seq::new(stages@.len(), |i: int| fresh_control(stages@[i])),
{
    let mut controls: Vec<StageControl> = Vec::new();
    let mut index: usize = 0;
    while index < stages.len()
        invariant
            index <= stages@.len(),
            controls@.len() == index,
            forall|i: int| 0 <= i < index ==> #[trigger] controls@[i] == fresh_control(stages@[i]),
        decreases stages@.len() - index,
    {
        let anchor: Option<AnchorControl> = match stages[index].anchor {
            Some(anchor) => Some(
                AnchorControl {
                    max_threads: anchor.max_threads,
                    fixed_threads: anchor.fixed_threads,
                    warmup_complete: false,
                    probe: None,
                    cooldown_samples: 0,
                    last_probe_outcome: AnchorProbeOutcome::Unset,
                    last_probe_reason: AnchorProbeReason::Unset,
                },
            ),
            None => None,
        };
        controls.push(
            StageControl {
                processed_count: 0,
                busy: BusyBand::Idle,
                desired_workers: 1,
                last_sample_processed: 0,
                scaling_state: StageScalingState::Eligible,
                settling: false,
                settle_samples: 0,
                settle_observed_work: false,
                idle_samples: 0,
                last_operation: None,
                anchor,
            },
        );
        index += 1;
    }
    controls
}

/// One more, or the largest count where that would not fit.
pub open spec fn one_more(count: u32) -> u32 {
    if count < u32::MAX {
        (count + 1) as u32
    } else {
        count
    }
}

/// The sum of two counts, or the largest count where that would not fit.
pub open spec fn capped_sum(a: u64, b: u64) -> u64 {
    if a + b <= u64::MAX {
        (a + b) as u64
    } else {
        u64::MAX
    }
}

/// The workers spent some time, working or waiting, so that their busy share
/// can be measured anew.
pub open spec fn spent_time(sample: StageSample) -> bool {
    sample.process_nanos > 0 || sample.wait_nanos > 0
}

/// The sample says how long an item takes.
pub open spec fn measures_service(sample: StageSample) -> bool {
    sample.processed_items > 0 && sample.process_nanos > 0
}

impl StageSample {
    /// Whether the workers' busy share can be measured from this sample.
    pub fn has_time(&self) -> (yes: bool)
        ensures
            yes == spent_time(*self),
    {
        self.process_nanos.saturating_add(self.wait_nanos) > 0
    }

    /// Whether the time per item can be measured from this sample.
    pub fn has_service_time(&self) -> (yes: bool)
        ensures
            yes == measures_service(*self),
    {
        self.processed_items > 0 && self.process_nanos > 0
    }
}

/// The sum of a list of samples, item by item.
pub open spec fn process_total(parts: Seq<StageSample>) -> nat
    decreases parts.len(),
{
    if parts.len() == 0 {
        0
    } else {
        process_total(parts.drop_last()) + parts.last().process_nanos as nat
    }
}

pub open spec fn wait_total(parts: Seq<StageSample>) -> nat
    decreases parts.len(),
{
    if parts.len() == 0 {
        0
    } else {
        wait_total(parts.drop_last()) + parts.last().wait_nanos as nat
    }
}

pub open spec fn item_total(parts: Seq<StageSample>) -> nat
    decreases parts.len(),
{
    if parts.len() == 0 {
        0
    } else {
        item_total(parts.drop_last()) + parts.last().processed_items as nat
    }
}

proof fn lemma_totals_grow(parts: Seq<StageSample>, end: int)
    requires
        0 <= end <= parts.len(),
    ensures
        process_total(parts.take(end)) <= process_total(parts),
        wait_total(parts.take(end)) <= wait_total(parts),
        item_total(parts.take(end)) <= item_total(parts),
    decreases parts.len() - end,
{
    if end < parts.len() {
        lemma_totals_grow(parts, end + 1);
        assert(parts.take(end + 1).drop_last() =~= parts.take(end));
    } else {
        assert(parts.take(end) =~= parts);
    }
}

/// Adds up what each of a stage's workers did, where there is room for the sums.
pub fn fitting_total(parts: &Vec<StageSample>) -> (total: Option<StageSample>)
    ensures
        total is Some <==> process_total(parts@) <= u64::MAX && wait_total(parts@) <= u64::MAX
            && item_total(parts@) <= u64::MAX,
        total matches Some(total) ==> {
            &&& total.process_nanos == process_total(parts@)
            &&& total.wait_nanos == wait_total(parts@)
            &&& total.processed_items == item_total(parts@)
        },
{
    let (mut process, mut wait, mut items): (u64, u64, u64) = (0, 0, 0);
    let mut index: usize = 0;
    while index < parts.len()
        invariant
            index <= parts@.len(),
            process == process_total(parts@.take(index as int)),
            wait == wait_total(parts@.take(index as int)),
            items == item_total(parts@.take(index as int)),
        decreases parts@.len() - index,
    {
        let part: StageSample = parts[index];
        proof {
            lemma_totals_grow(parts@, index + 1);
            assert(parts@.take(index + 1).drop_last() =~= parts@.take(index as int));
        }
        match (
            process.checked_add(part.process_nanos),
            wait.checked_add(part.wait_nanos),
            items.checked_add(part.processed_items),
        ) {
            (Some(more_process), Some(more_wait), Some(more_items)) => {
                process = more_process;
                wait = more_wait;
                items = more_items;
            },
            _ => return None,
        }
        index += 1;
    }
    assert(parts@.take(index as int) =~= parts@);
    Some(StageSample { process_nanos: process, wait_nanos: wait, processed_items: items })
}

/// A sample is counted, and the busy share renewed where it was measured.
pub open spec fn after_counting(
    control: StageControl,
    sample: StageSample,
    busy: BusyBand,
) -> StageControl {
    StageControl {
        last_sample_processed: sample.processed_items,
        processed_count: capped_sum(control.processed_count, sample.processed_items),
        busy: if spent_time(sample) {
            busy
        } else {
            control.busy
        },
        ..control
    }
}

/// Work, or input in sight, ends an idle spell; idle workers lengthen it.
pub open spec fn after_idling(
    control: StageControl,
    sample: StageSample,
    input: QueueTrend,
) -> StageControl {
    StageControl {
        idle_samples: if sample.processed_items > 0 || input != QueueTrend::Starved {
            0
        } else if control.busy is Idle {
            one_more(control.idle_samples)
        } else {
            control.idle_samples
        },
        ..control
    }
}

/// A stage that was resized settles once it has rested and either worked or
/// idled for long.
pub open spec fn after_settling(control: StageControl, sample: StageSample) -> StageControl {
    if control.settling {
        let samples = one_more(control.settle_samples);
        let observed = control.settle_observed_work || sample.processed_items > 0;
        let settled = samples >= SETTLE_SAMPLES && (observed || control.idle_samples
            >= IDLE_SHRINK_SAMPLES);
        StageControl {
            settle_samples: samples,
            settle_observed_work: observed,
            settling: !settled,
            scaling_state: if settled {
                StageScalingState::Eligible
            } else {
                control.scaling_state
            },
            ..control
        }
    } else {
        control
    }
}

/// An anchor's probe ages, or else its cooldown runs down.
pub open spec fn after_probing(control: StageControl, sample: StageSample) -> StageControl {
    match control.anchor {
        None => control,
        Some(anchor) => match anchor.probe {
            Some(probe) => StageControl {
                anchor: Some(
                    AnchorControl {
                        probe: Some(
                            AnchorProbe {
                                samples: one_more(probe.samples),
                                observed_work: probe.observed_work || sample.processed_items > 0,
                                ..probe
                            },
                        ),
                        ..anchor
                    },
                ),
                ..control
            },
            None => if anchor.cooldown_samples > 0 {
                StageControl {
                    anchor: Some(
                        AnchorControl {
                            cooldown_samples: (anchor.cooldown_samples - 1) as u32,
                            ..anchor
                        },
                    ),
                    scaling_state: if anchor.cooldown_samples == 1 {
                        StageScalingState::Eligible
                    } else {
                        control.scaling_state
                    },
                    ..control
                }
            } else {
                control
            },
        },
    }
}

/// An anchor is warm once it works while its input holds and its output drains.
pub open spec fn after_warming_up(
    control: StageControl,
    sample: StageSample,
    input: QueueTrend,
    output: QueueTrend,
) -> StageControl {
    match control.anchor {
        Some(anchor) => if !anchor.warmup_complete && sample.processed_items > 0 && input
            != QueueTrend::Starved && !trend::growing(output) {
            StageControl {
                anchor: Some(AnchorControl { warmup_complete: true, ..anchor }),
                scaling_state: StageScalingState::Eligible,
                ..control
            }
        } else {
            control
        },
        None => control,
    }
}

/// The memory of a stage after a sample, given its links' trends.
pub open spec fn after_sample(
    control: StageControl,
    sample: StageSample,
    busy: BusyBand,
    input: QueueTrend,
    output: QueueTrend,
) -> StageControl {
    let counted = after_counting(control, sample, busy);
    let idled = after_idling(counted, sample, input);
    let settled = after_settling(idled, sample);
    let probed = after_probing(settled, sample);
    after_warming_up(probed, sample, input, output)
}

/// Takes a sample into a stage's memory. `busy` is the busy share that the
/// sample shows; it counts only where the sample has time in it.
pub fn apply_stage_sample(
    control: &mut StageControl,
    sample: StageSample,
    busy: BusyBand,
    input: QueueTrend,
    output: QueueTrend,
)
    ensures
        *final(control) == after_sample(*old(control), sample, busy, input, output),
{
    control.last_sample_processed = sample.processed_items;
    control.processed_count = control.processed_count.saturating_add(sample.processed_items);
    if sample.has_time() {
        control.busy = busy;
    }
    if sample.processed_items > 0 || input != QueueTrend::Starved {
        control.idle_samples = 0;
    } else if control.busy == BusyBand::Idle {
        control.idle_samples = control.idle_samples.saturating_add(1);
    }
    if control.settling {
        control.settle_samples = control.settle_samples.saturating_add(1);
        control.settle_observed_work = control.settle_observed_work || sample.processed_items > 0;
        if control.settle_samples >= SETTLE_SAMPLES && (control.settle_observed_work
            || control.idle_samples >= IDLE_SHRINK_SAMPLES) {
            control.settling = false;
            control.scaling_state = StageScalingState::Eligible;
        }
    }
    if let Some(mut anchor) = control.anchor {
        if let Some(mut probe) = anchor.probe {
            probe.samples = probe.samples.saturating_add(1);
            probe.observed_work = probe.observed_work || sample.processed_items > 0;
            anchor.probe = Some(probe);
        } else if anchor.cooldown_samples > 0 {
            anchor.cooldown_samples = anchor.cooldown_samples - 1;
            if anchor.cooldown_samples == 0 {
                control.scaling_state = StageScalingState::Eligible;
            }
        }
        if !anchor.warmup_complete && sample.processed_items > 0 && input != QueueTrend::Starved
            && !output.is_growing() {
            anchor.warmup_complete = true;
            control.scaling_state = StageScalingState::Eligible;
        }
        control.anchor = Some(anchor);
    }
}

/// Takes one sample per stage into the stages' memory.
pub fn collect_stage_samples(
    samples: &Vec<StageSample>,
    busy: &Vec<BusyBand>,
    links: &Vec<LinkControl>,
    stages: &Vec<RuntimeStage>,
    controls: &mut Vec<StageControl>,
)
    requires
        samples@.len() <= busy@.len(),
        samples@.len() <= stages@.len(),
        samples@.len() <= old(controls)@.len(),
        graph::links_exist(stages@, links@.len() as int),
    ensures
        final(controls)@ == Seq::new(
            old(controls)@.len(),
            |i: int|
                if i < samples@.len() {
                    after_sample(
                        old(controls)@[i],
                        samples@[i],
                        busy@[i],
                        links@[stages@[i].input_link as int].trend,
                        links@[stages@[i].output_link as int].trend,
                    )
                } else {
                    old(controls)@[i]
                },
        ),
{
    let ghost before = controls@;
    let mut index: usize = 0;
    while index < samples.len()
        invariant
            index <= samples@.len(),
            samples@.len() <= busy@.len(),
            samples@.len() <= stages@.len(),
            samples@.len() <= before.len(),
            controls@.len() == before.len(),
            graph::links_exist(stages@, links@.len() as int),
            forall|i: int|
                0 <= i < index ==> #[trigger] controls@[i] == after_sample(
                    before[i],
                    samples@[i],
                    busy@[i],
                    links@[stages@[i].input_link as int].trend,
                    links@[stages@[i].output_link as int].trend,
                ),
            forall|i: int| index <= i < before.len() ==> controls@[i] == before[i],
        decreases samples@.len() - index,
    {
        assert(stages@[index as int].input_link < links@.len());
        let input: QueueTrend = links[stages[index].input_link].trend;
        let output: QueueTrend = links[stages[index].output_link].trend;
        apply_stage_sample(&mut controls[index], samples[index], busy[index], input, output);
        index += 1;
    }
}

/// The workers a stage should have. `by_rate` is the number that its throughput
/// asks for, where a throughput is known; otherwise the stage keeps its `active`
/// workers, and one more while its input grows.
pub open spec fn wanted_workers(by_rate: Option<usize>, input: QueueTrend, active: usize) -> usize {
    let present = graph::larger(active, 1);
    match by_rate {
        Some(workers) => graph::larger(workers, 1),
        None => if trend::growing(input) && present < usize::MAX {
            (present + 1) as usize
        } else {
            present
        },
    }
}

/// Sets each stage's wanted worker count.
pub fn update_desired_workers(
    by_rate: &Vec<Option<usize>>,
    links: &Vec<LinkControl>,
    active_by_stage: &Vec<Vec<usize>>,
    stages: &Vec<RuntimeStage>,
    controls: &mut Vec<StageControl>,
)
    requires
        by_rate@.len() == old(controls)@.len(),
        active_by_stage@.len() == old(controls)@.len(),
        stages@.len() == old(controls)@.len(),
        graph::links_exist(stages@, links@.len() as int),
    ensures
        final(controls)@ == Seq::new(
            old(controls)@.len(),
            |i: int|
                StageControl {
                    desired_workers: wanted_workers(
                        by_rate@[i],
                        links@[stages@[i].input_link as int].trend,
                        active_by_stage@[i]@.len() as usize,
                    ),
                    ..old(controls)@[i]
                },
        ),
{
    let ghost before = controls@;
    let mut index: usize = 0;
    while index < controls.len()
        invariant
            index <= before.len(),
            controls@.len() == before.len(),
            by_rate@.len() == before.len(),
            active_by_stage@.len() == before.len(),
            stages@.len() == before.len(),
            graph::links_exist(stages@, links@.len() as int),
            forall|i: int|
                0 <= i < index ==> #[trigger] controls@[i] == (StageControl {
                    desired_workers: wanted_workers(
                        by_rate@[i],
                        links@[stages@[i].input_link as int].trend,
                        active_by_stage@[i]@.len() as usize,
                    ),
                    ..before[i]
                }),
            forall|i: int| index <= i < before.len() ==> controls@[i] == before[i],
        decreases before.len() - index,
    {
        assert(stages@[index as int].input_link < links@.len());
        let active: usize = if active_by_stage[index].len() == 0 {
            1
        } else {
            active_by_stage[index].len()
        };
        let input: QueueTrend = links[stages[index].input_link].trend;
        let desired: usize = match by_rate[index] {
            Some(workers) => workers,
            None => if input.is_growing() {
                active.saturating_add(1)
            } else {
                active
            },
        };
        controls[index].desired_workers = if desired == 0 {
            1
        } else {
            desired
        };
        index += 1;
    }
}

/// The cooldown after one more failed probe: twice the last one, between 4 and
/// 64 samples.
pub open spec fn longer_cooldown(current: u32) -> u32 {
    if 2 * current < 4 {
        4
    } else if 2 * current > 64 {
        64
    } else {
        (2 * current) as u32
    }
}

pub fn grow_sample_count(current: u32) -> (next: u32)
    ensures
        next == longer_cooldown(current),
{
    if current < 2 {
        4
    } else if current > 32 {
        64
    } else {
        2 * current
    }
}

/// Where an anchor with `active` workers stands in its search.
pub open spec fn probe_state(anchor: AnchorControl, active: int) -> AnchorProbeState {
    if !anchor.warmup_complete {
        AnchorProbeState::WarmingUp
    } else if anchor.probe is Some {
        AnchorProbeState::Probing
    } else if active >= anchor.max_threads {
        AnchorProbeState::AtMax
    } else if anchor.cooldown_samples > 0 {
        AnchorProbeState::BackingOff
    } else {
        AnchorProbeState::Eligible
    }
}

pub fn anchor_probe_state(anchor: &AnchorControl, active_threads: usize) -> (state:
    AnchorProbeState)
    ensures
        state == probe_state(*anchor, active_threads as int),
{
    if !anchor.warmup_complete {
        AnchorProbeState::WarmingUp
    } else if anchor.probe.is_some() {
        AnchorProbeState::Probing
    } else if active_threads >= anchor.max_threads {
        AnchorProbeState::AtMax
    } else if anchor.cooldown_samples > 0 {
        AnchorProbeState::BackingOff
    } else {
        AnchorProbeState::Eligible
    }
}

/// A cooldown stays between 4 and 64 samples, and never gets shorter by growing.
pub proof fn law_cooldown_is_bounded(current: u32)
    ensures
        4 <= longer_cooldown(current) <= 64,
        current <= 64 ==> current <= longer_cooldown(current),
{
}

/// A sample never changes an anchor's bound, its fixed thread count, or whether
/// the stage is an anchor at all; the wanted worker count and the last resizing
/// stay as they were, and the item count never falls.
pub proof fn law_sampling_keeps_the_anchor(
    control: StageControl,
    sample: StageSample,
    busy: BusyBand,
    input: QueueTrend,
    output: QueueTrend,
)
    ensures
        ({
            let after = after_sample(control, sample, busy, input, output);
            &&& after.anchor is Some <==> control.anchor is Some
            &&& after.anchor matches Some(anchor) ==> anchor.max_threads
                == control.anchor->0.max_threads && anchor.fixed_threads
                == control.anchor->0.fixed_threads
            &&& after.desired_workers == control.desired_workers
            &&& after.last_operation == control.last_operation
            &&& after.processed_count >= control.processed_count
        }),
{
}

/// The worker did nothing since its counts were taken.
pub open spec fn is_blank(sample: StageSample) -> bool {
    sample.process_nanos == 0 && sample.wait_nanos == 0 && sample.processed_items == 0
}

/// A second sampling, before any worker of the stage did anything, counts
/// nothing and leaves the busy share as it was.
pub proof fn law_second_sampling_counts_nothing(
    parts: Seq<StageSample>,
    total: StageSample,
    control: StageControl,
    busy: BusyBand,
    input: QueueTrend,
    output: QueueTrend,
)
    requires
        forall|i: int| 0 <= i < parts.len() ==> is_blank(#[trigger] parts[i]),
        total.process_nanos == process_total(parts),
        total.wait_nanos == wait_total(parts),
        total.processed_items == item_total(parts),
    ensures
        is_blank(total),
        after_sample(control, total, busy, input, output).processed_count
            == control.processed_count,
        after_sample(control, total, busy, input, output).last_sample_processed == 0,
        after_sample(control, total, busy, input, output).busy == control.busy,
{
    lemma_blank_parts(parts);
}

proof fn lemma_blank_parts(parts: Seq<StageSample>)
    requires
        forall|i: int| 0 <= i < parts.len() ==> is_blank(#[trigger] parts[i]),
    ensures
        process_total(parts) == 0,
        wait_total(parts) == 0,
        item_total(parts) == 0,
    decreases parts.len(),
{
    if parts.len() > 0 {
        lemma_blank_parts(parts.drop_last());
        assert(is_blank(parts[parts.len() - 1]));
    }
}

/// The memory of a stage is the one that a sample left, whatever the links
/// showed.
pub open spec fn follows_from(
    after: StageControl,
    before: StageControl,
    sample: StageSample,
) -> bool {
    exists|busy: BusyBand, input: QueueTrend, output: QueueTrend|
        after == #[trigger] after_sample(before, sample, busy, input, output)
}

/// The memory of a stage before, between and after a list of samples.
pub open spec fn is_sampled(controls: Seq<StageControl>, samples: Seq<StageSample>) -> bool {
    &&& controls.len() == samples.len() + 1
    &&& forall|i: int|
        0 <= i < samples.len() ==> follows_from(controls[i + 1], controls[i], #[trigger] samples[i])
}

/// Over any list of samples each item is counted once, up to the largest count
/// that there is room for.
pub proof fn law_samples_add_up(controls: Seq<StageControl>, samples: Seq<StageSample>)
    requires
        is_sampled(controls, samples),
    ensures
        controls[0].processed_count + item_total(samples) <= u64::MAX
            ==> controls.last().processed_count == controls[0].processed_count + item_total(
            samples,
        ),
        controls[0].processed_count + item_total(samples) > u64::MAX
            ==> controls.last().processed_count == u64::MAX,
    decreases samples.len(),
{
    if samples.len() > 0 {
        let n = samples.len() - 1;
        let (earlier, fewer) = (controls.drop_last(), samples.drop_last());
        assert forall|i: int| 0 <= i < fewer.len() implies follows_from(
            earlier[i + 1],
            earlier[i],
            #[trigger] fewer[i],
        ) by {
            assert(follows_from(controls[i + 1], controls[i], samples[i]));
        }
        law_samples_add_up(earlier, fewer);
        assert(follows_from(controls[n + 1], controls[n], samples[n]));
        assert(earlier.last() == controls[n]);
        assert(controls.last().processed_count == capped_sum(
            controls[n].processed_count,
            samples[n].processed_items,
        ));
    }
}

/// A stage that works or has input in sight is not idle, however long it was.
pub proof fn law_work_ends_an_idle_spell(
    control: StageControl,
    sample: StageSample,
    busy: BusyBand,
    input: QueueTrend,
    output: QueueTrend,
)
    requires
        sample.processed_items > 0 || input != QueueTrend::Starved,
    ensures
        after_sample(control, sample, busy, input, output).idle_samples == 0,
{
}

/// Every stage is always given at least one worker to want.
pub proof fn law_a_stage_wants_a_worker(by_rate: Option<usize>, input: QueueTrend, active: usize)
    ensures
        wanted_workers(by_rate, input, active) >= 1,
        by_rate is None ==> wanted_workers(by_rate, input, active) >= active,
{
}

/// A stage whose throughput is known wants as many workers as that asks for, and at
/// least one, whatever the trend of its input and however many it has.
pub proof fn law_known_throughput_sets_the_wanted_count(
    workers: usize,
    input: QueueTrend,
    active: usize,
)
    ensures
        workers >= 1 ==> wanted_workers(Some(workers), input, active) == workers,
        workers == 0 ==> wanted_workers(Some(workers), input, active) == 1,
{
}

/// A stage of unknown throughput wants the workers that it has, at least one, and
/// one more while its input grows.
pub proof fn law_unknown_throughput_keeps_the_count(input: QueueTrend, active: usize)
    ensures
        ({
            let wanted = wanted_workers(None, input, active);
            let present: usize = if active == 0 {
                1
            } else {
                active
            };
            &&& (input is Growing || input is FastGrowing || input is Runaway) && present
                < usize::MAX ==> wanted == present + 1
            &&& input is Starved || input is FastDraining || input is Draining || input is Stable
                ==> wanted == present
            &&& wanted >= active && wanted >= 1
        }),
{
}

/// A sample tells how many items came in it, and its busy share counts where the
/// workers spent time; a sample without time leaves the busy share.
pub proof fn law_sample_is_noted(
    control: StageControl,
    sample: StageSample,
    busy: BusyBand,
    input: QueueTrend,
    output: QueueTrend,
)
    ensures
        ({
            let after = after_sample(control, sample, busy, input, output);
            &&& after.last_sample_processed == sample.processed_items
            &&& control.processed_count + sample.processed_items <= u64::MAX
                ==> after.processed_count == control.processed_count + sample.processed_items
            &&& control.processed_count + sample.processed_items > u64::MAX
                ==> after.processed_count == u64::MAX
            &&& sample.process_nanos > 0 || sample.wait_nanos > 0 ==> after.busy == busy
            &&& sample.process_nanos == 0 && sample.wait_nanos == 0 ==> after.busy == control.busy
        }),
{
}

/// An idle spell lasts as long as a stage gets no items, its input is starved and
/// its workers are idle: each such sample lengthens it by one. Items, or input in
/// sight, end it.
pub proof fn law_idle_spell_is_counted(
    control: StageControl,
    sample: StageSample,
    busy: BusyBand,
    input: QueueTrend,
    output: QueueTrend,
)
    ensures
        ({
            let after = after_sample(control, sample, busy, input, output);
            let quiet = sample.processed_items == 0 && input is Starved;
            &&& !quiet ==> after.idle_samples == 0
            &&& quiet && after.busy is Idle && control.idle_samples < u32::MAX
                ==> after.idle_samples == control.idle_samples + 1
            &&& quiet && after.busy is Idle && control.idle_samples == u32::MAX
                ==> after.idle_samples == u32::MAX
            &&& quiet && !(after.busy is Idle) ==> after.idle_samples == control.idle_samples
        }),
{
}

/// A stage that was resized settles after two samples at the least, once it has seen
/// work or has been idle for fifty samples. Until then it stays as it was, and each
/// sample is counted. A stage that has settled is left alone.
pub proof fn law_resized_stage_settles(
    control: StageControl,
    sample: StageSample,
    busy: BusyBand,
    input: QueueTrend,
    output: QueueTrend,
)
    ensures
        ({
            let after = after_sample(control, sample, busy, input, output);
            let worked = control.settle_observed_work || sample.processed_items > 0;
            &&& !control.settling ==> !after.settling && after.settle_samples
                == control.settle_samples && after.settle_observed_work
                == control.settle_observed_work
            &&& control.settling ==> {
                &&& after.settle_observed_work == worked
                &&& control.settle_samples < u32::MAX ==> after.settle_samples
                    == control.settle_samples + 1
                &&& control.settle_samples == 0 ==> after.settling
                &&& 1 <= control.settle_samples < u32::MAX ==> (after.settling <==> !(worked
                    || after.idle_samples >= 50))
            }
            &&& control.settling && !after.settling && control.anchor is None
                ==> after.scaling_state is Eligible
            &&& control.settling == after.settling && control.anchor is None
                ==> after.scaling_state == control.scaling_state
        }),
{
}

/// A probe grows older by each sample and remembers whether it saw work; without a
/// probe an anchor's cooldown runs down by one, and at its end the anchor is eligible
/// again.
pub proof fn law_probe_ages_or_cooldown_runs(
    control: StageControl,
    sample: StageSample,
    busy: BusyBand,
    input: QueueTrend,
    output: QueueTrend,
    anchor: AnchorControl,
)
    requires
        control.anchor == Some(anchor),
    ensures
        ({
            let after = after_sample(control, sample, busy, input, output).anchor->0;
            let state = after_sample(control, sample, busy, input, output).scaling_state;
            &&& after.probe is Some <==> anchor.probe is Some
            &&& anchor.probe matches Some(probe) ==> {
                &&& after.probe->0.worker_id == probe.worker_id
                &&& probe.samples < u32::MAX ==> after.probe->0.samples == probe.samples + 1
                &&& after.probe->0.observed_work == (probe.observed_work || sample.processed_items
                    > 0)
                &&& after.cooldown_samples == anchor.cooldown_samples
            }
            &&& anchor.probe is None && anchor.cooldown_samples > 0 ==> after.cooldown_samples
                == anchor.cooldown_samples - 1
            &&& anchor.probe is None && anchor.cooldown_samples == 0 ==> after.cooldown_samples == 0
            &&& anchor.probe is None && anchor.cooldown_samples == 1 ==> state is Eligible
            &&& after.last_probe_outcome == anchor.last_probe_outcome
            &&& after.last_probe_reason == anchor.last_probe_reason
        }),
{
}

/// An anchor is warm from the first sample on in which it worked while its input was
/// not starved and its output did not grow, and it never cools again.
pub proof fn law_anchor_warms_up_once(
    control: StageControl,
    sample: StageSample,
    busy: BusyBand,
    input: QueueTrend,
    output: QueueTrend,
    anchor: AnchorControl,
)
    requires
        control.anchor == Some(anchor),
    ensures
        ({
            let after = after_sample(control, sample, busy, input, output);
            let fed = sample.processed_items > 0 && !(input is Starved) && !(output is Growing
                || output is FastGrowing || output is Runaway);
            &&& after.anchor->0.warmup_complete <==> anchor.warmup_complete || fed
            &&& !anchor.warmup_complete && fed ==> after.scaling_state is Eligible
        }),
{
}

/// A stage that has not run yet wants one worker, has counted nothing, and its
/// anchor, if it is one, is cold and has the bounds that it was set up with.
pub proof fn law_fresh_memory_is_blank(stage: RuntimeStage)
    ensures
        ({
            let fresh = fresh_control(stage);
            &&& fresh.processed_count == 0 && fresh.last_sample_processed == 0
            &&& fresh.desired_workers == 1
            &&& !fresh.settling && fresh.idle_samples == 0 && fresh.last_operation is None
            &&& fresh.scaling_state is Eligible && fresh.busy is Idle
            &&& fresh.anchor is Some <==> stage.anchor is Some
            &&& stage.anchor matches Some(anchor) ==> {
                &&& fresh.anchor->0.max_threads == anchor.max_threads
                &&& fresh.anchor->0.fixed_threads == anchor.fixed_threads
                &&& !fresh.anchor->0.warmup_complete
                &&& fresh.anchor->0.probe is None
                &&& fresh.anchor->0.cooldown_samples == 0
            }
        }),
{
}

/// What an anchor shows: warming up before all else, then probing, then at its
/// maximum, then backing off while it cools down.
pub proof fn law_probe_state_is_shown(anchor: AnchorControl, active: int)
    ensures
        probe_state(anchor, active) is WarmingUp <==> !anchor.warmup_complete,
        probe_state(anchor, active) is Probing <==> anchor.warmup_complete && anchor.probe is Some,
        probe_state(anchor, active) is AtMax <==> anchor.warmup_complete && anchor.probe is None
            && active >= anchor.max_threads,
        probe_state(anchor, active) is BackingOff <==> anchor.warmup_complete && anchor.probe
            is None && active < anchor.max_threads && anchor.cooldown_samples > 0,
{
}

/// What a list of samples comes to is the sum of each of its counts.
pub proof fn law_parts_are_summed(a: Seq<StageSample>, b: Seq<StageSample>, one: StageSample)
    ensures
        item_total(Seq::empty()) == 0,
        process_total(Seq::empty()) == 0,
        wait_total(Seq::empty()) == 0,
        item_total(seq![one]) == one.processed_items,
        process_total(seq![one]) == one.process_nanos,
        wait_total(seq![one]) == one.wait_nanos,
        item_total(a + b) == item_total(a) + item_total(b),
        process_total(a + b) == process_total(a) + process_total(b),
        wait_total(a + b) == wait_total(a) + wait_total(b),
    decreases b.len(),
{
    assert(seq![one].drop_last() =~= Seq::<StageSample>::empty());
    assert(item_total(seq![one].drop_last()) == 0);
    assert(process_total(seq![one].drop_last()) == 0);
    assert(wait_total(seq![one].drop_last()) == 0);
    if b.len() == 0 {
        assert(a + b =~= a);
    } else {
        law_parts_are_summed(a, b.drop_last(), one);
        assert((a + b).drop_last() =~= a + b.drop_last());
    }
}

/// Each probe that is taken back doubles the pause before the next, from four
/// samples to sixty-four.
pub proof fn law_cooldown_doubles(current: u32)
    ensures
        current <= 2 ==> longer_cooldown(current) == 4,
        2 <= current <= 32 ==> longer_cooldown(current) == 2 * current,
        current >= 32 ==> longer_cooldown(current) == 64,
{
}

/// A sample tells the busy share where any time was spent, and the time per item
/// where items took time.
pub proof fn law_sample_tells_what_it_holds(sample: StageSample)
    ensures
        spent_time(sample) <==> sample.process_nanos + sample.wait_nanos > 0,
        measures_service(sample) <==> sample.processed_items > 0 && sample.process_nanos > 0,
{
}

/// A sample makes a stage eligible where it ends the stage's settling, its cooldown or
/// its warm-up, and otherwise leaves its state.
pub proof fn law_sample_makes_eligible(
    control: &mut StageControl,
    sample: StageSample,
    busy: BusyBand,
    input: QueueTrend,
    output: QueueTrend,
)
    requires
        call_ensures(apply_stage_sample, (control, sample, busy, input, output), ()),
    ensures
        ({
            let before = *old(control);
            let after = *final(control);
            let rested = before.settling && !after.settling;
            let cooled = before.anchor is Some && before.anchor->0.probe is None
                && before.anchor->0.cooldown_samples == 1;
            let warmed = before.anchor is Some && !before.anchor->0.warmup_complete
                && after.anchor->0.warmup_complete;
            &&& rested || cooled || warmed ==> after.scaling_state is Eligible
            &&& !rested && !cooled && !warmed ==> after.scaling_state == before.scaling_state
            &&& after.last_operation == before.last_operation
            &&& after.desired_workers == before.desired_workers
            &&& after.last_sample_processed == sample.processed_items
            &&& before.processed_count + sample.processed_items <= u64::MAX
                ==> after.processed_count == before.processed_count + sample.processed_items
            &&& before.processed_count + sample.processed_items > u64::MAX ==> after.processed_count
                == u64::MAX
            &&& after == after_sample(before, sample, busy, input, output)
        }),
{
}

/// Each stage takes its own sample in, beside the trends of the link that it reads and
/// of the link that it writes; a stage without a sample is left.
pub proof fn law_samples_go_to_their_stages(
    samples: Vec<StageSample>,
    busy: Vec<BusyBand>,
    links: Vec<LinkControl>,
    stages: Vec<RuntimeStage>,
    controls: &mut Vec<StageControl>,
    i: int,
)
    requires
        0 <= i < old(controls)@.len(),
        call_ensures(
            collect_stage_samples,
            (&samples, &busy, &links, &stages, controls),
            (),
        ),
    ensures
        final(controls)@.len() == old(controls)@.len(),
        i >= samples@.len() ==> final(controls)@[i] == old(controls)@[i],
        i < samples@.len() ==> final(controls)@[i] == after_sample(
            old(controls)@[i],
            samples@[i],
            busy@[i],
            links@[stages@[i].input_link as int].trend,
            links@[stages@[i].output_link as int].trend,
        ),
{
}

/// Each stage wants the workers that its throughput asks for, at least one; where that
/// is unknown, those that it has, at least one, and one more while the link that it
/// reads grows. Nothing else of it changes.
pub proof fn law_each_stage_wants_its_workers(
    by_rate: Vec<Option<usize>>,
    links: Vec<LinkControl>,
    active_by_stage: Vec<Vec<usize>>,
    stages: Vec<RuntimeStage>,
    controls: &mut Vec<StageControl>,
    i: int,
)
    requires
        0 <= i < old(controls)@.len(),
        call_ensures(
            update_desired_workers,
            (&by_rate, &links, &active_by_stage, &stages, controls),
            (),
        ),
    ensures
        ({
            let wanted = final(controls)@[i].desired_workers;
            let input = links@[stages@[i].input_link as int].trend;
            let active = active_by_stage@[i]@.len();
            let present = if active == 0 {
                1nat
            } else {
                active
            };
            &&& by_rate@[i] matches Some(workers) ==> wanted == if workers == 0 {
                1
            } else {
                workers
            }
            &&& by_rate@[i] is None && (input is Growing || input is FastGrowing || input
                is Runaway) && present < usize::MAX ==> wanted == present + 1
            &&& by_rate@[i] is None && (input is Starved || input is FastDraining || input
                is Draining || input is Stable) && active <= usize::MAX ==> wanted == present
            &&& final(controls)@[i] == (StageControl { desired_workers: wanted, ..old(controls)@[i] })
        }),
{
}

/// Every stage begins with a blank memory of its own.
pub proof fn law_each_stage_begins_blank(
    stages: Vec<RuntimeStage>,
    controls: Vec<StageControl>,
    i: int,
)
    requires
        call_ensures(build_stage_controls, (&stages,), controls),
        0 <= i < stages@.len(),
    ensures
        ({
            let fresh = controls@[i];
            &&& controls@.len() == stages@.len()
            &&& fresh.processed_count == 0 && fresh.last_sample_processed == 0
                && fresh.idle_samples == 0
            &&& fresh.desired_workers == 1
            &&& !fresh.settling && fresh.settle_samples == 0 && !fresh.settle_observed_work
            &&& fresh.scaling_state is Eligible && fresh.busy is Idle && fresh.last_operation is None
            &&& fresh.anchor is Some <==> stages@[i].anchor is Some
            &&& stages@[i].anchor matches Some(anchor) ==> {
                &&& fresh.anchor->0.max_threads == anchor.max_threads
                &&& fresh.anchor->0.fixed_threads == anchor.fixed_threads
                &&& !fresh.anchor->0.warmup_complete
                &&& fresh.anchor->0.probe is None
                &&& fresh.anchor->0.cooldown_samples == 0
                &&& fresh.anchor->0.last_probe_outcome is Unset
                &&& fresh.anchor->0.last_probe_reason is Unset
            }
        }),
{
}

/// What the workers of a stage did is added up: one more part adds itself to each sum,
/// and there is no sum where one would not fit.
pub proof fn law_one_more_part_is_added(
    fewer: Vec<StageSample>,
    parts: Vec<StageSample>,
    total_of_fewer: Option<StageSample>,
    total: Option<StageSample>,
)
    requires
        call_ensures(fitting_total, (&fewer,), total_of_fewer),
        call_ensures(fitting_total, (&parts,), total),
    ensures
        parts@.len() == 0 ==> total is Some && total->0.process_nanos == 0 && total->0.wait_nanos
            == 0 && total->0.processed_items == 0,
        parts@.len() > 0 && fewer@ == parts@.drop_last() ==> {
            let part = parts@.last();
            let earlier = total_of_fewer->0;
            &&& total is Some <==> total_of_fewer is Some && earlier.process_nanos
                + part.process_nanos <= u64::MAX && earlier.wait_nanos + part.wait_nanos
                <= u64::MAX && earlier.processed_items + part.processed_items <= u64::MAX
            &&& total matches Some(sum) ==> {
                &&& sum.process_nanos == earlier.process_nanos + part.process_nanos
                &&& sum.wait_nanos == earlier.wait_nanos + part.wait_nanos
                &&& sum.processed_items == earlier.processed_items + part.processed_items
            }
        },
{
}

/// A sample tells the busy share where time was spent, and the time per item where items
/// took time.
pub proof fn law_sample_is_told(sample: StageSample, has_time: bool, has_service_time: bool)
    requires
        call_ensures(StageSample::has_time, (&sample,), has_time),
        call_ensures(StageSample::has_service_time, (&sample,), has_service_time),
    ensures
        has_time <==> sample.process_nanos > 0 || sample.wait_nanos > 0,
        has_service_time <==> sample.processed_items > 0 && sample.process_nanos > 0,
{
}

/// The pause after a failed probe doubles, within four and sixty-four samples, and an
/// anchor shows where it stands.
pub proof fn law_pause_and_state_are_told(
    current: u32,
    next: u32,
    anchor: AnchorControl,
    active_threads: usize,
    state: AnchorProbeState,
)
    requires
        call_ensures(grow_sample_count, (current,), next),
        call_ensures(anchor_probe_state, (&anchor, active_threads), state),
    ensures
        current <= 2 ==> next == 4,
        2 <= current <= 32 ==> next == 2 * current,
        current >= 32 ==> next == 64,
        state is WarmingUp <==> !anchor.warmup_complete,
        state is Probing <==> anchor.warmup_complete && anchor.probe is Some,
        state is AtMax <==> anchor.warmup_complete && anchor.probe is None && active_threads
            >= anchor.max_threads,
        state is BackingOff <==> anchor.warmup_complete && anchor.probe is None && active_threads
            < anchor.max_threads && anchor.cooldown_samples > 0,
        state is Eligible <==> anchor.warmup_complete && anchor.probe is None && active_threads
            < anchor.max_threads && anchor.cooldown_samples == 0,
{
}

} // verus!

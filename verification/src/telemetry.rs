//! What a running pipeline tells about itself, and its rows of comma-separated
//! values. Measured rates are carried as `G` and times as `D`.
use crate::control::{
    anchor_probe_state, AnchorControl, AnchorProbeOutcome, AnchorProbeReason, AnchorProbeState,
    StageControl, StageSample, StageScalingState,
};
use crate::control;
use crate::graph::RuntimeStage;
use crate::scaling::active_worker_count;
use crate::scaling;
use crate::trend::{LinkControl, QueueTrend};
use crate::trend;
use vstd::prelude::*;

verus! {

/// One link at a point in time.
#[derive(Clone, Debug)]
pub struct LinkSnapshot<G> {
    pub index: usize,
    pub len: usize,
    pub trend: QueueTrend,
    pub arrival_rate: G,
    pub drain_rate: G,
    pub net_rate: G,
    pub smoothed_len: G,
}

/// One stage at a point in time.
#[derive(Clone, Debug)]
pub struct StageSnapshot<G, D> {
    pub index: usize,
    pub name: String,
    pub input_link: usize,
    pub output_link: usize,
    pub active_threads: usize,
    pub processed_count: u64,
    pub busy_ratio: G,
    pub service_time: D,
    pub per_worker_throughput: G,
    pub desired_workers: usize,
    pub scaling_state: StageScalingState,
    pub is_anchor: bool,
    pub is_fixed_anchor: bool,
}

/// One anchor at a point in time.
#[derive(Clone, Debug)]
pub struct AnchorSnapshot {
    pub stage_index: usize,
    pub stage_name: String,
    pub active_threads: usize,
    pub max_threads: usize,
    pub fixed_threads: Option<usize>,
    pub probe_state: AnchorProbeState,
    pub last_probe_outcome: AnchorProbeOutcome,
    pub last_probe_reason: AnchorProbeReason,
}

/// A pipeline at a point in time.
#[derive(Clone, Debug)]
pub struct PiperSnapshot<G, D> {
    pub links: Vec<LinkSnapshot<G>>,
    pub stages: Vec<StageSnapshot<G, D>>,
    pub anchors: Vec<AnchorSnapshot>,
    pub parked_threads: usize,
    pub total_active_workers: usize,
    pub global_worker_cap: usize,
    pub budget_pressure: bool,
    pub output_backpressure: bool,
    pub shutdown_requested: bool,
    pub abort_requested: bool,
    pub pending_scale_operation: bool,
}

/// The measured rates of a link.
#[derive(Clone, Copy, Debug)]
pub struct LinkGauges<G> {
    pub arrival_rate: G,
    pub drain_rate: G,
    pub net_rate: G,
    pub smoothed_len: G,
}

/// The measured rates of a stage.
#[derive(Clone, Copy, Debug)]
pub struct StageGauges<G, D> {
    pub busy_ratio: G,
    pub service_time: D,
    pub per_worker_throughput: G,
}

pub open spec fn link_snapshot<G>(
    index: int,
    len: usize,
    control: LinkControl,
    gauges: LinkGauges<G>,
) -> LinkSnapshot<G> {
    LinkSnapshot {
        index: index as usize,
        len,
        trend: control.trend,
        arrival_rate: gauges.arrival_rate,
        drain_rate: gauges.drain_rate,
        net_rate: gauges.net_rate,
        smoothed_len: gauges.smoothed_len,
    }
}

pub open spec fn stage_snapshot<G, D>(
    index: int,
    stage: RuntimeStage,
    workers: nat,
    control: StageControl,
    gauges: StageGauges<G, D>,
) -> StageSnapshot<G, D> {
    StageSnapshot {
        index: index as usize,
        name: stage.name,
        input_link: stage.input_link,
        output_link: stage.output_link,
        active_threads: workers as usize,
        processed_count: control.processed_count,
        busy_ratio: gauges.busy_ratio,
        service_time: gauges.service_time,
        per_worker_throughput: gauges.per_worker_throughput,
        desired_workers: control.desired_workers,
        scaling_state: control.scaling_state,
        is_anchor: control.anchor is Some,
        is_fixed_anchor: scaling::is_fixed(control),
    }
}

pub open spec fn anchor_snapshot(
    index: int,
    stage: RuntimeStage,
    workers: nat,
    anchor: AnchorControl,
) -> AnchorSnapshot {
    AnchorSnapshot {
        stage_index: index as usize,
        stage_name: stage.name,
        active_threads: workers as usize,
        max_threads: anchor.max_threads,
        fixed_threads: anchor.fixed_threads,
        probe_state: control::probe_state(anchor, workers as int),
        last_probe_outcome: anchor.last_probe_outcome,
        last_probe_reason: anchor.last_probe_reason,
    }
}

/// The anchors among the first `count` stages, in order.
pub open spec fn anchor_snapshots(
    stages: Seq<RuntimeStage>,
    workers: Seq<nat>,
    controls: Seq<StageControl>,
    count: int,
) -> Seq<AnchorSnapshot>
    decreases count,
{
    if count <= 0 {
        Seq::empty()
    } else {
        let earlier = anchor_snapshots(stages, workers, controls, count - 1);
        match controls[count - 1].anchor {
            Some(anchor) => earlier.push(
                anchor_snapshot(count - 1, stages[count - 1], workers[count - 1], anchor),
            ),
            None => earlier,
        }
    }
}

/// Puts a snapshot together from what the supervisor knows and what was measured.
pub fn update_snapshot<G, D>(
    lens: &Vec<usize>,
    link_gauges: &Vec<LinkGauges<G>>,
    stage_gauges: &Vec<StageGauges<G, D>>,
    stages: &Vec<RuntimeStage>,
    active_by_stage: &Vec<Vec<usize>>,
    parked_threads: usize,
    link_controls: &Vec<LinkControl>,
    controls: &Vec<StageControl>,
    output_link: usize,
    global_worker_cap: usize,
    shutdown_requested: bool,
    abort_requested: bool,
    pending_scale_operation: bool,
) -> (snapshot: PiperSnapshot<G, D>) where G: Copy, D: Copy
    requires
        lens@.len() == link_controls@.len(),
        link_gauges@.len() == link_controls@.len(),
        stage_gauges@.len() == stages@.len(),
        active_by_stage@.len() == stages@.len(),
        controls@.len() == stages@.len(),
        output_link < link_controls@.len(),
        scaling::total_workers(scaling::headcounts(active_by_stage@)) <= usize::MAX,
    ensures
        snapshot.links@ == Seq::new(
            link_controls@.len(),
            |i: int| link_snapshot(i, lens@[i], link_controls@[i], link_gauges@[i]),
        ),
        snapshot.stages@ == Seq::new(
            stages@.len(),
            |i: int|
                stage_snapshot(
                    i,
                    stages@[i],
                    active_by_stage@[i]@.len(),
                    controls@[i],
                    stage_gauges@[i],
                ),
        ),
        snapshot.anchors@ == anchor_snapshots(
            stages@,
            scaling::headcounts(active_by_stage@),
            controls@,
            stages@.len() as int,
        ),
        snapshot.parked_threads == parked_threads,
        snapshot.total_active_workers == scaling::total_workers(
            scaling::headcounts(active_by_stage@),
        ),
        snapshot.global_worker_cap == global_worker_cap,
        snapshot.budget_pressure == (scaling::total_workers(scaling::headcounts(active_by_stage@))
            >= global_worker_cap),
        snapshot.output_backpressure == trend::growing(link_controls@[output_link as int].trend),
        snapshot.shutdown_requested == shutdown_requested,
        snapshot.abort_requested == abort_requested,
        snapshot.pending_scale_operation == pending_scale_operation,
{
    let mut links: Vec<LinkSnapshot<G>> = Vec::new();
    let mut index: usize = 0;
    while index < link_controls.len()
        invariant
            index <= link_controls@.len(),
            lens@.len() == link_controls@.len(),
            link_gauges@.len() == link_controls@.len(),
            links@.len() == index,
            forall|i: int|
                0 <= i < index ==> #[trigger] links@[i] == link_snapshot(
                    i,
                    lens@[i],
                    link_controls@[i],
                    link_gauges@[i],
                ),
        decreases link_controls@.len() - index,
    {
        let gauges: LinkGauges<G> = link_gauges[index];
        links.push(
            LinkSnapshot {
                index,
                len: lens[index],
                trend: link_controls[index].trend,
                arrival_rate: gauges.arrival_rate,
                drain_rate: gauges.drain_rate,
                net_rate: gauges.net_rate,
                smoothed_len: gauges.smoothed_len,
            },
        );
        index += 1;
    }
    let mut stage_list: Vec<StageSnapshot<G, D>> = Vec::new();
    let mut anchors: Vec<AnchorSnapshot> = Vec::new();
    let ghost heads = scaling::headcounts(active_by_stage@);
    let mut index: usize = 0;
    while index < stages.len()
        invariant
            index <= stages@.len(),
            stage_gauges@.len() == stages@.len(),
            active_by_stage@.len() == stages@.len(),
            controls@.len() == stages@.len(),
            heads == scaling::headcounts(active_by_stage@),
            stage_list@.len() == index,
            forall|i: int|
                0 <= i < index ==> #[trigger] stage_list@[i] == stage_snapshot(
                    i,
                    stages@[i],
                    active_by_stage@[i]@.len(),
                    controls@[i],
                    stage_gauges@[i],
                ),
            anchors@ == anchor_snapshots(stages@, heads, controls@, index as int),
        decreases stages@.len() - index,
    {
        let control: StageControl = controls[index];
        let gauges: StageGauges<G, D> = stage_gauges[index];
        let active: usize = active_by_stage[index].len();
        let fixed: bool = match control.anchor {
            Some(anchor) => anchor.fixed_threads.is_some(),
            None => false,
        };
        stage_list.push(
            StageSnapshot {
                index,
                name: stages[index].name.clone(),
                input_link: stages[index].input_link,
                output_link: stages[index].output_link,
                active_threads: active,
                processed_count: control.processed_count,
                busy_ratio: gauges.busy_ratio,
                service_time: gauges.service_time,
                per_worker_throughput: gauges.per_worker_throughput,
                desired_workers: control.desired_workers,
                scaling_state: control.scaling_state,
                is_anchor: control.anchor.is_some(),
                is_fixed_anchor: fixed,
            },
        );
        if let Some(anchor) = control.anchor {
            anchors.push(
                AnchorSnapshot {
                    stage_index: index,
                    stage_name: stages[index].name.clone(),
                    active_threads: active,
                    max_threads: anchor.max_threads,
                    fixed_threads: anchor.fixed_threads,
                    probe_state: anchor_probe_state(&anchor, active),
                    last_probe_outcome: anchor.last_probe_outcome,
                    last_probe_reason: anchor.last_probe_reason,
                },
            );
        }
        index += 1;
    }
    let total_active_workers: usize = active_worker_count(active_by_stage);
    PiperSnapshot {
        links,
        stages: stage_list,
        anchors,
        parked_threads,
        total_active_workers,
        global_worker_cap,
        budget_pressure: total_active_workers >= global_worker_cap,
        output_backpressure: link_controls[output_link].trend.is_growing(),
        shutdown_requested,
        abort_requested,
        pending_scale_operation,
    }
}

/// The last snapshot of a pipeline that has stopped: nothing is under way.
pub fn last_snapshot<G, D>(snapshot: PiperSnapshot<G, D>) -> (last: PiperSnapshot<G, D>)
    ensures
        last == (PiperSnapshot { pending_scale_operation: false, ..snapshot }),
{
    PiperSnapshot { pending_scale_operation: false, ..snapshot }
}

/// A snapshot shows the stages as they are: each under its place, with its name and
/// links, its present workers, the running total of its items, the workers that it
/// wants, its state, what was measured of it, and whether it is an anchor.
pub proof fn law_snapshot_shows_each_stage<G: Copy, D: Copy>(
    lens: &Vec<usize>,
    link_gauges: &Vec<LinkGauges<G>>,
    stage_gauges: &Vec<StageGauges<G, D>>,
    stages: &Vec<RuntimeStage>,
    active_by_stage: &Vec<Vec<usize>>,
    parked_threads: usize,
    link_controls: &Vec<LinkControl>,
    controls: &Vec<StageControl>,
    output_link: usize,
    global_worker_cap: usize,
    shutdown_requested: bool,
    abort_requested: bool,
    pending_scale_operation: bool,
    snapshot: PiperSnapshot<G, D>,
    i: int,
)
    requires
        call_ensures(
            update_snapshot::<G, D>,
            (
                lens,
                link_gauges,
                stage_gauges,
                stages,
                active_by_stage,
                parked_threads,
                link_controls,
                controls,
                output_link,
                global_worker_cap,
                shutdown_requested,
                abort_requested,
                pending_scale_operation,
            ),
            snapshot,
        ),
        0 <= i < stages@.len() <= usize::MAX,
        active_by_stage@.len() == stages@.len(),
        active_by_stage@[i]@.len() <= usize::MAX,
    ensures
        snapshot.stages@.len() == stages@.len(),
        ({
            let shown = snapshot.stages@[i];
            &&& shown.index == i
            &&& shown.name == stages@[i].name
            &&& shown.input_link == stages@[i].input_link
            &&& shown.output_link == stages@[i].output_link
            &&& shown.active_threads == active_by_stage@[i]@.len()
            &&& shown.processed_count == controls@[i].processed_count
            &&& shown.desired_workers == controls@[i].desired_workers
            &&& shown.scaling_state == controls@[i].scaling_state
            &&& shown.busy_ratio == stage_gauges@[i].busy_ratio
            &&& shown.service_time == stage_gauges@[i].service_time
            &&& shown.per_worker_throughput == stage_gauges@[i].per_worker_throughput
            &&& shown.is_anchor <==> controls@[i].anchor is Some
            &&& shown.is_fixed_anchor <==> controls@[i].anchor is Some
                && controls@[i].anchor->0.fixed_threads is Some
        }),
{
}

/// A snapshot shows the links as they are, and the pipeline: all workers at work,
/// those in reserve, whether the cap is reached, whether the output grows, and what
/// was asked for.
pub proof fn law_snapshot_shows_the_pipeline<G: Copy, D: Copy>(
    lens: &Vec<usize>,
    link_gauges: &Vec<LinkGauges<G>>,
    stage_gauges: &Vec<StageGauges<G, D>>,
    stages: &Vec<RuntimeStage>,
    active_by_stage: &Vec<Vec<usize>>,
    parked_threads: usize,
    link_controls: &Vec<LinkControl>,
    controls: &Vec<StageControl>,
    output_link: usize,
    global_worker_cap: usize,
    shutdown_requested: bool,
    abort_requested: bool,
    pending_scale_operation: bool,
    snapshot: PiperSnapshot<G, D>,
    l: int,
)
    requires
        call_ensures(
            update_snapshot::<G, D>,
            (
                lens,
                link_gauges,
                stage_gauges,
                stages,
                active_by_stage,
                parked_threads,
                link_controls,
                controls,
                output_link,
                global_worker_cap,
                shutdown_requested,
                abort_requested,
                pending_scale_operation,
            ),
            snapshot,
        ),
        0 <= l < link_controls@.len() <= usize::MAX,
    ensures
        snapshot.links@.len() == link_controls@.len(),
        ({
            let shown = snapshot.links@[l];
            &&& shown.index == l
            &&& shown.len == lens@[l]
            &&& shown.trend == link_controls@[l].trend
            &&& shown.arrival_rate == link_gauges@[l].arrival_rate
            &&& shown.drain_rate == link_gauges@[l].drain_rate
            &&& shown.net_rate == link_gauges@[l].net_rate
            &&& shown.smoothed_len == link_gauges@[l].smoothed_len
        }),
        ({
            let last = link_controls@[output_link as int].trend;
            snapshot.output_backpressure <==> last is Growing || last is FastGrowing || last
                is Runaway
        }),
        snapshot.budget_pressure <==> snapshot.total_active_workers >= global_worker_cap,
        snapshot.total_active_workers == scaling::total_workers(
            Seq::new(active_by_stage@.len(), |k: int| active_by_stage@[k]@.len()),
        ),
        snapshot.parked_threads == parked_threads,
        snapshot.global_worker_cap == global_worker_cap,
        snapshot.shutdown_requested == shutdown_requested,
        snapshot.abort_requested == abort_requested,
        snapshot.pending_scale_operation == pending_scale_operation,
{
    assert(scaling::headcounts(active_by_stage@) =~= Seq::new(
        active_by_stage@.len(),
        |k: int| active_by_stage@[k]@.len(),
    ));
}

/// The anchors of a snapshot are the stages that are anchors, each once and in
/// order, with their bounds, their present workers and what became of their probes.
pub proof fn law_snapshot_shows_each_anchor<G: Copy, D: Copy>(
    lens: &Vec<usize>,
    link_gauges: &Vec<LinkGauges<G>>,
    stage_gauges: &Vec<StageGauges<G, D>>,
    stages: &Vec<RuntimeStage>,
    active_by_stage: &Vec<Vec<usize>>,
    parked_threads: usize,
    link_controls: &Vec<LinkControl>,
    controls: &Vec<StageControl>,
    output_link: usize,
    global_worker_cap: usize,
    shutdown_requested: bool,
    abort_requested: bool,
    pending_scale_operation: bool,
    snapshot: PiperSnapshot<G, D>,
    k: int,
    stage: int,
)
    requires
        call_ensures(
            update_snapshot::<G, D>,
            (
                lens,
                link_gauges,
                stage_gauges,
                stages,
                active_by_stage,
                parked_threads,
                link_controls,
                controls,
                output_link,
                global_worker_cap,
                shutdown_requested,
                abort_requested,
                pending_scale_operation,
            ),
            snapshot,
        ),
        stages@.len() <= usize::MAX,
        active_by_stage@.len() == stages@.len(),
        controls@.len() == stages@.len(),
        forall|i: int| 0 <= i < stages@.len() ==> (#[trigger] active_by_stage@[i])@.len() <= usize::MAX,
    ensures
        0 <= k < snapshot.anchors@.len() ==> {
            let shown = snapshot.anchors@[k];
            let s = shown.stage_index as int;
            &&& s < stages@.len()
            &&& controls@[s].anchor is Some
            &&& shown.stage_name == stages@[s].name
            &&& shown.active_threads == active_by_stage@[s]@.len()
            &&& shown.max_threads == controls@[s].anchor->0.max_threads
            &&& shown.fixed_threads == controls@[s].anchor->0.fixed_threads
            &&& shown.last_probe_outcome == controls@[s].anchor->0.last_probe_outcome
            &&& shown.last_probe_reason == controls@[s].anchor->0.last_probe_reason
            &&& shown.probe_state == control::probe_state(
                controls@[s].anchor->0,
                active_by_stage@[s]@.len() as int,
            )
        },
        0 < k < snapshot.anchors@.len() ==> snapshot.anchors@[k - 1].stage_index
            < snapshot.anchors@[k].stage_index,
        0 <= stage < stages@.len() && controls@[stage].anchor is Some ==> exists|j: int|
            0 <= j < snapshot.anchors@.len() && (#[trigger] snapshot.anchors@[j]).stage_index
                == stage,
{
    let heads = scaling::headcounts(active_by_stage@);
    let n = stages@.len() as int;
    if 0 <= stage < n && controls@[stage].anchor is Some {
        let j = lemma_anchor_is_listed(stages@, heads, controls@, n, stage);
        assert(snapshot.anchors@[j].stage_index == stage);
    }
    if 0 <= k < snapshot.anchors@.len() {
        lemma_listed_anchor(stages@, heads, controls@, n, k);
        let s = snapshot.anchors@[k].stage_index as int;
        assert(heads[s] == active_by_stage@[s]@.len());
        assert(active_by_stage@[s]@.len() <= usize::MAX);
    }
}

proof fn lemma_listed_anchor(
    stages: Seq<RuntimeStage>,
    workers: Seq<nat>,
    controls: Seq<StageControl>,
    count: int,
    k: int,
)
    requires
        0 <= count <= usize::MAX,
        0 <= k < anchor_snapshots(stages, workers, controls, count).len(),
    ensures
        ({
            let list = anchor_snapshots(stages, workers, controls, count);
            let s = list[k].stage_index as int;
            &&& s < count
            &&& controls[s].anchor is Some
            &&& list[k] == anchor_snapshot(s, stages[s], workers[s], controls[s].anchor->0)
            &&& k > 0 ==> list[k - 1].stage_index < s
        }),
    decreases count,
{
    if count > 0 {
        let before = anchor_snapshots(stages, workers, controls, count - 1);
        if k < before.len() {
            lemma_listed_anchor(stages, workers, controls, count - 1, k);
        } else if k > 0 {
            lemma_listed_anchor(stages, workers, controls, count - 1, k - 1);
        }
    }
}

proof fn lemma_anchor_is_listed(
    stages: Seq<RuntimeStage>,
    workers: Seq<nat>,
    controls: Seq<StageControl>,
    count: int,
    s: int,
) -> (j: int)
    requires
        0 <= s < count <= usize::MAX,
        controls[s].anchor is Some,
    ensures
        0 <= j < anchor_snapshots(stages, workers, controls, count).len(),
        anchor_snapshots(stages, workers, controls, count)[j].stage_index == s,
    decreases count,
{
    let before = anchor_snapshots(stages, workers, controls, count - 1);
    if s < count - 1 {
        lemma_anchor_is_listed(stages, workers, controls, count - 1, s)
    } else {
        before.len() as int
    }
}

/// A snapshot tells the running total: for a stage whose memory was sampled from
/// fresh, it is the sum of the items of all samples, as far as there is room.
pub proof fn law_snapshot_tells_the_running_total<G: Copy, D: Copy>(
    lens: &Vec<usize>,
    link_gauges: &Vec<LinkGauges<G>>,
    stage_gauges: &Vec<StageGauges<G, D>>,
    stages: &Vec<RuntimeStage>,
    active_by_stage: &Vec<Vec<usize>>,
    parked_threads: usize,
    link_controls: &Vec<LinkControl>,
    controls: &Vec<StageControl>,
    output_link: usize,
    global_worker_cap: usize,
    shutdown_requested: bool,
    abort_requested: bool,
    pending_scale_operation: bool,
    snapshot: PiperSnapshot<G, D>,
    i: int,
    memory: Seq<StageControl>,
    samples: Seq<StageSample>,
)
    requires
        call_ensures(
            update_snapshot::<G, D>,
            (
                lens,
                link_gauges,
                stage_gauges,
                stages,
                active_by_stage,
                parked_threads,
                link_controls,
                controls,
                output_link,
                global_worker_cap,
                shutdown_requested,
                abort_requested,
                pending_scale_operation,
            ),
            snapshot,
        ),
        0 <= i < stages@.len() <= usize::MAX,
        active_by_stage@.len() == stages@.len(),
        control::is_sampled(memory, samples),
        memory[0] == control::fresh_control(stages@[i]),
        memory.last() == controls@[i],
    ensures
        control::item_total(samples) <= u64::MAX ==> snapshot.stages@[i].processed_count
            == control::item_total(samples),
        control::item_total(samples) > u64::MAX ==> snapshot.stages@[i].processed_count
            == u64::MAX,
{
    control::law_samples_add_up(memory, samples);
}

/// The running total never falls from one snapshot to a later one, whatever samples
/// came between.
pub proof fn law_running_total_never_falls<G: Copy, D: Copy>(
    index: int,
    stage: RuntimeStage,
    workers: nat,
    later_workers: nat,
    gauges: StageGauges<G, D>,
    later_gauges: StageGauges<G, D>,
    memory: Seq<StageControl>,
    samples: Seq<StageSample>,
)
    requires
        control::is_sampled(memory, samples),
    ensures
        stage_snapshot(index, stage, workers, memory[0], gauges).processed_count
            <= stage_snapshot(
            index,
            stage,
            later_workers,
            memory.last(),
            later_gauges,
        ).processed_count,
        memory[0].processed_count + control::item_total(samples) <= u64::MAX ==> stage_snapshot(
            index,
            stage,
            later_workers,
            memory.last(),
            later_gauges,
        ).processed_count == memory[0].processed_count + control::item_total(samples),
{
    control::law_samples_add_up(memory, samples);
}

/// The last snapshot has nothing under way and is otherwise the one before it.
pub proof fn law_last_snapshot_has_nothing_under_way<G, D>(
    snapshot: PiperSnapshot<G, D>,
    last: PiperSnapshot<G, D>,
)
    requires
        call_ensures(last_snapshot::<G, D>, (snapshot,), last),
    ensures
        !last.pending_scale_operation,
        last.links == snapshot.links,
        last.stages == snapshot.stages,
        last.anchors == snapshot.anchors,
        last.parked_threads == snapshot.parked_threads,
        last.total_active_workers == snapshot.total_active_workers,
        last.global_worker_cap == snapshot.global_worker_cap,
        last.budget_pressure == snapshot.budget_pressure,
        last.output_backpressure == snapshot.output_backpressure,
        last.shutdown_requested == snapshot.shutdown_requested,
        last.abort_requested == snapshot.abort_requested,
{
}

} // verus!

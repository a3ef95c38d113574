//! Pipeline graphs: stages joined by links, the checks that a graph passes
//! before it starts, and the stages as they run.
use crate::cycles;
use crate::error::PiperError;
use crate::text;
use std::marker::PhantomData;
use vstd::prelude::*;

verus! {

/// What a stage asks of its thread count when it is marked as an anchor.
#[derive(Clone, Copy, Debug)]
pub struct AnchorHints {
    pub max_threads: Option<usize>,
    pub initial_threads: Option<usize>,
    pub fixed_threads: Option<usize>,
}

/// An anchor that asks for nothing in particular.
pub open spec fn no_hints() -> AnchorHints {
    AnchorHints { max_threads: None, initial_threads: None, fixed_threads: None }
}

impl Default for AnchorHints {
    fn default() -> (hints: Self)
        ensures
            hints == no_hints(),
    {
        AnchorHints { max_threads: None, initial_threads: None, fixed_threads: None }
    }
}

/// The hints of a stage that is, or is about to become, an anchor.
pub open spec fn hints_of(anchor: Option<AnchorHints>) -> AnchorHints {
    match anchor {
        Some(hints) => hints,
        None => no_hints(),
    }
}

/// An anchor's thread counts once every hint has been settled.
#[derive(Clone, Copy, Debug)]
pub struct ResolvedAnchor {
    pub max_threads: usize,
    pub initial_threads: usize,
    pub fixed_threads: Option<usize>,
}

/// The threads the machine runs at once: what it reports, and at least one.
pub open spec fn usable_threads(reported: Option<usize>) -> usize {
    match reported {
        Some(threads) => if threads == 0 {
            1
        } else {
            threads
        },
        None => 1,
    }
}

/// The number of threads to count on, from what the machine reports.
pub fn available_threads(reported: Option<usize>) -> (threads: usize)
    ensures
        threads == usable_threads(reported),
        threads >= 1,
{
    match reported {
        Some(threads) => if threads == 0 {
            1
        } else {
            threads
        },
        None => 1,
    }
}

/// An anchor's upper bound: its own, or every available thread.
pub open spec fn anchor_max(hints: AnchorHints, available: usize) -> usize {
    match hints.max_threads {
        Some(threads) => threads,
        None => available,
    }
}

/// The threads an anchor starts with before its bound is applied: its own
/// number, or half of the bound, rounded up.
pub open spec fn anchor_initial(hints: AnchorHints, available: usize) -> usize {
    match hints.initial_threads {
        Some(threads) => threads,
        None => ((anchor_max(hints, available) + 1) / 2) as usize,
    }
}

/// No thread count of the anchor is zero.
pub open spec fn anchor_is_valid(hints: AnchorHints, available: usize) -> bool {
    &&& anchor_max(hints, available) > 0
    &&& anchor_initial(hints, available) > 0
    &&& hints.fixed_threads != Some(0usize)
}

/// The anchor that a valid set of hints stands for.
pub open spec fn resolved_anchor(hints: AnchorHints, available: usize) -> ResolvedAnchor {
    let max_threads = anchor_max(hints, available);
    let initial_threads = anchor_initial(hints, available);
    ResolvedAnchor {
        max_threads,
        initial_threads: if initial_threads < max_threads {
            initial_threads
        } else {
            max_threads
        },
        fixed_threads: hints.fixed_threads,
    }
}

/// Settles an anchor's hints; `available` is the number of threads to count on.
pub fn resolve_anchor_hints<E>(hints: AnchorHints, available: usize) -> (anchor: Result<
    ResolvedAnchor,
    PiperError<E>,
>)
    ensures
        match anchor {
            Ok(anchor) => anchor_is_valid(hints, available) && anchor == resolved_anchor(
                hints,
                available,
            ),
            Err(error) => !anchor_is_valid(hints, available)
                && error is InvalidAnchorThreads,
        },
{
    let max_threads: usize = match hints.max_threads {
        Some(threads) => threads,
        None => available,
    };
    if max_threads == 0 {
        return Err(PiperError::InvalidAnchorThreads);
    }
    let initial_threads: usize = match hints.initial_threads {
        Some(threads) => threads,
        None => max_threads / 2 + max_threads % 2,
    };
    if initial_threads == 0 {
        return Err(PiperError::InvalidAnchorThreads);
    }
    if let Some(threads) = hints.fixed_threads {
        if threads == 0 {
            return Err(PiperError::InvalidAnchorThreads);
        }
    }
    Ok(
        ResolvedAnchor {
            max_threads,
            initial_threads: if initial_threads < max_threads {
                initial_threads
            } else {
                max_threads
            },
            fixed_threads: hints.fixed_threads,
        },
    )
}

/// The larger of two counts.
pub open spec fn larger(a: usize, b: usize) -> usize {
    if a < b {
        b
    } else {
        a
    }
}

/// Twice a count, or the largest count where that would not fit.
pub open spec fn doubled(count: usize) -> usize {
    if 2 * count <= usize::MAX {
        (2 * count) as usize
    } else {
        usize::MAX
    }
}

/// Doubles a count without leaving its range.
pub fn double(count: usize) -> (twice: usize)
    ensures
        twice == doubled(count),
{
    if count <= usize::MAX / 2 {
        2 * count
    } else {
        usize::MAX
    }
}

/// The bound on a pipeline's active workers: the configured one, or twice the
/// available threads, and in any case one worker per stage.
pub open spec fn worker_cap(
    configured: Option<usize>,
    stage_count: usize,
    available: usize,
) -> usize {
    match configured {
        Some(cap) => larger(cap, stage_count),
        None => larger(doubled(available), stage_count),
    }
}

pub fn resolve_global_worker_cap(
    configured: Option<usize>,
    stage_count: usize,
    available: usize,
) -> (cap: usize)
    ensures
        cap == worker_cap(configured, stage_count, available),
{
    let wanted: usize = match configured {
        Some(cap) => cap,
        None => double(available),
    };
    if wanted < stage_count {
        stage_count
    } else {
        wanted
    }
}

/// A stage before it is placed in a graph. `P` is whatever runs the stage; it is
/// carried along untouched. `In` and `Out` are the stage's item types.
pub struct StageSpec<In, Out, P> {
    pub name: String,
    pub payload: P,
    pub anchor: Option<AnchorHints>,
    pub marker: PhantomData<(In, Out)>,
}

impl<In, Out, P> StageSpec<In, Out, P> {
    /// Makes the stage an anchor that grows to at most `max_threads` threads.
    pub fn max_threads(self, max_threads: usize) -> (spec: Self)
        ensures
            spec.name == self.name,
            spec.payload == self.payload,
            spec.anchor == Some(
                AnchorHints { max_threads: Some(max_threads), ..hints_of(self.anchor) },
            ),
    {
        let mut hints: AnchorHints = match self.anchor {
            Some(hints) => hints,
            None => AnchorHints::default(),
        };
        hints.max_threads = Some(max_threads);
        StageSpec { anchor: Some(hints), ..self }
    }

    /// Makes the stage an anchor that starts with `initial_threads` threads.
    pub fn initial_threads(self, initial_threads: usize) -> (spec: Self)
        ensures
            spec.name == self.name,
            spec.payload == self.payload,
            spec.anchor == Some(
                AnchorHints { initial_threads: Some(initial_threads), ..hints_of(self.anchor) },
            ),
    {
        let mut hints: AnchorHints = match self.anchor {
            Some(hints) => hints,
            None => AnchorHints::default(),
        };
        hints.initial_threads = Some(initial_threads);
        StageSpec { anchor: Some(hints), ..self }
    }

    /// Makes the stage an anchor that keeps `fixed_threads` threads throughout.
    pub fn fixed_threads(self, fixed_threads: usize) -> (spec: Self)
        ensures
            spec.name == self.name,
            spec.payload == self.payload,
            spec.anchor == Some(
                AnchorHints {
                    max_threads: Some(fixed_threads),
                    initial_threads: Some(fixed_threads),
                    fixed_threads: Some(fixed_threads),
                },
            ),
    {
        StageSpec {
            anchor: Some(
                AnchorHints {
                    max_threads: Some(fixed_threads),
                    initial_threads: Some(fixed_threads),
                    fixed_threads: Some(fixed_threads),
                },
            ),
            ..self
        }
    }
}

/// A stage under a name of its own.
pub fn stage<In, Out, P>(name: String, payload: P) -> (spec: StageSpec<In, Out, P>)
    ensures
        spec.name == name,
        spec.payload == payload,
        spec.anchor is None,
{
    StageSpec { name, payload, anchor: None, marker: PhantomData }
}

/// Marks a stage as an anchor; hints that it already has are kept.
pub fn anchor<In, Out, P>(spec: StageSpec<In, Out, P>) -> (anchored: StageSpec<In, Out, P>)
    ensures
        anchored.name == spec.name,
        anchored.payload == spec.payload,
        anchored.anchor == Some(hints_of(spec.anchor)),
{
    let hints: AnchorHints = match spec.anchor {
        Some(hints) => hints,
        None => AnchorHints::default(),
    };
    StageSpec { anchor: Some(hints), ..spec }
}

/// A stage in its place: it takes items from one link and puts them on another.
pub struct GraphStageSpec<P> {
    pub name: String,
    pub payload: P,
    pub anchor: Option<AnchorHints>,
    pub input_link: usize,
    pub output_link: usize,
}

/// A link that carries items of type `T`.
pub struct GraphLink<T> {
    pub(crate) index: usize,
    pub(crate) marker: PhantomData<T>,
}

impl<T> Clone for GraphLink<T> {
    fn clone(&self) -> (link: Self)
        ensures
            link == *self,
    {
        *self
    }
}

impl<T> Copy for GraphLink<T> {

}

impl<T> GraphLink<T> {
    /// The link's number in its graph.
    pub closed spec fn number(self) -> usize {
        self.index
    }

    pub fn index(self) -> (index: usize)
        ensures
            index == self.number(),
    {
        self.index
    }
}

/// A graph with its outer links.
pub struct PipelineGraph<In, Out, P> {
    pub input_link: usize,
    pub output_link: usize,
    pub link_count: usize,
    pub stages: Vec<GraphStageSpec<P>>,
    pub marker: PhantomData<(In, Out)>,
}

/// A graph under construction. Link 0 is the pipeline's input.
pub struct PipelineGraphBuilder<In, P> {
    pub link_count: usize,
    pub stages: Vec<GraphStageSpec<P>>,
    pub marker: PhantomData<In>,
}

/// The stage that a spec becomes between two links.
pub open spec fn placed<In, Out, P>(
    spec: StageSpec<In, Out, P>,
    input_link: usize,
    output_link: usize,
) -> GraphStageSpec<P> {
    GraphStageSpec {
        name: spec.name,
        payload: spec.payload,
        anchor: spec.anchor,
        input_link,
        output_link,
    }
}

/// What a call does to a builder's count of links: a call that hands a link out
/// gives it the next number, and any other call keeps the count.
pub open spec fn hands_out<In, P>(
    before: PipelineGraphBuilder<In, P>,
    after: PipelineGraphBuilder<In, P>,
    link: Option<usize>,
) -> bool {
    match link {
        Some(number) => number == before.link_count && after.link_count == before.link_count + 1,
        None => after.link_count == before.link_count,
    }
}

impl<In, P> PipelineGraphBuilder<In, P> {
    pub fn new() -> (builder: Self)
        ensures
            builder.link_count == 1,
            builder.stages@.len() == 0,
    {
        PipelineGraphBuilder { link_count: 1, stages: Vec::new(), marker: PhantomData }
    }

    /// The link that feeds the pipeline.
    pub fn input(&self) -> (link: GraphLink<In>)
        ensures
            link.number() == 0,
    {
        GraphLink { index: 0, marker: PhantomData }
    }

    /// A new link.
    pub fn link<T>(&mut self) -> (link: GraphLink<T>)
        requires
            old(self).link_count < usize::MAX,
        ensures
            hands_out(*old(self), *final(self), Some(link.number())),
            final(self).stages == old(self).stages,
    {
        let index: usize = self.link_count;
        self.link_count = self.link_count + 1;
        GraphLink { index, marker: PhantomData }
    }

    /// Adds a stage that writes to a new link, and returns that link.
    pub fn add_stage<T, Out>(
        &mut self,
        input: GraphLink<T>,
        spec: StageSpec<T, Out, P>,
    ) -> (output: GraphLink<Out>)
        requires
            old(self).link_count < usize::MAX,
        ensures
            hands_out(*old(self), *final(self), Some(output.number())),
            final(self).stages@ == old(self).stages@.push(
                placed(spec, input.number(), output.number()),
            ),
    {
        let output: GraphLink<Out> = self.link();
        self.add_stage_to(input, spec, output);
        output
    }

    /// Adds a stage between two links.
    pub fn add_stage_to<T, Out>(
        &mut self,
        input: GraphLink<T>,
        spec: StageSpec<T, Out, P>,
        output: GraphLink<Out>,
    )
        ensures
            hands_out(*old(self), *final(self), None),
            final(self).stages@ == old(self).stages@.push(
                placed(spec, input.number(), output.number()),
            ),
    {
        self.stages.push(
            GraphStageSpec {
                name: spec.name,
                payload: spec.payload,
                anchor: spec.anchor,
                input_link: input.index,
                output_link: output.index,
            },
        );
    }

    /// Closes the graph; items on `output` leave the pipeline.
    pub fn finish<Out>(self, output: GraphLink<Out>) -> (graph: PipelineGraph<In, Out, P>)
        requires
            output.number() < usize::MAX,
        ensures
            graph.input_link == 0,
            graph.output_link == output.number(),
            graph.link_count == larger(self.link_count, (output.number() + 1) as usize),
            graph.stages == self.stages,
    {
        let needed: usize = output.index + 1;
        PipelineGraph {
            input_link: 0,
            output_link: output.index,
            link_count: if self.link_count < needed {
                needed
            } else {
                self.link_count
            },
            stages: self.stages,
            marker: PhantomData,
        }
    }
}

impl<In, P> Default for PipelineGraphBuilder<In, P> {
    fn default() -> (builder: Self)
        ensures
            builder.link_count == 1,
            builder.stages@.len() == 0,
    {
        PipelineGraphBuilder::new()
    }
}

/// The edges of a graph: one stage feeds another over the link between them.
pub open spec fn feeds<P>(stages: Seq<GraphStageSpec<P>>) -> spec_fn(int, int) -> bool {
    |producer: int, consumer: int|
        stages[producer].output_link == stages[consumer].input_link
}

/// Rejects a graph in which items could come back to a stage that they passed.
pub fn validate_graph_is_acyclic<P, E>(stages: &Vec<GraphStageSpec<P>>) -> (outcome: Result<
    (),
    PiperError<E>,
>)
    ensures
        match outcome {
            Ok(()) => !cycles::is_cyclic(stages@.len(), feeds(stages@)),
            Err(error) => {
                &&& cycles::is_cyclic(stages@.len(), feeds(stages@))
                &&& error is InvalidGraph
                &&& error->InvalidGraph_message@ == "graph cycles are not supported"@
            },
        },
{
    let count: usize = stages.len();
    let mut adjacency: Vec<Vec<usize>> = Vec::new();
    let mut producer: usize = 0;
    while producer < count
        invariant
            count == stages@.len(),
            producer <= count,
            adjacency@.len() == producer,
            forall|node: int, k: int|
                0 <= node < producer && 0 <= k < adjacency@[node]@.len() ==> {
                    &&& (#[trigger] adjacency@[node]@[k]) < count
                    &&& stages@[node].output_link
                        == stages@[adjacency@[node]@[k] as int].input_link
                },
            forall|node: int, other: int|
                0 <= node < producer && 0 <= other < count && stages@[node].output_link
                    == stages@[other].input_link ==> #[trigger] cycles::listed(adjacency@)(
                    node,
                    other,
                ),
        decreases count - producer,
    {
        let mut consumers: Vec<usize> = Vec::new();
        let mut consumer: usize = 0;
        while consumer < count
            invariant
                count == stages@.len(),
                producer < count,
                consumer <= count,
                forall|k: int|
                    0 <= k < consumers@.len() ==> {
                        &&& (#[trigger] consumers@[k]) < count
                        &&& stages@[producer as int].output_link
                            == stages@[consumers@[k] as int].input_link
                    },
                forall|other: int|
                    0 <= other < consumer && stages@[producer as int].output_link
                        == (#[trigger] stages@[other]).input_link ==> exists|k: int|
                        0 <= k < consumers@.len() && #[trigger] consumers@[k] == other,
            decreases count - consumer,
        {
            let ghost earlier = consumers@;
            if stages[producer].output_link == stages[consumer].input_link {
                consumers.push(consumer);
                assert(consumers@[earlier.len() as int] == consumer);
            }
            proof {
                assert forall|other: int|
                    0 <= other < consumer + 1 && stages@[producer as int].output_link == (
                    #[trigger] stages@[other]).input_link implies exists|k: int|
                    0 <= k < consumers@.len() && #[trigger] consumers@[k] == other by {
                    if other < consumer {
                        let k = choose|k: int|
                            0 <= k < earlier.len() && #[trigger] earlier[k] == other;
                        assert(consumers@[k] == other);
                    }
                }
            }
            consumer += 1;
        }
        let ghost before = adjacency@;
        adjacency.push(consumers);
        proof {
            assert forall|node: int, other: int|
                0 <= node < producer + 1 && 0 <= other < count && stages@[node].output_link
                    == stages@[other].input_link implies #[trigger] cycles::listed(adjacency@)(
                node,
                other,
            ) by {
                if node < producer {
                    assert(cycles::listed(before)(node, other));
                    assert(adjacency@[node] == before[node]);
                } else {
                    let k = choose|k: int|
                        0 <= k < consumers@.len() && #[trigger] consumers@[k] == other;
                    assert(adjacency@[node]@[k] == other);
                }
            }
        }
        producer += 1;
    }
    proof {
        assert forall|a: int, b: int| 0 <= a < count && 0 <= b < count implies (
        #[trigger] cycles::listed(adjacency@)(a, b)) == feeds(stages@)(a, b) by {}
        cycles::lemma_same_edges_same_cycles(
            count as nat,
            cycles::listed(adjacency@),
            feeds(stages@),
        );
    }
    match cycles::find_cycle(&adjacency) {
        Some(_) => Err(
            PiperError::InvalidGraph { message: "graph cycles are not supported".to_string() },
        ),
        None => Ok(()),
    }
}

/// A stage as the controller sees it while the pipeline runs.
#[derive(Debug)]
pub struct RuntimeStage {
    pub name: String,
    pub anchor: Option<ResolvedAnchor>,
    pub input_link: usize,
    pub output_link: usize,
}

/// What keeps a graph from starting.
pub enum StartFault {
    NoStages,
    OuterLinkMissing,
    StageLinkMissing { stage: int },
    Cycle,
    NoWorkers,
    AnchorThreads,
}

/// Stage `index` names a link that the graph does not have.
pub open spec fn lacks_link<P>(
    stages: Seq<GraphStageSpec<P>>,
    link_count: usize,
    index: int,
) -> bool {
    stages[index].input_link >= link_count || stages[index].output_link >= link_count
}

/// The first stage from `from` on that names a missing link.
pub open spec fn first_lacking<P>(
    stages: Seq<GraphStageSpec<P>>,
    link_count: usize,
    from: int,
) -> Option<int>
    decreases stages.len() - from,
{
    if from >= stages.len() {
        None
    } else if lacks_link(stages, link_count, from) {
        Some(from)
    } else {
        first_lacking(stages, link_count, from + 1)
    }
}

/// Some stage of the graph is an anchor.
pub open spec fn is_anchored<P>(stages: Seq<GraphStageSpec<P>>) -> bool {
    exists|i: int| 0 <= i < stages.len() && (#[trigger] stages[i]).anchor is Some
}

/// Every anchor of the graph has thread counts that are not zero.
pub open spec fn anchors_are_valid<P>(stages: Seq<GraphStageSpec<P>>, available: usize) -> bool {
    forall|i: int|
        0 <= i < stages.len() && (#[trigger] stages[i]).anchor is Some ==> anchor_is_valid(
            stages[i].anchor->0,
            available,
        )
}

/// The first reason, in the order of the checks, why a graph does not start.
pub open spec fn start_fault<In, Out, P>(
    graph: PipelineGraph<In, Out, P>,
    configured_cap: Option<usize>,
    available: usize,
) -> Option<StartFault> {
    let stages = graph.stages@;
    if stages.len() == 0 {
        Some(StartFault::NoStages)
    } else if graph.input_link >= graph.link_count || graph.output_link >= graph.link_count {
        Some(StartFault::OuterLinkMissing)
    } else if first_lacking(stages, graph.link_count, 0) is Some {
        Some(
            StartFault::StageLinkMissing { stage: first_lacking(stages, graph.link_count, 0)->0 },
        )
    } else if cycles::is_cyclic(stages.len(), feeds(stages)) {
        Some(StartFault::Cycle)
    } else if !is_anchored(stages) && configured_cap == Some(0usize) {
        Some(StartFault::NoWorkers)
    } else if !anchors_are_valid(stages, available) {
        Some(StartFault::AnchorThreads)
    } else {
        None
    }
}

/// The error under which a fault is reported.
pub open spec fn reports<P, E>(
    error: PiperError<E>,
    fault: StartFault,
    stages: Seq<GraphStageSpec<P>>,
) -> bool {
    match fault {
        StartFault::NoStages => error is NoStages,
        StartFault::OuterLinkMissing => error is InvalidGraph && error->InvalidGraph_message@
            == "input or output link is outside the graph"@,
        StartFault::StageLinkMissing { stage } => error is InvalidGraph
            && error->InvalidGraph_message@ == "stage `"@ + stages[stage].name@
            + "` references a missing link"@,
        StartFault::Cycle => error is InvalidGraph && error->InvalidGraph_message@
            == "graph cycles are not supported"@,
        StartFault::NoWorkers => error is InvalidGraph && error->InvalidGraph_message@
            == "unanchored graphs require a finite non-zero worker cap"@,
        StartFault::AnchorThreads => error is InvalidAnchorThreads,
    }
}

/// The stage that a graph's stage becomes when the pipeline runs.
pub open spec fn running<P>(stage: GraphStageSpec<P>, available: usize) -> RuntimeStage {
    RuntimeStage {
        name: stage.name,
        anchor: match stage.anchor {
            Some(hints) => Some(resolved_anchor(hints, available)),
            None => None,
        },
        input_link: stage.input_link,
        output_link: stage.output_link,
    }
}

/// A checked graph, ready to run. `payloads` holds what runs each stage.
pub struct StartPlan<P> {
    pub stages: Vec<RuntimeStage>,
    pub payloads: Vec<P>,
    pub input_link: usize,
    pub output_link: usize,
    pub link_count: usize,
    pub global_worker_cap: usize,
}

/// The stages and links of a plan agree: each link that is named exists.
pub open spec fn links_exist(stages: Seq<RuntimeStage>, link_count: int) -> bool {
    forall|i: int|
        0 <= i < stages.len() ==> (#[trigger] stages[i]).input_link < link_count
            && stages[i].output_link < link_count
}

/// Checks a graph in full and lays out how it runs. `available` is the number of
/// threads to count on.
pub fn plan_start<In, Out, P, E>(
    graph: PipelineGraph<In, Out, P>,
    configured_cap: Option<usize>,
    available: usize,
) -> (plan: Result<StartPlan<P>, PiperError<E>>)
    ensures
        match plan {
            Ok(plan) => {
                &&& start_fault(graph, configured_cap, available) is None
                &&& plan.stages@ == Seq::new(
                    graph.stages@.len(),
                    |i: int| running(graph.stages@[i], available),
                )
                &&& plan.payloads@ == Seq::new(
                    graph.stages@.len(),
                    |i: int| graph.stages@[i].payload,
                )
                &&& plan.input_link == graph.input_link
                &&& plan.output_link == graph.output_link
                &&& plan.link_count == graph.link_count
                &&& plan.global_worker_cap == worker_cap(
                    configured_cap,
                    graph.stages@.len() as usize,
                    available,
                )
                &&& links_exist(plan.stages@, plan.link_count as int)
            },
            Err(error) => {
                &&& start_fault(graph, configured_cap, available) is Some
                &&& reports(
                    error,
                    start_fault(graph, configured_cap, available)->0,
                    graph.stages@,
                )
            },
        },
{
    if graph.stages.len() == 0 {
        return Err(PiperError::NoStages);
    }
    if graph.input_link >= graph.link_count || graph.output_link >= graph.link_count {
        return Err(
            PiperError::InvalidGraph {
                message: "input or output link is outside the graph".to_string(),
            },
        );
    }
    let count: usize = graph.stages.len();
    let mut anchored = false;
    let mut index: usize = 0;
    while index < count
        invariant
            count == graph.stages@.len(),
            count > 0,
            graph.input_link < graph.link_count,
            graph.output_link < graph.link_count,
            index <= count,
            first_lacking(graph.stages@, graph.link_count, 0) == first_lacking(
                graph.stages@,
                graph.link_count,
                index as int,
            ),
            forall|i: int|
                0 <= i < index ==> !#[trigger] lacks_link(graph.stages@, graph.link_count, i),
            anchored == exists|i: int|
                0 <= i < index && (#[trigger] graph.stages@[i]).anchor is Some,
        decreases count - index,
    {
        let stage = &graph.stages[index];
        if stage.input_link >= graph.link_count || stage.output_link >= graph.link_count {
            proof {
                assert(lacks_link(graph.stages@, graph.link_count, index as int));
            }
            let message: String = text::enclose(
                "stage `",
                stage.name.as_str(),
                "` references a missing link",
            );
            return Err(PiperError::InvalidGraph { message });
        }
        proof {
            assert(!lacks_link(graph.stages@, graph.link_count, index as int));
        }
        if stage.anchor.is_some() {
            anchored = true;
            assert(graph.stages@[index as int].anchor is Some);
        }
        index += 1;
    }
    match validate_graph_is_acyclic::<P, E>(&graph.stages) {
        Ok(()) => {},
        Err(error) => {
            return Err(error);
        },
    }
    if let Some(cap) = configured_cap {
        if !anchored && cap == 0 {
            return Err(
                PiperError::InvalidGraph {
                    message: "unanchored graphs require a finite non-zero worker cap".to_string(),
                },
            );
        }
    }
    let ghost specs = graph.stages@;
    let input_link: usize = graph.input_link;
    let output_link: usize = graph.output_link;
    let link_count: usize = graph.link_count;
    let mut stages: Vec<RuntimeStage> = Vec::new();
    let mut payloads: Vec<P> = Vec::new();
    for spec in it: graph.stages
        invariant
            it.seq() == specs,
            stages@.len() == it.index(),
            payloads@.len() == it.index(),
            forall|i: int|
                0 <= i < it.index() ==> #[trigger] stages@[i] == running(specs[i], available),
            forall|i: int| 0 <= i < it.index() ==> #[trigger] payloads@[i] == specs[i].payload,
            forall|i: int|
                0 <= i < it.index() && (#[trigger] specs[i]).anchor is Some ==> anchor_is_valid(
                    specs[i].anchor->0,
                    available,
                ),
            forall|i: int| 0 <= i < specs.len() ==> !#[trigger] lacks_link(specs, link_count, i),
            start_fault(graph, configured_cap, available) == if anchors_are_valid(
                specs,
                available,
            ) {
                None
            } else {
                Some(StartFault::AnchorThreads)
            },
    {
        let anchor: Option<ResolvedAnchor> = match spec.anchor {
            Some(hints) => {
                match resolve_anchor_hints::<E>(hints, available) {
                    Ok(anchor) => Some(anchor),
                    Err(error) => {
                        return Err(error);
                    },
                }
            },
            None => None,
        };
        stages.push(
            RuntimeStage {
                name: spec.name,
                anchor,
                input_link: spec.input_link,
                output_link: spec.output_link,
            },
        );
        payloads.push(spec.payload);
    }
    let global_worker_cap: usize = resolve_global_worker_cap(configured_cap, count, available);
    proof {
        assert forall|i: int| 0 <= i < stages@.len() implies (
        #[trigger] stages@[i]).input_link < link_count && stages@[i].output_link < link_count by {
            assert(!lacks_link(specs, link_count, i));
        }
    }
    Ok(StartPlan { stages, payloads, input_link, output_link, link_count, global_worker_cap })
}

/// A settled anchor starts with at least one thread and no more than its bound.
pub proof fn law_anchor_starts_within_its_bound(hints: AnchorHints, available: usize)
    requires
        anchor_is_valid(hints, available),
    ensures
        1 <= resolved_anchor(hints, available).initial_threads,
        resolved_anchor(hints, available).initial_threads <= resolved_anchor(
            hints,
            available,
        ).max_threads,
{
}

/// Hints that name no zero are settled without error as soon as one thread is
/// available.
pub proof fn law_hints_without_zero_are_valid(hints: AnchorHints, available: usize)
    requires
        available >= 1,
        hints.max_threads != Some(0usize),
        hints.initial_threads != Some(0usize),
        hints.fixed_threads != Some(0usize),
    ensures
        anchor_is_valid(hints, available),
{
}

/// The worker bound leaves room for one worker per stage, and is at least what
/// was configured.
pub proof fn law_worker_cap_covers_every_stage(
    configured: Option<usize>,
    stage_count: usize,
    available: usize,
)
    ensures
        worker_cap(configured, stage_count, available) >= stage_count,
        configured matches Some(cap) ==> worker_cap(configured, stage_count, available) >= cap,
{
}

/// How many of the calls handed a link out.
pub open spec fn links_handed_out(links: Seq<Option<usize>>) -> nat
    decreases links.len(),
{
    if links.len() == 0 {
        0
    } else if links.last() is Some {
        links_handed_out(links.drop_last()) + 1
    } else {
        links_handed_out(links.drop_last())
    }
}

/// The builder's states before, between and after a list of calls, of which each
/// handed out the link at its place in the list, or none.
pub open spec fn is_building<In, P>(
    builders: Seq<PipelineGraphBuilder<In, P>>,
    links: Seq<Option<usize>>,
) -> bool {
    &&& builders.len() == links.len() + 1
    &&& builders[0].link_count == 1
    &&& forall|i: int|
        0 <= i < links.len() ==> hands_out(builders[i], builders[i + 1], #[trigger] links[i])
}

/// A builder numbers its links in the order in which it hands them out, from 1,
/// whatever other calls come between.
pub proof fn law_links_are_numbered_in_order<In, P>(
    builders: Seq<PipelineGraphBuilder<In, P>>,
    links: Seq<Option<usize>>,
    i: int,
)
    requires
        is_building(builders, links),
        0 <= i < links.len(),
    ensures
        links[i] is Some ==> links[i]->0 == 1 + links_handed_out(links.take(i)),
        builders.last().link_count == 1 + links_handed_out(links),
{
    lemma_count_follows_the_links(builders, links, i);
    lemma_count_follows_the_links(builders, links, links.len() as int);
    assert(links.take(links.len() as int) =~= links);
    assert(hands_out(builders[i], builders[i + 1], links[i]));
}

proof fn lemma_count_follows_the_links<In, P>(
    builders: Seq<PipelineGraphBuilder<In, P>>,
    links: Seq<Option<usize>>,
    i: int,
)
    requires
        is_building(builders, links),
        0 <= i <= links.len(),
    ensures
        builders[i].link_count == 1 + links_handed_out(links.take(i)),
    decreases i,
{
    if i > 0 {
        lemma_count_follows_the_links(builders, links, i - 1);
        assert(links.take(i).drop_last() =~= links.take(i - 1));
        assert(hands_out(builders[i - 1], builders[i - 1 + 1], links[i - 1]));
    }
}

proof fn lemma_links_ascend<In, P>(
    builders: Seq<PipelineGraphBuilder<In, P>>,
    links: Seq<Option<usize>>,
    i: int,
    j: int,
)
    requires
        is_building(builders, links),
        0 <= i <= j <= links.len(),
    ensures
        builders[i].link_count <= builders[j].link_count,
    decreases j - i,
{
    if i < j {
        lemma_links_ascend(builders, links, i, j - 1);
        assert(hands_out(builders[j - 1], builders[j - 1 + 1], links[j - 1]));
    }
}

/// No two links of a builder share a number, and none has that of the input.
pub proof fn law_links_differ<In, P>(
    builders: Seq<PipelineGraphBuilder<In, P>>,
    links: Seq<Option<usize>>,
    i: int,
    j: int,
)
    requires
        is_building(builders, links),
        0 <= i < j < links.len(),
        links[i] is Some,
        links[j] is Some,
    ensures
        links[i]->0 < links[j]->0,
        0 < links[i]->0,
{
    lemma_links_ascend(builders, links, 0, i);
    lemma_links_ascend(builders, links, i + 1, j);
    assert(hands_out(builders[i], builders[i + 1], links[i]));
    assert(hands_out(builders[j], builders[j + 1], links[j]));
}

/// Along a walk in a graph whose edges only lead to later stages, the stages
/// come ever later.
proof fn lemma_walk_ascends<P>(stages: Seq<GraphStageSpec<P>>, nodes: Seq<int>, end: int)
    requires
        cycles::is_walk(stages.len(), feeds(stages), nodes),
        forall|a: int, b: int|
            0 <= a < stages.len() && 0 <= b < stages.len() && #[trigger] feeds(stages)(a, b)
                ==> a < b,
        0 <= end < nodes.len(),
    ensures
        nodes[0] + end <= nodes[end],
    decreases end,
{
    if end > 0 {
        lemma_walk_ascends(stages, nodes, end - 1);
        assert(feeds(stages)(nodes[end - 1], nodes[end - 1 + 1]));
    }
}

/// A graph built by `add_stage` alone has no cycle: where every stage writes to
/// a link of its own, numbered one above the stage, and reads a link that was
/// there before it, no check on cycles can fail. A linear pipeline is the case
/// in which each stage reads the link that the one before it writes.
pub proof fn law_stages_on_new_links_form_no_cycle<P>(stages: Seq<GraphStageSpec<P>>)
    requires
        forall|i: int|
            0 <= i < stages.len() ==> (#[trigger] stages[i]).output_link == i + 1
                && stages[i].input_link <= i,
    ensures
        !cycles::is_cyclic(stages.len(), feeds(stages)),
{
    assert forall|a: int, b: int|
        0 <= a < stages.len() && 0 <= b < stages.len() && #[trigger] feeds(stages)(
            a,
            b,
        ) implies a < b by {
        assert(stages[a].output_link == a + 1);
        assert(stages[b].input_link <= b);
    }
    if cycles::is_cyclic(stages.len(), feeds(stages)) {
        let nodes = choose|nodes: Seq<int>| #[trigger]
            cycles::is_walk(stages.len(), feeds(stages), nodes) && nodes.len() > 1 && nodes[0]
                == nodes.last();
        lemma_walk_ascends(stages, nodes, nodes.len() - 1);
    }
}

/// A stage that writes to the link it reads is a cycle by itself.
pub proof fn law_stage_feeding_itself_is_a_cycle<P>(stages: Seq<GraphStageSpec<P>>, index: int)
    requires
        0 <= index < stages.len(),
        stages[index].output_link == stages[index].input_link,
    ensures
        cycles::is_cyclic(stages.len(), feeds(stages)),
{
    let nodes = seq![index, index];
    assert(cycles::is_walk(stages.len(), feeds(stages), nodes));
    assert(nodes.len() > 1 && nodes[0] == nodes.last());
}

/// What an anchor's hints settle to: its own bound, or all available threads; its
/// own start, or half of the bound rounded up, and never more than the bound; and
/// the fixed count as it was asked for. Hints are refused exactly where one of these
/// would be zero.
pub proof fn law_hints_are_settled<E>(
    hints: AnchorHints,
    available: usize,
    settled: Result<ResolvedAnchor, PiperError<E>>,
)
    requires
        call_ensures(resolve_anchor_hints::<E>, (hints, available), settled),
    ensures
        settled is Err <==> hints.max_threads == Some(0usize) || (hints.max_threads is None
            && available == 0) || hints.initial_threads == Some(0usize) || hints.fixed_threads
            == Some(0usize),
        settled matches Err(error) ==> error is InvalidAnchorThreads,
        settled matches Ok(anchor) ==> {
            &&& hints.max_threads matches Some(bound) ==> anchor.max_threads == bound
            &&& hints.max_threads is None ==> anchor.max_threads == available
            &&& (hints.initial_threads matches Some(start) && start <= anchor.max_threads)
                ==> anchor.initial_threads == hints.initial_threads->0
            &&& (hints.initial_threads matches Some(start) && start > anchor.max_threads)
                ==> anchor.initial_threads == anchor.max_threads
            &&& hints.initial_threads is None ==> 2 * anchor.initial_threads == anchor.max_threads
                || 2 * anchor.initial_threads == anchor.max_threads + 1
            &&& anchor.fixed_threads == hints.fixed_threads
        },
{
}

/// The bound on all workers is the configured one, or else two for each available
/// thread; it is raised to the number of stages where it is lower.
pub proof fn law_worker_cap_is_what_was_asked_for(
    configured: Option<usize>,
    stage_count: usize,
    available: usize,
)
    ensures
        (configured matches Some(cap) && cap >= stage_count) ==> worker_cap(
            configured,
            stage_count,
            available,
        ) == configured->0,
        (configured matches Some(cap) && cap < stage_count) ==> worker_cap(
            configured,
            stage_count,
            available,
        ) == stage_count,
        configured is None && 2 * available <= usize::MAX && 2 * available >= stage_count
            ==> worker_cap(configured, stage_count, available) == 2 * available,
        configured is None && 2 * available <= usize::MAX && 2 * available < stage_count
            ==> worker_cap(configured, stage_count, available) == stage_count,
        configured is None && 2 * available > usize::MAX ==> worker_cap(
            configured,
            stage_count,
            available,
        ) == usize::MAX,
        doubled(available) == if 2 * available <= usize::MAX {
            2 * available
        } else {
            usize::MAX as int
        },
{
}

/// The threads to count on are those that the machine reports, and one where it
/// reports none.
pub proof fn law_machine_has_a_thread(reported: Option<usize>)
    ensures
        usable_threads(reported) >= 1,
        (reported matches Some(threads) && threads >= 1) ==> usable_threads(reported) == reported->0,
        reported is None || reported == Some(0usize) ==> usable_threads(reported) == 1,
{
}

/// A graph that starts has a stage, names only links that it has, has no cycle, has
/// room for a worker where it has no anchor, and no anchor of it has a zero among its
/// thread counts.
pub proof fn law_started_graph_is_right<In, Out, P, E>(
    graph: PipelineGraph<In, Out, P>,
    configured_cap: Option<usize>,
    available: usize,
    plan: StartPlan<P>,
    i: int,
    nodes: Seq<int>,
)
    requires
        call_ensures(
            plan_start::<In, Out, P, E>,
            (graph, configured_cap, available),
            Ok::<StartPlan<P>, PiperError<E>>(plan),
        ),
    ensures
        graph.stages@.len() > 0,
        graph.input_link < graph.link_count,
        graph.output_link < graph.link_count,
        0 <= i < graph.stages@.len() ==> graph.stages@[i].input_link < graph.link_count
            && graph.stages@[i].output_link < graph.link_count,
        (forall|k: int| 0 <= k < graph.stages@.len() ==> (#[trigger] graph.stages@[k]).anchor is None)
            ==> configured_cap != Some(0usize),
        0 <= i < graph.stages@.len() ==> (graph.stages@[i].anchor matches Some(hints) ==> {
            &&& hints.max_threads != Some(0usize)
            &&& hints.initial_threads != Some(0usize)
            &&& hints.fixed_threads != Some(0usize)
            &&& hints.max_threads is None ==> available > 0
        }),
        !(nodes.len() > 1 && nodes[0] == nodes.last() && (forall|k: int|
            0 <= k < nodes.len() ==> 0 <= #[trigger] nodes[k] < graph.stages@.len()) && (forall|
            k: int,
        |
            #![trigger nodes[k]]
            0 <= k < nodes.len() - 1 ==> graph.stages@[nodes[k]].output_link
                == graph.stages@[nodes[k + 1]].input_link)),
{
    let stages = graph.stages@;
    if 0 <= i < stages.len() {
        assert(running(stages[i], available) == plan.stages@[i]);
        assert(plan.stages@[i].input_link < plan.link_count);
        assert(stages[i].anchor is Some ==> anchor_is_valid(stages[i].anchor->0, available));
    }
    if nodes.len() > 1 && nodes[0] == nodes.last() && (forall|k: int|
        0 <= k < nodes.len() ==> 0 <= #[trigger] nodes[k] < stages.len()) && (forall|k: int|
        #![trigger nodes[k]]
        0 <= k < nodes.len() - 1 ==> stages[nodes[k]].output_link
            == stages[nodes[k + 1]].input_link) {
        assert(cycles::is_walk(stages.len(), feeds(stages), nodes));
    }
}

/// What runs is what was declared: each stage under its name and between its links,
/// with what runs it, an anchor exactly where one was asked for, over the same outer
/// links, and under the cap.
pub proof fn law_what_starts_is_what_was_declared<In, Out, P, E>(
    graph: PipelineGraph<In, Out, P>,
    configured_cap: Option<usize>,
    available: usize,
    plan: StartPlan<P>,
    i: int,
)
    requires
        call_ensures(
            plan_start::<In, Out, P, E>,
            (graph, configured_cap, available),
            Ok::<StartPlan<P>, PiperError<E>>(plan),
        ),
        0 <= i < graph.stages@.len() <= usize::MAX,
    ensures
        plan.stages@.len() == graph.stages@.len(),
        plan.payloads@.len() == graph.stages@.len(),
        plan.stages@[i].name == graph.stages@[i].name,
        plan.stages@[i].input_link == graph.stages@[i].input_link,
        plan.stages@[i].output_link == graph.stages@[i].output_link,
        plan.payloads@[i] == graph.stages@[i].payload,
        plan.stages@[i].anchor is Some <==> graph.stages@[i].anchor is Some,
        graph.stages@[i].anchor matches Some(hints) ==> {
            let anchor = plan.stages@[i].anchor->0;
            &&& anchor.fixed_threads == hints.fixed_threads
            &&& hints.max_threads matches Some(bound) ==> anchor.max_threads == bound
            &&& hints.max_threads is None ==> anchor.max_threads == available
            &&& 1 <= anchor.initial_threads <= anchor.max_threads
            &&& (hints.initial_threads matches Some(start) && start <= anchor.max_threads)
                ==> anchor.initial_threads == hints.initial_threads->0
        },
        plan.input_link == graph.input_link,
        plan.output_link == graph.output_link,
        plan.link_count == graph.link_count,
        plan.global_worker_cap >= graph.stages@.len(),
        (configured_cap matches Some(cap) && cap >= graph.stages@.len()) ==> plan.global_worker_cap
            == configured_cap->0,
        configured_cap is None && graph.stages@.len() <= 2 * available <= usize::MAX
            ==> plan.global_worker_cap == 2 * available,
{
    assert(running(graph.stages@[i], available) == plan.stages@[i]);
    assert(graph.stages@[i].anchor is Some ==> anchor_is_valid(
        graph.stages@[i].anchor->0,
        available,
    ));
}

/// A graph is refused only for what is wrong with it.
pub proof fn law_refusal_is_deserved<In, Out, P, E>(
    graph: PipelineGraph<In, Out, P>,
    configured_cap: Option<usize>,
    available: usize,
    error: PiperError<E>,
)
    requires
        call_ensures(
            plan_start::<In, Out, P, E>,
            (graph, configured_cap, available),
            Err::<StartPlan<P>, PiperError<E>>(error),
        ),
    ensures
        error is NoStages || error is InvalidGraph || error is InvalidAnchorThreads,
        error is NoStages <==> graph.stages@.len() == 0,
        error is InvalidAnchorThreads ==> exists|i: int|
            0 <= i < graph.stages@.len() && ((#[trigger] graph.stages@[i]).anchor matches Some(
                hints,
            ) && (hints.max_threads == Some(0usize) || (hints.max_threads is None && available == 0)
                || hints.initial_threads == Some(0usize) || hints.fixed_threads == Some(0usize))),
        error is InvalidGraph ==> {
            ||| graph.input_link >= graph.link_count || graph.output_link >= graph.link_count
            ||| exists|i: int|
                0 <= i < graph.stages@.len() && ((#[trigger] graph.stages@[i]).input_link
                    >= graph.link_count || graph.stages@[i].output_link >= graph.link_count)
            ||| exists|nodes: Seq<int>| #[trigger]
                cycles::is_walk(graph.stages@.len(), feeds(graph.stages@), nodes) && nodes.len() > 1
                    && nodes[0] == nodes.last()
            ||| configured_cap == Some(0usize) && forall|k: int|
                0 <= k < graph.stages@.len() ==> (#[trigger] graph.stages@[k]).anchor is None
        },
{
    lemma_first_lacking(graph.stages@, graph.link_count, 0);
    if start_fault(graph, configured_cap, available)->0 is AnchorThreads {
        assert(!anchors_are_valid(graph.stages@, available));
        let i = choose|i: int|
            0 <= i < graph.stages@.len() && (#[trigger] graph.stages@[i]).anchor is Some
                && !anchor_is_valid(graph.stages@[i].anchor->0, available);
        assert(graph.stages@[i].anchor is Some);
    }
}

proof fn lemma_first_lacking<P>(stages: Seq<GraphStageSpec<P>>, link_count: usize, from: int)
    requires
        0 <= from,
    ensures
        first_lacking(stages, link_count, from) matches Some(i) ==> from <= i < stages.len()
            && lacks_link(stages, link_count, i),
    decreases stages.len() - from,
{
    if from < stages.len() {
        lemma_first_lacking(stages, link_count, from + 1);
    }
}

/// A stage that is placed keeps its name, what runs it and its hints, and reads and
/// writes the links that it was placed between.
pub proof fn law_placed_stage_keeps_its_own<In, Out, P>(
    spec: StageSpec<In, Out, P>,
    input_link: usize,
    output_link: usize,
)
    ensures
        placed(spec, input_link, output_link).name == spec.name,
        placed(spec, input_link, output_link).payload == spec.payload,
        placed(spec, input_link, output_link).anchor == spec.anchor,
        placed(spec, input_link, output_link).input_link == input_link,
        placed(spec, input_link, output_link).output_link == output_link,
{
}

/// Hints that a stage already has are kept, and a stage without any starts with none.
pub proof fn law_hints_are_kept(hints: AnchorHints)
    ensures
        hints_of(Some(hints)) == hints,
        hints_of(None).max_threads is None,
        hints_of(None).initial_threads is None,
        hints_of(None).fixed_threads is None,
{
}

/// The larger of two counts is one of them, and no less than either.
pub proof fn law_larger_of_two(a: usize, b: usize)
    ensures
        larger(a, b) >= a,
        larger(a, b) >= b,
        larger(a, b) == a || larger(a, b) == b,
{
}

/// Counts are settled so: at least one thread is counted on, twice a count stays in
/// range, and the cap is the one asked for or two workers for each thread, and one for
/// each stage at the least.
pub proof fn law_counts_are_settled(
    reported: Option<usize>,
    available: usize,
    configured: Option<usize>,
    stage_count: usize,
    twice: usize,
    cap: usize,
)
    requires
        call_ensures(available_threads, (reported,), available),
        call_ensures(double, (available,), twice),
        call_ensures(resolve_global_worker_cap, (configured, stage_count, available), cap),
    ensures
        reported is Some && reported->0 > 0 ==> available == reported->0,
        !(reported is Some && reported->0 > 0) ==> available == 1,
        2 * available <= usize::MAX ==> twice == 2 * available,
        2 * available > usize::MAX ==> twice == usize::MAX,
        cap >= stage_count,
        configured is Some && configured->0 >= stage_count ==> cap == configured->0,
        configured is None && twice >= stage_count ==> cap == twice,
        cap == stage_count || (configured is Some && cap == configured->0) || (configured is None
            && cap == twice),
{
}

/// A stage has the name and the code that it was made with, and no anchor; an anchor has
/// exactly the hints that were given, the later in place of the earlier; a fixed count
/// sets all three.
pub proof fn law_stage_is_what_it_was_made_of<In, Out, P>(
    name: String,
    payload: P,
    made: StageSpec<In, Out, P>,
    n: usize,
    anchored: StageSpec<In, Out, P>,
    bounded: StageSpec<In, Out, P>,
    started: StageSpec<In, Out, P>,
    fixed: StageSpec<In, Out, P>,
)
    requires
        call_ensures(stage::<In, Out, P>, (name, payload), made),
        call_ensures(anchor::<In, Out, P>, (made,), anchored),
        call_ensures(StageSpec::<In, Out, P>::max_threads, (made, n), bounded),
        call_ensures(StageSpec::<In, Out, P>::initial_threads, (made, n), started),
        call_ensures(StageSpec::<In, Out, P>::fixed_threads, (made, n), fixed),
    ensures
        made.name == name && made.payload == payload && made.anchor is None,
        anchored.name == name && anchored.payload == payload,
        anchored.anchor == Some(
            AnchorHints { max_threads: None, initial_threads: None, fixed_threads: None },
        ),
        bounded.name == name && bounded.payload == payload,
        bounded.anchor == Some(
            AnchorHints { max_threads: Some(n), initial_threads: None, fixed_threads: None },
        ),
        started.name == name && started.payload == payload,
        started.anchor == Some(
            AnchorHints { max_threads: None, initial_threads: Some(n), fixed_threads: None },
        ),
        fixed.name == name && fixed.payload == payload,
        fixed.anchor == Some(
            AnchorHints { max_threads: Some(n), initial_threads: Some(n), fixed_threads: Some(n) },
        ),
{
}

/// A hint that is given to an anchor replaces that hint and keeps the others.
pub proof fn law_hint_replaces_its_own<In, Out, P>(
    spec: StageSpec<In, Out, P>,
    hints: AnchorHints,
    n: usize,
    anchored: StageSpec<In, Out, P>,
    bounded: StageSpec<In, Out, P>,
    started: StageSpec<In, Out, P>,
)
    requires
        spec.anchor == Some(hints),
        call_ensures(anchor::<In, Out, P>, (spec,), anchored),
        call_ensures(StageSpec::<In, Out, P>::max_threads, (spec, n), bounded),
        call_ensures(StageSpec::<In, Out, P>::initial_threads, (spec, n), started),
    ensures
        anchored.anchor == Some(hints),
        bounded.anchor == Some(AnchorHints { max_threads: Some(n), ..hints }),
        started.anchor == Some(AnchorHints { initial_threads: Some(n), ..hints }),
{
}

/// A new graph has the input, numbered zero, and nothing else.
pub proof fn law_graph_begins_with_its_input<In, P>(
    builder: PipelineGraphBuilder<In, P>,
    input: GraphLink<In>,
)
    requires
        call_ensures(PipelineGraphBuilder::<In, P>::new, (), builder),
        call_ensures(PipelineGraphBuilder::<In, P>::input, (&builder,), input),
    ensures
        builder.link_count == 1,
        builder.stages@.len() == 0,
        input.number() == 0,
{
}

/// A link that is handed out has a number that no link had before.
pub proof fn law_new_link_is_new<In, P, T>(
    builder: &mut PipelineGraphBuilder<In, P>,
    link: GraphLink<T>,
)
    requires
        old(builder).link_count < usize::MAX,
        call_ensures(PipelineGraphBuilder::<In, P>::link::<T>, (builder,), link),
    ensures
        link.number() == old(builder).link_count,
        final(builder).link_count == old(builder).link_count + 1,
        final(builder).stages@ == old(builder).stages@,
{
}

/// A stage that is added comes last, keeps its name, its code and its hints, reads the
/// link that it was given and writes a new one, which is returned.
pub proof fn law_added_stage_writes_a_new_link<In, P, T, Out>(
    builder: &mut PipelineGraphBuilder<In, P>,
    input: GraphLink<T>,
    spec: StageSpec<T, Out, P>,
    output: GraphLink<Out>,
)
    requires
        old(builder).link_count < usize::MAX,
        call_ensures(
            PipelineGraphBuilder::<In, P>::add_stage::<T, Out>,
            (builder, input, spec),
            output,
        ),
    ensures
        ({
            let added = final(builder).stages@.last();
            &&& final(builder).stages@.drop_last() == old(builder).stages@
            &&& added.name == spec.name && added.payload == spec.payload && added.anchor
                == spec.anchor
            &&& added.input_link == input.number()
            &&& added.output_link == output.number()
            &&& output.number() == old(builder).link_count
            &&& final(builder).link_count == old(builder).link_count + 1
        }),
{
    assert(final(builder).stages@.drop_last() =~= old(builder).stages@);
}

/// A stage that is added between two links comes last, reads the one and writes the
/// other; no link is made for it.
pub proof fn law_added_stage_joins_two_links<In, P, T, Out>(
    builder: &mut PipelineGraphBuilder<In, P>,
    input: GraphLink<T>,
    spec: StageSpec<T, Out, P>,
    output: GraphLink<Out>,
)
    requires
        call_ensures(
            PipelineGraphBuilder::<In, P>::add_stage_to::<T, Out>,
            (builder, input, spec, output),
            (),
        ),
    ensures
        ({
            let added = final(builder).stages@.last();
            &&& final(builder).stages@.drop_last() == old(builder).stages@
            &&& added.name == spec.name && added.payload == spec.payload && added.anchor
                == spec.anchor
            &&& added.input_link == input.number()
            &&& added.output_link == output.number()
            &&& final(builder).link_count == old(builder).link_count
        }),
{
    assert(final(builder).stages@.drop_last() =~= old(builder).stages@);
}

/// A graph that is closed has the stages as they were added, takes its input from link
/// zero, gives its output from the link that was named, and has that link and all that
/// were handed out.
pub proof fn law_closed_graph_is_what_was_built<In, P, Out>(
    builder: PipelineGraphBuilder<In, P>,
    output: GraphLink<Out>,
    graph: PipelineGraph<In, Out, P>,
    index: usize,
)
    requires
        output.number() < usize::MAX,
        call_ensures(PipelineGraphBuilder::<In, P>::finish::<Out>, (builder, output), graph),
        call_ensures(GraphLink::<Out>::index, (output,), index),
    ensures
        graph.stages@ == builder.stages@,
        graph.input_link == 0,
        graph.output_link == index,
        graph.output_link < graph.link_count,
        output.number() < builder.link_count ==> graph.link_count == builder.link_count,
        output.number() >= builder.link_count ==> graph.link_count == output.number() + 1,
{
}

/// A graph is rejected exactly where some walk along its links comes back to the stage
/// that it began at.
pub proof fn law_graph_with_a_way_back_is_rejected<P, E>(
    stages: Vec<GraphStageSpec<P>>,
    outcome: Result<(), PiperError<E>>,
    nodes: Seq<int>,
)
    requires
        call_ensures(validate_graph_is_acyclic::<P, E>, (&stages,), outcome),
    ensures
        nodes.len() > 1 && nodes[0] == nodes.last() && (forall|k: int|
            0 <= k < nodes.len() ==> 0 <= #[trigger] nodes[k] < stages@.len()) && (forall|k: int|
            #![trigger nodes[k]]
            0 <= k < nodes.len() - 1 ==> stages@[nodes[k]].output_link
                == stages@[nodes[k + 1]].input_link) ==> outcome is Err,
        outcome is Err ==> outcome->Err_0 is InvalidGraph,
        outcome is Err ==> exists|way: Seq<int>| #[trigger]
            cycles::is_walk(stages@.len(), feeds(stages@), way) && way.len() > 1 && way[0]
                == way.last(),
{
    if nodes.len() > 1 && nodes[0] == nodes.last() && (forall|k: int|
        0 <= k < nodes.len() ==> 0 <= #[trigger] nodes[k] < stages@.len()) && (forall|k: int|
        #![trigger nodes[k]]
        0 <= k < nodes.len() - 1 ==> stages@[nodes[k]].output_link
            == stages@[nodes[k + 1]].input_link) {
        assert(cycles::is_walk(stages@.len(), feeds(stages@), nodes));
    }
}

proof fn lemma_first_lacking_is_first<P>(
    stages: Seq<GraphStageSpec<P>>,
    link_count: usize,
    from: int,
    k: int,
)
    requires
        0 <= from <= k < stages.len(),
        lacks_link(stages, link_count, k),
        forall|i: int| from <= i < k ==> !#[trigger] lacks_link(stages, link_count, i),
    ensures
        first_lacking(stages, link_count, from) == Some(k),
    decreases k - from,
{
    if from < k {
        lemma_first_lacking_is_first(stages, link_count, from + 1, k);
    }
}

/// A graph is refused for the first thing that is wrong with it: no stage at all, then an
/// outer link that it does not have, then the first stage with a link that it does not
/// have, then a cycle, then no room for a worker, and last an anchor's counts. The error
/// says which.
pub proof fn law_first_fault_of_a_start_is_told<In, Out, P, E>(
    graph: PipelineGraph<In, Out, P>,
    configured_cap: Option<usize>,
    available: usize,
    outcome: Result<StartPlan<P>, PiperError<E>>,
    k: int,
)
    requires
        call_ensures(
            plan_start::<In, Out, P, E>,
            (graph, configured_cap, available),
            outcome,
        ),
    ensures
        ({
            let stages = graph.stages@;
            let lacks = |i: int|
                stages[i].input_link >= graph.link_count || stages[i].output_link
                    >= graph.link_count;
            let told = |words: Seq<char>|
                outcome is Err && outcome->Err_0 is InvalidGraph
                    && outcome->Err_0->InvalidGraph_message@ == words;
            let outer = graph.input_link < graph.link_count && graph.output_link
                < graph.link_count;
            let inner = forall|i: int|
                0 <= i < stages.len() ==> (#[trigger] stages[i]).input_link < graph.link_count
                    && stages[i].output_link < graph.link_count;
            let cyclic = cycles::is_cyclic(stages.len(), feeds(stages));
            let crowded = configured_cap == Some(0usize) && forall|i: int|
                0 <= i < stages.len() ==> (#[trigger] stages[i]).anchor is None;
            &&& stages.len() == 0 ==> outcome is Err && outcome->Err_0 is NoStages
            &&& stages.len() > 0 && !outer ==> told("input or output link is outside the graph"@)
            &&& outer && 0 <= k < stages.len() && lacks(k) && (forall|i: int|
                0 <= i < k ==> (#[trigger] stages[i]).input_link < graph.link_count
                    && stages[i].output_link < graph.link_count) ==> told(
                "stage `"@ + stages[k].name@ + "` references a missing link"@,
            )
            &&& stages.len() > 0 && outer && inner && cyclic ==> told(
                "graph cycles are not supported"@,
            )
            &&& stages.len() > 0 && outer && inner && !cyclic && crowded ==> told(
                "unanchored graphs require a finite non-zero worker cap"@,
            )
        }),
{
    let stages = graph.stages@;
    lemma_first_lacking(stages, graph.link_count, 0);
    if 0 <= k < stages.len() && (stages[k].input_link >= graph.link_count || stages[k].output_link
        >= graph.link_count) && (forall|i: int|
        0 <= i < k ==> (#[trigger] stages[i]).input_link < graph.link_count
            && stages[i].output_link < graph.link_count) {
        assert forall|i: int| 0 <= i < k implies !#[trigger] lacks_link(
            stages,
            graph.link_count,
            i,
        ) by {
            assert(stages[i].input_link < graph.link_count);
        }
        lemma_first_lacking_is_first(stages, graph.link_count, 0, k);
    }
    if forall|i: int|
        0 <= i < stages.len() ==> (#[trigger] stages[i]).input_link < graph.link_count
            && stages[i].output_link < graph.link_count {
        if let Some(i) = first_lacking(stages, graph.link_count, 0) {
            assert(lacks_link(stages, graph.link_count, i));
            assert(stages[i].input_link < graph.link_count);
        }
    }
    if forall|i: int| 0 <= i < stages.len() ==> (#[trigger] stages[i]).anchor is None {
        assert(!is_anchored(stages));
    }
}

} // verus!

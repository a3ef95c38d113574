//! From the edges of a pipeline declaration to links: which ends share a link,
//! how the links are numbered, and what is wrong with a graph.
use crate::cycles;
use crate::joints::JointSets;
use crate::joints;
use crate::search;
use crate::text;
use vstd::prelude::*;
use vstd::string::*;

verus! {

/// One end of an edge: the pipeline's input or output, or a stage by name.
#[derive(Debug)]
pub enum Endpoint {
    Input,
    Output,
    Stage(String),
}

/// An edge from each of some endpoints to each of some others.
#[derive(Debug)]
pub struct Edge {
    pub from: Vec<Endpoint>,
    pub to: Vec<Endpoint>,
}

/// What is wrong with a declared graph. `edge` is the edge's place in the list,
/// `endpoint` the endpoint's place on its side, `stage` the stage's place.
#[derive(Clone, Copy, Debug, PartialEq, Eq, Structural)]
pub enum GraphFault {
    UnknownSource { edge: usize, endpoint: usize },
    UnknownDestination { edge: usize, endpoint: usize },
    OutputAsSource { edge: usize, endpoint: usize },
    InputAsDestination { edge: usize, endpoint: usize },
    InputUnconnected,
    OutputUnconnected,
    StageWithoutInput { stage: usize },
    StageWithoutOutput { stage: usize },
    Cycle { stage: usize },
}

/// The wording of a fault.
pub open spec fn fault_text(fault: GraphFault) -> Seq<char> {
    match fault {
        GraphFault::UnknownSource { .. } => "unknown graph stage"@,
        GraphFault::UnknownDestination { .. } => "unknown graph stage"@,
        GraphFault::OutputAsSource { .. } => "`output` cannot be used as a graph edge source"@,
        GraphFault::InputAsDestination {
            ..
        } => "`input` cannot be used as a graph edge destination"@,
        GraphFault::InputUnconnected => "graph must connect `input` to at least one stage"@,
        GraphFault::OutputUnconnected => "graph must connect at least one stage to `output`"@,
        GraphFault::StageWithoutInput { .. } => "stage is missing an input graph edge"@,
        GraphFault::StageWithoutOutput { .. } => "stage is missing an output graph edge"@,
        GraphFault::Cycle { .. } => "graph cycles are not supported"@,
    }
}

impl GraphFault {
    pub fn message(self) -> (text: String)
        ensures
            text@ == fault_text(self),
    {
        match self {
            GraphFault::UnknownSource { .. } => "unknown graph stage".to_string(),
            GraphFault::UnknownDestination { .. } => "unknown graph stage".to_string(),
            GraphFault::OutputAsSource { .. } => {
                "`output` cannot be used as a graph edge source".to_string()
            },
            GraphFault::InputAsDestination { .. } => {
                "`input` cannot be used as a graph edge destination".to_string()
            },
            GraphFault::InputUnconnected => {
                "graph must connect `input` to at least one stage".to_string()
            },
            GraphFault::OutputUnconnected => {
                "graph must connect at least one stage to `output`".to_string()
            },
            GraphFault::StageWithoutInput { .. } => {
                "stage is missing an input graph edge".to_string()
            },
            GraphFault::StageWithoutOutput { .. } => {
                "stage is missing an output graph edge".to_string()
            },
            GraphFault::Cycle { .. } => "graph cycles are not supported".to_string(),
        }
    }
}

/// The key of the end where a stage's items come in.
pub open spec fn in_key(name: Seq<char>) -> Seq<char> {
    name + ":in"@
}

/// The key of the end where a stage's items go out.
pub open spec fn out_key(name: Seq<char>) -> Seq<char> {
    name + ":out"@
}

/// The key of an endpoint that an edge starts from.
pub open spec fn source_name(endpoint: Endpoint) -> Seq<char> {
    match endpoint {
        Endpoint::Input => "input:out"@,
        Endpoint::Output => Seq::empty(),
        Endpoint::Stage(name) => out_key(name@),
    }
}

/// The key of an endpoint that an edge leads to.
pub open spec fn dest_name(endpoint: Endpoint) -> Seq<char> {
    match endpoint {
        Endpoint::Input => Seq::empty(),
        Endpoint::Output => "output:in"@,
        Endpoint::Stage(name) => in_key(name@),
    }
}

/// A stage of this name is declared.
pub open spec fn is_declared(names: Seq<String>, name: Seq<char>) -> bool {
    exists|i: int| 0 <= i < names.len() && (#[trigger] names[i])@ == name
}

pub open spec fn source_fault(
    names: Seq<String>,
    endpoint: Endpoint,
    edge: int,
    index: int,
) -> Option<GraphFault> {
    match endpoint {
        Endpoint::Input => None,
        Endpoint::Output => Some(
            GraphFault::OutputAsSource { edge: edge as usize, endpoint: index as usize },
        ),
        Endpoint::Stage(name) => if is_declared(names, name@) {
            None
        } else {
            Some(GraphFault::UnknownSource { edge: edge as usize, endpoint: index as usize })
        },
    }
}

pub open spec fn dest_fault(
    names: Seq<String>,
    endpoint: Endpoint,
    edge: int,
    index: int,
) -> Option<GraphFault> {
    match endpoint {
        Endpoint::Input => Some(
            GraphFault::InputAsDestination { edge: edge as usize, endpoint: index as usize },
        ),
        Endpoint::Output => None,
        Endpoint::Stage(name) => if is_declared(names, name@) {
            None
        } else {
            Some(GraphFault::UnknownDestination { edge: edge as usize, endpoint: index as usize })
        },
    }
}

/// The first fault among the destinations of an edge, from `index` on.
pub open spec fn dests_fault(
    names: Seq<String>,
    to: Seq<Endpoint>,
    edge: int,
    index: int,
) -> Option<GraphFault>
    decreases to.len() - index,
{
    if index >= to.len() {
        None
    } else if dest_fault(names, to[index], edge, index) is Some {
        dest_fault(names, to[index], edge, index)
    } else {
        dests_fault(names, to, edge, index + 1)
    }
}

/// The first fault of an edge, source by source from `index` on: each source is
/// looked at before the destinations.
pub open spec fn edge_fault(
    names: Seq<String>,
    whole: Edge,
    edge: int,
    index: int,
) -> Option<GraphFault>
    decreases whole.from@.len() - index,
{
    if index >= whole.from@.len() {
        None
    } else if source_fault(names, whole.from@[index], edge, index) is Some {
        source_fault(names, whole.from@[index], edge, index)
    } else if dests_fault(names, whole.to@, edge, 0) is Some {
        dests_fault(names, whole.to@, edge, 0)
    } else {
        edge_fault(names, whole, edge, index + 1)
    }
}

/// The first fault among the edges from `edge` on.
pub open spec fn edges_fault(names: Seq<String>, edges: Seq<Edge>, edge: int) -> Option<GraphFault>
    decreases edges.len() - edge,
{
    if edge >= edges.len() {
        None
    } else if edge_fault(names, edges[edge], edge, 0) is Some {
        edge_fault(names, edges[edge], edge, 0)
    } else {
        edges_fault(names, edges, edge + 1)
    }
}

/// Some edge starts from the end with this key.
pub open spec fn is_used_as_source(edges: Seq<Edge>, key: Seq<char>) -> bool {
    exists|e: int, i: int|
        0 <= e < edges.len() && 0 <= i < edges[e].from@.len() && source_name(
            #[trigger] edges[e].from@[i],
        ) == key
}

/// Some edge leads to the end with this key. An edge from nowhere leads nowhere.
pub open spec fn is_used_as_dest(edges: Seq<Edge>, key: Seq<char>) -> bool {
    exists|e: int, j: int|
        0 <= e < edges.len() && edges[e].from@.len() > 0 && 0 <= j < edges[e].to@.len()
            && dest_name(#[trigger] edges[e].to@[j]) == key
}

/// The first stage from `index` on that lacks an edge.
pub open spec fn loose_stage(names: Seq<String>, edges: Seq<Edge>, index: int) -> Option<
    GraphFault,
>
    decreases names.len() - index,
{
    if index >= names.len() {
        None
    } else if !is_used_as_dest(edges, in_key(names[index]@)) {
        Some(GraphFault::StageWithoutInput { stage: index as usize })
    } else if !is_used_as_source(edges, out_key(names[index]@)) {
        Some(GraphFault::StageWithoutOutput { stage: index as usize })
    } else {
        loose_stage(names, edges, index + 1)
    }
}

/// Edge `e` leads from the stage of one name to that of another.
pub open spec fn joins_stages(edge: Edge, a: Seq<char>, b: Seq<char>) -> bool {
    (exists|i: int|
        0 <= i < edge.from@.len() && is_stage(#[trigger] edge.from@[i], a)) && (exists|j: int|
        0 <= j < edge.to@.len() && is_stage(#[trigger] edge.to@[j], b))
}

pub open spec fn is_stage(endpoint: Endpoint, name: Seq<char>) -> bool {
    endpoint matches Endpoint::Stage(own) && own@ == name
}

/// The declared stages that feed one another.
pub open spec fn stage_feeds(names: Seq<String>, edges: Seq<Edge>) -> spec_fn(int, int) -> bool {
    |x: int, y: int|
        exists|e: int|
            0 <= e < edges.len() && #[trigger] joins_stages(edges[e], names[x]@, names[y]@)
}

pub open spec fn cyclic_from(names: Seq<String>, edges: Seq<Edge>) -> spec_fn(int) -> bool {
    |s: int| cycles::reaches_cycle(names.len(), stage_feeds(names, edges), s)
}

/// The first thing wrong with a graph, in the order of the checks.
pub open spec fn graph_fault(names: Seq<String>, edges: Seq<Edge>) -> Option<GraphFault> {
    if edges_fault(names, edges, 0) is Some {
        edges_fault(names, edges, 0)
    } else if !is_used_as_source(edges, "input:out"@) {
        Some(GraphFault::InputUnconnected)
    } else if !is_used_as_dest(edges, "output:in"@) {
        Some(GraphFault::OutputUnconnected)
    } else if loose_stage(names, edges, 0) is Some {
        loose_stage(names, edges, 0)
    } else {
        match search::first_where(cyclic_from(names, edges), 0, names.len() as int) {
            Some(s) => Some(GraphFault::Cycle { stage: s as usize }),
            None => None,
        }
    }
}

/// A graph without stages has an answer only where an edge is at fault, or where
/// the edges use both the input and the output.
pub open spec fn is_expandable(names: Seq<String>, edges: Seq<Edge>) -> bool {
    names.len() > 0 || edges_fault(names, edges, 0) is Some || (is_used_as_source(
        edges,
        "input:out"@,
    ) && is_used_as_dest(edges, "output:in"@))
}

fn declares(names: &Vec<String>, name: &String) -> (yes: bool)
    ensures
        yes == is_declared(names@, name@),
{
    let mut index: usize = 0;
    while index < names.len()
        invariant
            index <= names@.len(),
            forall|i: int| 0 <= i < index ==> (#[trigger] names@[i])@ != name@,
        decreases names@.len() - index,
    {
        if names[index] == *name {
            return true;
        }
        index += 1;
    }
    false
}

/// Checks an endpoint that an edge starts from.
fn check_source(names: &Vec<String>, endpoint: &Endpoint, edge: usize, index: usize) -> (fault:
    Option<GraphFault>)
    ensures
        fault == source_fault(names@, *endpoint, edge as int, index as int),
{
    match endpoint {
        Endpoint::Input => None,
        Endpoint::Output => Some(GraphFault::OutputAsSource { edge, endpoint: index }),
        Endpoint::Stage(name) => if declares(names, name) {
            None
        } else {
            Some(GraphFault::UnknownSource { edge, endpoint: index })
        },
    }
}

/// Checks an endpoint that an edge leads to.
fn check_dest(names: &Vec<String>, endpoint: &Endpoint, edge: usize, index: usize) -> (fault:
    Option<GraphFault>)
    ensures
        fault == dest_fault(names@, *endpoint, edge as int, index as int),
{
    match endpoint {
        Endpoint::Input => Some(GraphFault::InputAsDestination { edge, endpoint: index }),
        Endpoint::Output => None,
        Endpoint::Stage(name) => if declares(names, name) {
            None
        } else {
            Some(GraphFault::UnknownDestination { edge, endpoint: index })
        },
    }
}

fn check_dests(names: &Vec<String>, to: &Vec<Endpoint>, edge: usize) -> (fault: Option<GraphFault>)
    ensures
        fault == dests_fault(names@, to@, edge as int, 0),
{
    let mut index: usize = 0;
    while index < to.len()
        invariant
            index <= to@.len(),
            dests_fault(names@, to@, edge as int, 0) == dests_fault(
                names@,
                to@,
                edge as int,
                index as int,
            ),
        decreases to@.len() - index,
    {
        let fault: Option<GraphFault> = check_dest(names, &to[index], edge, index);
        if fault.is_some() {
            return fault;
        }
        index += 1;
    }
    None
}

fn check_edge(names: &Vec<String>, whole: &Edge, edge: usize) -> (fault: Option<GraphFault>)
    ensures
        fault == edge_fault(names@, *whole, edge as int, 0),
{
    let mut index: usize = 0;
    while index < whole.from.len()
        invariant
            index <= whole.from@.len(),
            edge_fault(names@, *whole, edge as int, 0) == edge_fault(
                names@,
                *whole,
                edge as int,
                index as int,
            ),
        decreases whole.from@.len() - index,
    {
        let fault: Option<GraphFault> = check_source(names, &whole.from[index], edge, index);
        if fault.is_some() {
            return fault;
        }
        let fault: Option<GraphFault> = check_dests(names, &whole.to, edge);
        if fault.is_some() {
            return fault;
        }
        index += 1;
    }
    None
}

fn check_edges(names: &Vec<String>, edges: &Vec<Edge>) -> (fault: Option<GraphFault>)
    ensures
        fault == edges_fault(names@, edges@, 0),
{
    let mut index: usize = 0;
    while index < edges.len()
        invariant
            index <= edges@.len(),
            edges_fault(names@, edges@, 0) == edges_fault(names@, edges@, index as int),
        decreases edges@.len() - index,
    {
        let fault: Option<GraphFault> = check_edge(names, &edges[index], index);
        if fault.is_some() {
            return fault;
        }
        index += 1;
    }
    None
}

/// The key of an endpoint that an edge starts from; empty for the output, from
/// which none does.
pub fn source_key(endpoint: &Endpoint) -> (key: String)
    ensures
        key@ == source_name(*endpoint),
{
    match endpoint {
        Endpoint::Input => "input:out".to_string(),
        Endpoint::Output => String::new(),
        Endpoint::Stage(name) => name.clone().concat(":out"),
    }
}

/// The key of an endpoint that an edge leads to; empty for the input, to which
/// none does.
pub fn dest_key(endpoint: &Endpoint) -> (key: String)
    ensures
        key@ == dest_name(*endpoint),
{
    match endpoint {
        Endpoint::Input => String::new(),
        Endpoint::Output => "output:in".to_string(),
        Endpoint::Stage(name) => name.clone().concat(":in"),
    }
}

fn uses_as_source(edges: &Vec<Edge>, key: &String) -> (yes: bool)
    ensures
        yes == is_used_as_source(edges@, key@),
{
    let mut e: usize = 0;
    while e < edges.len()
        invariant
            e <= edges@.len(),
            forall|x: int, i: int|
                0 <= x < e && 0 <= i < edges@[x].from@.len() ==> source_name(
                    #[trigger] edges@[x].from@[i],
                ) != key@,
        decreases edges@.len() - e,
    {
        let mut index: usize = 0;
        while index < edges[e].from.len()
            invariant
                e < edges@.len(),
                index <= edges@[e as int].from@.len(),
                forall|x: int, i: int|
                    0 <= x < e && 0 <= i < edges@[x].from@.len() ==> source_name(
                        #[trigger] edges@[x].from@[i],
                    ) != key@,
                forall|i: int|
                    0 <= i < index ==> source_name(#[trigger] edges@[e as int].from@[i]) != key@,
            decreases edges@[e as int].from@.len() - index,
        {
            if source_key(&edges[e].from[index]) == *key {
                assert(source_name(edges@[e as int].from@[index as int]) == key@);
                return true;
            }
            index += 1;
        }
        e += 1;
    }
    false
}

fn uses_as_dest(edges: &Vec<Edge>, key: &String) -> (yes: bool)
    ensures
        yes == is_used_as_dest(edges@, key@),
{
    let mut e: usize = 0;
    while e < edges.len()
        invariant
            e <= edges@.len(),
            forall|x: int, j: int|
                0 <= x < e && edges@[x].from@.len() > 0 && 0 <= j < edges@[x].to@.len()
                    ==> dest_name(#[trigger] edges@[x].to@[j]) != key@,
        decreases edges@.len() - e,
    {
        if edges[e].from.len() > 0 {
            let mut index: usize = 0;
            while index < edges[e].to.len()
                invariant
                    e < edges@.len(),
                    edges@[e as int].from@.len() > 0,
                    index <= edges@[e as int].to@.len(),
                    forall|x: int, j: int|
                        0 <= x < e && edges@[x].from@.len() > 0 && 0 <= j < edges@[x].to@.len()
                            ==> dest_name(#[trigger] edges@[x].to@[j]) != key@,
                    forall|j: int|
                        0 <= j < index ==> dest_name(#[trigger] edges@[e as int].to@[j]) != key@,
                decreases edges@[e as int].to@.len() - index,
            {
                if dest_key(&edges[e].to[index]) == *key {
                    assert(dest_name(edges@[e as int].to@[index as int]) == key@);
                    return true;
                }
                index += 1;
            }
        }
        e += 1;
    }
    false
}

fn find_loose_stage(names: &Vec<String>, edges: &Vec<Edge>) -> (fault: Option<GraphFault>)
    ensures
        fault == loose_stage(names@, edges@, 0),
{
    let mut index: usize = 0;
    while index < names.len()
        invariant
            index <= names@.len(),
            loose_stage(names@, edges@, 0) == loose_stage(names@, edges@, index as int),
        decreases names@.len() - index,
    {
        let input: String = names[index].clone().concat(":in");
        if !uses_as_dest(edges, &input) {
            return Some(GraphFault::StageWithoutInput { stage: index });
        }
        let output: String = names[index].clone().concat(":out");
        if !uses_as_source(edges, &output) {
            return Some(GraphFault::StageWithoutOutput { stage: index });
        }
        index += 1;
    }
    None
}

fn holds_stage(endpoints: &Vec<Endpoint>, name: &String) -> (yes: bool)
    ensures
        yes == exists|i: int|
            0 <= i < endpoints@.len() && is_stage(#[trigger] endpoints@[i], name@),
{
    let mut index: usize = 0;
    while index < endpoints.len()
        invariant
            index <= endpoints@.len(),
            forall|i: int| 0 <= i < index ==> !is_stage(#[trigger] endpoints@[i], name@),
        decreases endpoints@.len() - index,
    {
        if let Endpoint::Stage(own) = &endpoints[index] {
            if *own == *name {
                assert(is_stage(endpoints@[index as int], name@));
                return true;
            }
        }
        index += 1;
    }
    false
}

fn feeds_stage(edges: &Vec<Edge>, a: &String, b: &String) -> (yes: bool)
    ensures
        yes == exists|e: int| 0 <= e < edges@.len() && #[trigger] joins_stages(edges@[e], a@, b@),
{
    let mut index: usize = 0;
    while index < edges.len()
        invariant
            index <= edges@.len(),
            forall|e: int| 0 <= e < index ==> !#[trigger] joins_stages(edges@[e], a@, b@),
        decreases edges@.len() - index,
    {
        if holds_stage(&edges[index].from, a) && holds_stage(&edges[index].to, b) {
            assert(joins_stages(edges@[index as int], a@, b@));
            return true;
        }
        index += 1;
    }
    false
}

/// The first stage from which items could come back to a stage that they passed.
fn detect_cycles(names: &Vec<String>, edges: &Vec<Edge>) -> (stage: Option<usize>)
    ensures
        match search::first_where(cyclic_from(names@, edges@), 0, names@.len() as int) {
            Some(s) => stage is Some && stage->0 == s,
            None => stage is None,
        },
{
    let count: usize = names.len();
    let ghost feeds = stage_feeds(names@, edges@);
    let mut adjacency: Vec<Vec<usize>> = Vec::new();
    let mut producer: usize = 0;
    while producer < count
        invariant
            count == names@.len(),
            feeds == stage_feeds(names@, edges@),
            producer <= count,
            adjacency@.len() == producer,
            forall|x: int, k: int|
                0 <= x < producer && 0 <= k < adjacency@[x]@.len() ==> {
                    &&& (#[trigger] adjacency@[x]@[k]) < count
                    &&& feeds(x, adjacency@[x]@[k] as int)
                },
            forall|x: int, y: int|
                0 <= x < producer && 0 <= y < count && #[trigger] feeds(x, y) ==> cycles::listed(
                    adjacency@,
                )(x, y),
        decreases count - producer,
    {
        let mut consumers: Vec<usize> = Vec::new();
        let mut consumer: usize = 0;
        while consumer < count
            invariant
                count == names@.len(),
                feeds == stage_feeds(names@, edges@),
                producer < count,
                consumer <= count,
                forall|k: int|
                    0 <= k < consumers@.len() ==> {
                        &&& (#[trigger] consumers@[k]) < count
                        &&& feeds(producer as int, consumers@[k] as int)
                    },
                forall|y: int|
                    0 <= y < consumer && #[trigger] feeds(producer as int, y) ==> consumers@.contains(
                        y as usize,
                    ),
            decreases count - consumer,
        {
            let ghost earlier = consumers@;
            if feeds_stage(edges, &names[producer], &names[consumer]) {
                consumers.push(consumer);
                assert(consumers@[earlier.len() as int] == consumer);
            }
            proof {
                assert forall|y: int|
                    0 <= y < consumer + 1 && #[trigger] feeds(
                        producer as int,
                        y,
                    ) implies consumers@.contains(y as usize) by {
                    if y < consumer {
                        let k = choose|k: int| 0 <= k < earlier.len() && earlier[k] == y as usize;
                        assert(consumers@[k] == y as usize);
                    }
                }
            }
            consumer += 1;
        }
        let ghost before = adjacency@;
        adjacency.push(consumers);
        proof {
            assert forall|x: int, y: int|
                0 <= x < producer + 1 && 0 <= y < count && #[trigger] feeds(
                    x,
                    y,
                ) implies cycles::listed(adjacency@)(x, y) by {
                if x < producer {
                    assert(cycles::listed(before)(x, y));
                    assert(adjacency@[x] == before[x]);
                } else {
                    let k = choose|k: int|
                        0 <= k < consumers@.len() && consumers@[k] == y as usize;
                    assert(adjacency@[x]@[k] == y);
                }
            }
        }
        producer += 1;
    }
    let stage: Option<usize> = cycles::find_cycle(&adjacency);
    proof {
        let listed = cycles::listed(adjacency@);
        assert forall|a: int, b: int| 0 <= a < count && 0 <= b < count implies (
        #[trigger] listed(a, b)) == feeds(a, b) by {
            if listed(a, b) {
                let k = choose|k: int|
                    0 <= k < adjacency@[a]@.len() && #[trigger] adjacency@[a]@[k] == b;
                assert(feeds(a, adjacency@[a]@[k] as int));
            }
        }
        cycles::lemma_same_edges_same_cycles(count as nat, listed, feeds);
        let p = cyclic_from(names@, edges@);
        search::lemma_first_where_holds(p, 0, count as int);
        cycles::law_cyclic_iff_some_node_reaches_a_cycle(count as nat, feeds);
        if let Some(i) = search::first_where(p, 0, count as int) {
            assert(p(i));
            assert(cycles::reaches_cycle(count as nat, feeds, i));
            assert(cycles::reaches_cycle(count as nat, listed, i));
        }
        if let Some(s) = stage {
            assert(cycles::reaches_cycle(count as nat, listed, s as int));
            assert(cycles::reaches_cycle(count as nat, feeds, s as int));
            assert(p(s as int));
        }
    }
    stage
}

/// A list with a key added, unless it is there.
pub open spec fn with_key(keys: Seq<Seq<char>>, key: Seq<char>) -> Seq<Seq<char>> {
    if keys.contains(key) {
        keys
    } else {
        keys.push(key)
    }
}

/// The keys of all ends: the pipeline's two, and two for each of the first
/// `count` stages.
pub open spec fn end_keys(names: Seq<String>, count: int) -> Seq<Seq<char>>
    decreases count,
{
    if count <= 0 {
        with_key(with_key(Seq::empty(), "input:out"@), "output:in"@)
    } else {
        with_key(
            with_key(end_keys(names, count - 1), in_key(names[count - 1]@)),
            out_key(names[count - 1]@),
        )
    }
}

/// The keys of all ends of a graph.
pub open spec fn all_keys(names: Seq<String>) -> Seq<Seq<char>> {
    end_keys(names, names.len() as int)
}

/// Where a key stands.
pub open spec fn place(keys: Seq<Seq<char>>, key: Seq<char>) -> int {
    choose|i: int| 0 <= i < keys.len() && keys[i] == key
}

/// The ends that a source and its edge's first `count` destinations join.
pub open spec fn source_pairs(
    keys: Seq<Seq<char>>,
    source: Endpoint,
    to: Seq<Endpoint>,
    count: int,
) -> Seq<(int, int)>
    decreases count,
{
    if count <= 0 {
        Seq::empty()
    } else {
        source_pairs(keys, source, to, count - 1).push(
            (place(keys, source_name(source)), place(keys, dest_name(to[count - 1]))),
        )
    }
}

/// The ends that an edge's first `count` sources join with its destinations.
pub open spec fn edge_pairs(keys: Seq<Seq<char>>, edge: Edge, count: int) -> Seq<(int, int)>
    decreases count,
{
    if count <= 0 {
        Seq::empty()
    } else {
        edge_pairs(keys, edge, count - 1) + source_pairs(
            keys,
            edge.from@[count - 1],
            edge.to@,
            edge.to@.len() as int,
        )
    }
}

/// The ends that the first `count` edges join, in order.
pub open spec fn graph_pairs(keys: Seq<Seq<char>>, edges: Seq<Edge>, count: int) -> Seq<(int, int)>
    decreases count,
{
    if count <= 0 {
        Seq::empty()
    } else {
        graph_pairs(keys, edges, count - 1) + edge_pairs(
            keys,
            edges[count - 1],
            edges[count - 1].from@.len() as int,
        )
    }
}

/// The representative of each end once all edges are laid.
pub open spec fn joined_ends(names: Seq<String>, edges: Seq<Edge>) -> Seq<int> {
    let keys = all_keys(names);
    joints::all_merged(
        joints::singles(keys.len()),
        graph_pairs(keys, edges, edges.len() as int),
    )
}

/// The number of the link at the end with this key.
pub open spec fn link_at(names: Seq<String>, edges: Seq<Edge>, key: Seq<char>) -> nat {
    let keys = all_keys(names);
    joints::set_number(keys, joined_ends(names, edges), place(keys, key))
}

/// The links of a graph. `stage_links` holds each stage's input and output link.
#[derive(Debug)]
pub struct NamedPlan {
    pub link_count: usize,
    pub input_link: usize,
    pub output_link: usize,
    pub stage_links: Vec<(usize, usize)>,
}

/// The plan lays the links of the graph.
pub open spec fn is_plan_of(plan: NamedPlan, names: Seq<String>, edges: Seq<Edge>) -> bool {
    &&& plan.link_count == joints::set_count(joined_ends(names, edges))
    &&& plan.input_link == link_at(names, edges, "input:out"@)
    &&& plan.output_link == link_at(names, edges, "output:in"@)
    &&& plan.stage_links@.len() == names.len()
    &&& forall|s: int|
        0 <= s < names.len() ==> {
            &&& (#[trigger] plan.stage_links@[s]).0 == link_at(names, edges, in_key(names[s]@))
            &&& plan.stage_links@[s].1 == link_at(names, edges, out_key(names[s]@))
        }
}

proof fn lemma_end_keys(names: Seq<String>, count: int, s: int)
    requires
        0 <= count <= names.len(),
    ensures
        end_keys(names, count).contains("input:out"@),
        end_keys(names, count).contains("output:in"@),
        0 <= s < count ==> end_keys(names, count).contains(in_key(names[s]@)),
        0 <= s < count ==> end_keys(names, count).contains(out_key(names[s]@)),
    decreases count,
{
    if count == 0 {
        let first = with_key(Seq::empty(), "input:out"@);
        lemma_with_key(Seq::empty(), "input:out"@, "input:out"@);
        lemma_with_key(first, "output:in"@, "input:out"@);
        lemma_with_key(first, "output:in"@, "output:in"@);
    } else {
        lemma_end_keys(names, count - 1, s);
        let before = end_keys(names, count - 1);
        let a = in_key(names[count - 1]@);
        let b = out_key(names[count - 1]@);
        let middle = with_key(before, a);
        lemma_with_key(before, a, "input:out"@);
        lemma_with_key(before, a, "output:in"@);
        lemma_with_key(before, a, a);
        lemma_with_key(middle, b, "input:out"@);
        lemma_with_key(middle, b, "output:in"@);
        lemma_with_key(middle, b, a);
        lemma_with_key(middle, b, b);
        if 0 <= s < count - 1 {
            lemma_with_key(before, a, in_key(names[s]@));
            lemma_with_key(before, a, out_key(names[s]@));
            lemma_with_key(middle, b, in_key(names[s]@));
            lemma_with_key(middle, b, out_key(names[s]@));
        }
    }
}

proof fn lemma_with_key(keys: Seq<Seq<char>>, key: Seq<char>, other: Seq<char>)
    ensures
        with_key(keys, key).contains(key),
        keys.contains(other) ==> with_key(keys, key).contains(other),
{
    let more = with_key(keys, key);
    if !keys.contains(key) {
        assert(more[keys.len() as int] == key);
    }
    if keys.contains(other) {
        let i = choose|i: int| 0 <= i < keys.len() && keys[i] == other;
        assert(more[i] == other);
    }
}

proof fn lemma_declared_keys(names: Seq<String>, name: Seq<char>)
    requires
        is_declared(names, name),
    ensures
        all_keys(names).contains(in_key(name)),
        all_keys(names).contains(out_key(name)),
{
    let s = choose|s: int| 0 <= s < names.len() && (#[trigger] names[s])@ == name;
    lemma_end_keys(names, names.len() as int, s);
}

proof fn lemma_checked_dest(names: Seq<String>, to: Seq<Endpoint>, edge: int, from: int, j: int)
    requires
        dests_fault(names, to, edge, from) is None,
        0 <= from <= j < to.len(),
    ensures
        all_keys(names).contains(dest_name(to[j])),
    decreases j - from,
{
    if from < j {
        lemma_checked_dest(names, to, edge, from + 1, j);
    } else {
        lemma_end_keys(names, names.len() as int, 0);
        if let Endpoint::Stage(name) = to[j] {
            lemma_declared_keys(names, name@);
        }
    }
}

proof fn lemma_checked_edge(names: Seq<String>, whole: Edge, edge: int, from: int, i: int)
    requires
        edge_fault(names, whole, edge, from) is None,
        0 <= from <= i < whole.from@.len(),
    ensures
        all_keys(names).contains(source_name(whole.from@[i])),
        forall|j: int|
            0 <= j < whole.to@.len() ==> all_keys(names).contains(
                dest_name(#[trigger] whole.to@[j]),
            ),
    decreases i - from,
{
    if from < i {
        lemma_checked_edge(names, whole, edge, from + 1, i);
    } else {
        lemma_end_keys(names, names.len() as int, 0);
        if let Endpoint::Stage(name) = whole.from@[i] {
            lemma_declared_keys(names, name@);
        }
        assert forall|j: int| 0 <= j < whole.to@.len() implies all_keys(names).contains(
            dest_name(#[trigger] whole.to@[j]),
        ) by {
            lemma_checked_dest(names, whole.to@, edge, 0, j);
        }
    }
}

proof fn lemma_checked_edges(names: Seq<String>, edges: Seq<Edge>, from: int, e: int)
    requires
        edges_fault(names, edges, from) is None,
        0 <= from <= e < edges.len(),
    ensures
        edge_fault(names, edges[e], e, 0) is None,
    decreases e - from,
{
    if from < e {
        lemma_checked_edges(names, edges, from + 1, e);
    }
}

/// The ends of a graph, all apart.
fn collect_ends(names: &Vec<String>) -> (sets: JointSets)
    ensures
        sets.is_sound(),
        sets.names() == all_keys(names@),
        sets.representatives() == joints::singles(all_keys(names@).len()),
{
    let mut sets: JointSets = JointSets::new();
    assert(sets.names() =~= Seq::empty());
    sets.insert_key("input:out".to_string());
    sets.insert_key("output:in".to_string());
    let mut index: usize = 0;
    while index < names.len()
        invariant
            index <= names@.len(),
            sets.is_sound(),
            sets.names() == end_keys(names@, index as int),
            sets.representatives() == joints::singles(sets.names().len()),
        decreases names@.len() - index,
    {
        sets.insert_key(names[index].clone().concat(":in"));
        sets.insert_key(names[index].clone().concat(":out"));
        index += 1;
    }
    sets
}

/// Where a key stands among the ends.
fn locate(sets: &JointSets, key: &String) -> (index: usize)
    requires
        sets.is_sound(),
        sets.names().contains(key@),
    ensures
        index == place(sets.names(), key@),
        index < sets.names().len(),
{
    proof {
        sets.lemma_names_differ();
    }
    match sets.position(key) {
        Some(index) => {
            proof {
                let other = place(sets.names(), key@);
                assert(0 <= other < sets.names().len() && sets.names()[other] == key@);
                if other < index {
                    assert(sets.names()[other] != sets.names()[index as int]);
                } else if index < other {
                    assert(sets.names()[index as int] != sets.names()[other]);
                }
            }
            index
        },
        None => vstd::pervasive::unreached(),
    }
}

/// Lays one edge.
fn join_edge(sets: &mut JointSets, edge: &Edge, Ghost(pairs): Ghost<Seq<(int, int)>>)
    requires
        old(sets).is_sound(),
        old(sets).representatives() == joints::all_merged(
            joints::singles(old(sets).names().len()),
            pairs,
        ),
        forall|i: int|
            0 <= i < edge.from@.len() ==> old(sets).names().contains(
                source_name(#[trigger] edge.from@[i]),
            ),
        forall|j: int|
            0 <= j < edge.to@.len() && edge.from@.len() > 0 ==> old(sets).names().contains(
                dest_name(#[trigger] edge.to@[j]),
            ),
    ensures
        final(sets).is_sound(),
        final(sets).names() == old(sets).names(),
        final(sets).representatives() == joints::all_merged(
            joints::singles(old(sets).names().len()),
            pairs + edge_pairs(old(sets).names(), *edge, edge.from@.len() as int),
        ),
{
    let ghost keys = sets.names();
    let ghost start = joints::singles(keys.len());
    let mut i: usize = 0;
    assert(pairs + edge_pairs(keys, *edge, 0) =~= pairs);
    while i < edge.from.len()
        invariant
            i <= edge.from@.len(),
            sets.is_sound(),
            sets.names() == keys,
            start == joints::singles(keys.len()),
            sets.representatives() == joints::all_merged(
                start,
                pairs + edge_pairs(keys, *edge, i as int),
            ),
            forall|i: int|
                0 <= i < edge.from@.len() ==> keys.contains(source_name(#[trigger] edge.from@[i])),
            forall|j: int|
                0 <= j < edge.to@.len() && edge.from@.len() > 0 ==> keys.contains(
                    dest_name(#[trigger] edge.to@[j]),
                ),
        decreases edge.from@.len() - i,
    {
        let ghost done = pairs + edge_pairs(keys, *edge, i as int);
        let ghost source = edge.from@[i as int];
        assert(keys.contains(source_name(edge.from@[i as int])));
        let key: String = source_key(&edge.from[i]);
        let left: usize = locate(sets, &key);
        let mut j: usize = 0;
        assert(done + source_pairs(keys, source, edge.to@, 0) =~= done);
        while j < edge.to.len()
            invariant
                i < edge.from@.len(),
                j <= edge.to@.len(),
                sets.is_sound(),
                sets.names() == keys,
                start == joints::singles(keys.len()),
                left == place(keys, source_name(source)),
                left < keys.len(),
                sets.representatives() == joints::all_merged(
                    start,
                    done + source_pairs(keys, source, edge.to@, j as int),
                ),
                forall|j: int|
                    0 <= j < edge.to@.len() && edge.from@.len() > 0 ==> keys.contains(
                        dest_name(#[trigger] edge.to@[j]),
                    ),
            decreases edge.to@.len() - j,
        {
            assert(keys.contains(dest_name(edge.to@[j as int])));
            let key: String = dest_key(&edge.to[j]);
            let right: usize = locate(sets, &key);
            sets.union(left, right);
            proof {
                let so_far = done + source_pairs(keys, source, edge.to@, j as int);
                joints::lemma_one_pair_more(start, so_far, (left as int, right as int));
                assert(done + source_pairs(keys, source, edge.to@, j + 1) =~= so_far.push(
                    (left as int, right as int),
                ));
            }
            j += 1;
        }
        assert(pairs + edge_pairs(keys, *edge, i + 1) =~= done + source_pairs(
            keys,
            source,
            edge.to@,
            edge.to@.len() as int,
        ));
        i += 1;
    }
}

/// Lays all edges of a graph whose endpoints are in order.
fn join_ends(names: &Vec<String>, edges: &Vec<Edge>) -> (sets: JointSets)
    requires
        edges_fault(names@, edges@, 0) is None,
    ensures
        sets.is_sound(),
        sets.names() == all_keys(names@),
        sets.representatives() == joined_ends(names@, edges@),
{
    let mut sets: JointSets = collect_ends(names);
    let ghost keys = all_keys(names@);
    let ghost start = joints::singles(keys.len());
    let mut e: usize = 0;
    while e < edges.len()
        invariant
            e <= edges@.len(),
            edges_fault(names@, edges@, 0) is None,
            keys == all_keys(names@),
            start == joints::singles(keys.len()),
            sets.is_sound(),
            sets.names() == keys,
            sets.representatives() == joints::all_merged(
                start,
                graph_pairs(keys, edges@, e as int),
            ),
        decreases edges@.len() - e,
    {
        proof {
            lemma_checked_edges(names@, edges@, 0, e as int);
            let edge = edges@[e as int];
            assert forall|i: int| 0 <= i < edge.from@.len() implies keys.contains(
                source_name(#[trigger] edge.from@[i]),
            ) by {
                lemma_checked_edge(names@, edge, e as int, 0, i);
            }
            if edge.from@.len() > 0 {
                lemma_checked_edge(names@, edge, e as int, 0, 0);
            }
        }
        join_edge(&mut sets, &edges[e], Ghost(graph_pairs(keys, edges@, e as int)));
        e += 1;
    }
    sets
}

/// The number of the link at the end with a key.
fn number_of(sets: &mut JointSets, key: &String) -> (number: usize)
    requires
        old(sets).is_sound(),
        old(sets).names().contains(key@),
    ensures
        final(sets).is_sound(),
        final(sets).names() == old(sets).names(),
        final(sets).representatives() == old(sets).representatives(),
        number == joints::set_number(
            old(sets).names(),
            old(sets).representatives(),
            place(old(sets).names(), key@),
        ),
        number < joints::set_count(old(sets).representatives()),
{
    let index: usize = locate(sets, key);
    let root: usize = sets.find(index);
    proof {
        sets.lemma_names_differ();
        assert(sets.representatives()[index as int] == root);
    }
    sets.number(root)
}

/// Whether a graph has an answer.
pub fn can_expand(names: &Vec<String>, edges: &Vec<Edge>) -> (yes: bool)
    ensures
        yes == is_expandable(names@, edges@),
{
    names.len() > 0 || check_edges(names, edges).is_some() || (uses_as_source(
        edges,
        &"input:out".to_string(),
    ) && uses_as_dest(edges, &"output:in".to_string()))
}

/// Lays out the links of a graph, or says what is wrong with it. A graph without
/// stages has to connect its input and its output.
pub fn expand_named_graph(names: &Vec<String>, edges: &Vec<Edge>) -> (plan: Result<
    NamedPlan,
    GraphFault,
>)
    requires
        is_expandable(names@, edges@),
    ensures
        match graph_fault(names@, edges@) {
            Some(fault) => plan is Err && plan->Err_0 == fault,
            None => plan is Ok && is_plan_of(plan->Ok_0, names@, edges@),
        },
{
    if let Some(fault) = check_edges(names, edges) {
        return Err(fault);
    }
    if !uses_as_source(edges, &"input:out".to_string()) {
        return Err(GraphFault::InputUnconnected);
    }
    if !uses_as_dest(edges, &"output:in".to_string()) {
        return Err(GraphFault::OutputUnconnected);
    }
    if let Some(fault) = find_loose_stage(names, edges) {
        return Err(fault);
    }
    if let Some(stage) = detect_cycles(names, edges) {
        return Err(GraphFault::Cycle { stage });
    }
    let mut sets: JointSets = join_ends(names, edges);
    proof {
        lemma_end_keys(names@, names@.len() as int, 0);
    }
    let link_count: usize = sets.count();
    let input_link: usize = number_of(&mut sets, &"input:out".to_string());
    let output_link: usize = number_of(&mut sets, &"output:in".to_string());
    let mut stage_links: Vec<(usize, usize)> = Vec::new();
    let mut index: usize = 0;
    while index < names.len()
        invariant
            index <= names@.len(),
            sets.is_sound(),
            sets.names() == all_keys(names@),
            sets.representatives() == joined_ends(names@, edges@),
            stage_links@.len() == index,
            forall|s: int|
                0 <= s < index ==> {
                    &&& (#[trigger] stage_links@[s]).0 == link_at(
                        names@,
                        edges@,
                        in_key(names@[s]@),
                    )
                    &&& stage_links@[s].1 == link_at(names@, edges@, out_key(names@[s]@))
                },
        decreases names@.len() - index,
    {
        proof {
            lemma_end_keys(names@, names@.len() as int, index as int);
        }
        let input: usize = number_of(&mut sets, &names[index].clone().concat(":in"));
        let output: usize = number_of(&mut sets, &names[index].clone().concat(":out"));
        stage_links.push((input, output));
        index += 1;
    }
    Ok(NamedPlan { link_count, input_link, output_link, stage_links })
}

/// The links of a chain of stages: each reads the link that the one before it
/// writes.
pub fn expand_linear_graph(stage_count: usize) -> (stage_links: Vec<(usize, usize)>)
    requires
        stage_count < usize::MAX,
    ensures
        stage_links@ == Seq::new(stage_count as nat, |s: int| (s as usize, (s + 1) as usize)),
{
    let mut stage_links: Vec<(usize, usize)> = Vec::new();
    let mut index: usize = 0;
    while index < stage_count
        invariant
            index <= stage_count < usize::MAX,
            stage_links@.len() == index,
            forall|s: int|
                0 <= s < index ==> #[trigger] stage_links@[s] == (s as usize, (s + 1) as usize),
        decreases stage_count - index,
    {
        stage_links.push((index, index + 1));
        index += 1;
    }
    stage_links
}

/// One call on the builder of a declared pipeline. Stages are told by their place
/// in the declaration, and links by their number.
#[derive(Clone, Copy, Debug, PartialEq, Eq, Structural)]
pub enum BuilderStep {
    /// Takes the link that feeds the pipeline.
    Input { link: usize },
    /// Makes a link.
    Link { link: usize },
    /// Adds a stage that writes to a link of its own, `to`.
    AddStage { stage: usize, from: usize, to: usize },
    /// Adds a stage between two links.
    AddStageTo { stage: usize, from: usize, to: usize },
    /// Closes the graph.
    Finish { link: usize },
}

/// The calls that build a chain: the input, the stages in order, and the end.
pub open spec fn chain_calls(stage_count: usize) -> Seq<BuilderStep> {
    seq![BuilderStep::Input { link: 0 }] + Seq::new(
        stage_count as nat,
        |s: int|
            BuilderStep::AddStage { stage: s as usize, from: s as usize, to: (s + 1) as usize },
    ) + seq![BuilderStep::Finish { link: stage_count }]
}

/// The calls that build a graph: its links by number, then its stages in the order
/// of their declaration, and the end.
pub open spec fn graph_calls(plan: NamedPlan) -> Seq<BuilderStep> {
    Seq::new(
        plan.link_count as nat,
        |l: int|
            if l == plan.input_link {
                BuilderStep::Input { link: l as usize }
            } else {
                BuilderStep::Link { link: l as usize }
            },
    ) + Seq::new(
        plan.stage_links@.len(),
        |s: int|
            BuilderStep::AddStageTo {
                stage: s as usize,
                from: plan.stage_links@[s].0,
                to: plan.stage_links@[s].1,
            },
    ) + seq![BuilderStep::Finish { link: plan.output_link }]
}

/// The calls that build a chain of stages.
pub fn chain_steps(stage_count: usize) -> (steps: Vec<BuilderStep>)
    requires
        stage_count < usize::MAX,
    ensures
        steps@ == chain_calls(stage_count),
{
    let links: Vec<(usize, usize)> = expand_linear_graph(stage_count);
    let mut steps: Vec<BuilderStep> = Vec::new();
    steps.push(BuilderStep::Input { link: 0 });
    let mut index: usize = 0;
    while index < links.len()
        invariant
            index <= links@.len() == stage_count,
            links@ == Seq::new(stage_count as nat, |s: int| (s as usize, (s + 1) as usize)),
            steps@ == chain_calls(stage_count).take(index + 1),
        decreases links@.len() - index,
    {
        steps.push(
            BuilderStep::AddStage { stage: index, from: links[index].0, to: links[index].1 },
        );
        index += 1;
        assert(steps@ =~= chain_calls(stage_count).take(index + 1));
    }
    steps.push(BuilderStep::Finish { link: stage_count });
    assert(steps@ =~= chain_calls(stage_count));
    steps
}

/// The calls that build the graph of a plan.
pub fn graph_steps(plan: &NamedPlan) -> (steps: Vec<BuilderStep>)
    ensures
        steps@ == graph_calls(*plan),
{
    let mut steps: Vec<BuilderStep> = Vec::new();
    let mut link: usize = 0;
    while link < plan.link_count
        invariant
            link <= plan.link_count,
            steps@ == graph_calls(*plan).take(link as int),
        decreases plan.link_count - link,
    {
        if link == plan.input_link {
            steps.push(BuilderStep::Input { link });
        } else {
            steps.push(BuilderStep::Link { link });
        }
        link += 1;
        assert(steps@ =~= graph_calls(*plan).take(link as int));
    }
    let mut stage: usize = 0;
    while stage < plan.stage_links.len()
        invariant
            stage <= plan.stage_links@.len(),
            steps@ == graph_calls(*plan).take(plan.link_count + stage),
        decreases plan.stage_links@.len() - stage,
    {
        let (from, to): (usize, usize) = plan.stage_links[stage];
        steps.push(BuilderStep::AddStageTo { stage, from, to });
        stage += 1;
        assert(steps@ =~= graph_calls(*plan).take(plan.link_count + stage));
    }
    steps.push(BuilderStep::Finish { link: plan.output_link });
    assert(steps@ =~= graph_calls(*plan));
    steps
}

/// The name of a link in the generated code.
pub fn link_name(link: usize) -> (name: String)
    ensures
        name@ == "__piper_link_"@ + text::decimal(link as nat),
{
    let mut name = "__piper_link_".to_string();
    text::push_decimal(&mut name, link as u64);
    name
}

proof fn lemma_pairs_exist(names: Seq<String>, edges: Seq<Edge>)
    requires
        edges_fault(names, edges, 0) is None,
    ensures
        joints::pairs_exist(
            all_keys(names).len(),
            graph_pairs(all_keys(names), edges, edges.len() as int),
        ),
{
    lemma_graph_pairs_exist(names, edges, edges.len() as int);
}

proof fn lemma_place(keys: Seq<Seq<char>>, key: Seq<char>)
    requires
        keys.contains(key),
    ensures
        0 <= place(keys, key) < keys.len(),
        keys[place(keys, key)] == key,
{
    let i = choose|i: int| 0 <= i < keys.len() && keys[i] == key;
    assert(0 <= i < keys.len() && keys[i] == key);
}

proof fn lemma_graph_pairs_exist(names: Seq<String>, edges: Seq<Edge>, count: int)
    requires
        edges_fault(names, edges, 0) is None,
        0 <= count <= edges.len(),
    ensures
        joints::pairs_exist(all_keys(names).len(), graph_pairs(all_keys(names), edges, count)),
    decreases count,
{
    if count > 0 {
        let keys = all_keys(names);
        lemma_graph_pairs_exist(names, edges, count - 1);
        lemma_checked_edges(names, edges, 0, count - 1);
        let edge = edges[count - 1];
        lemma_edge_pairs_exist(names, edge, count - 1, edge.from@.len() as int);
        let before = graph_pairs(keys, edges, count - 1);
        let more = edge_pairs(keys, edge, edge.from@.len() as int);
        lemma_exist_together(keys.len(), before, more);
    }
}

proof fn lemma_exist_together(count: nat, a: Seq<(int, int)>, b: Seq<(int, int)>)
    requires
        joints::pairs_exist(count, a),
        joints::pairs_exist(count, b),
    ensures
        joints::pairs_exist(count, a + b),
{
    assert forall|i: int| 0 <= i < (a + b).len() implies 0 <= (#[trigger] (a + b)[i]).0 < count
        && 0 <= (a + b)[i].1 < count by {
        if i < a.len() {
            assert(0 <= a[i].0 < count);
        } else {
            assert(0 <= b[i - a.len()].0 < count);
        }
    }
}

proof fn lemma_edge_pairs_exist(names: Seq<String>, whole: Edge, edge: int, count: int)
    requires
        edge_fault(names, whole, edge, 0) is None,
        0 <= count <= whole.from@.len(),
    ensures
        joints::pairs_exist(all_keys(names).len(), edge_pairs(all_keys(names), whole, count)),
    decreases count,
{
    if count > 0 {
        let keys = all_keys(names);
        lemma_edge_pairs_exist(names, whole, edge, count - 1);
        lemma_checked_edge(names, whole, edge, 0, count - 1);
        lemma_source_pairs_exist(keys, whole.from@[count - 1], whole.to@, whole.to@.len() as int);
        lemma_exist_together(
            keys.len(),
            edge_pairs(keys, whole, count - 1),
            source_pairs(keys, whole.from@[count - 1], whole.to@, whole.to@.len() as int),
        );
    }
}

proof fn lemma_source_pairs_exist(
    keys: Seq<Seq<char>>,
    source: Endpoint,
    to: Seq<Endpoint>,
    count: int,
)
    requires
        keys.contains(source_name(source)),
        forall|j: int| 0 <= j < to.len() ==> keys.contains(dest_name(#[trigger] to[j])),
        0 <= count <= to.len(),
    ensures
        joints::pairs_exist(keys.len(), source_pairs(keys, source, to, count)),
    decreases count,
{
    if count > 0 {
        lemma_source_pairs_exist(keys, source, to, count - 1);
        lemma_place(keys, source_name(source));
        assert(keys.contains(dest_name(to[count - 1])));
        lemma_place(keys, dest_name(to[count - 1]));
        let before = source_pairs(keys, source, to, count - 1);
        let all = source_pairs(keys, source, to, count);
        assert forall|i: int| 0 <= i < all.len() implies 0 <= (#[trigger] all[i]).0 < keys.len()
            && 0 <= all[i].1 < keys.len() by {
            if i < before.len() {
                assert(0 <= before[i].0 < keys.len());
            }
        }
    }
}

proof fn lemma_keys_differ(names: Seq<String>, count: int)
    ensures
        forall|i: int, j: int|
            0 <= i < j < end_keys(names, count).len() ==> #[trigger] end_keys(names, count)[i]
                != #[trigger] end_keys(names, count)[j],
    decreases count,
{
    if count <= 0 {
        lemma_with_key_differs(Seq::empty(), "input:out"@);
        lemma_with_key_differs(with_key(Seq::empty(), "input:out"@), "output:in"@);
    } else {
        lemma_keys_differ(names, count - 1);
        let before = end_keys(names, count - 1);
        lemma_with_key_differs(before, in_key(names[count - 1]@));
        lemma_with_key_differs(with_key(before, in_key(names[count - 1]@)), out_key(names[count - 1]@));
    }
}

proof fn lemma_with_key_differs(keys: Seq<Seq<char>>, key: Seq<char>)
    requires
        forall|i: int, j: int|
            0 <= i < j < keys.len() ==> #[trigger] keys[i] != #[trigger] keys[j],
    ensures
        forall|i: int, j: int|
            0 <= i < j < with_key(keys, key).len() ==> #[trigger] with_key(keys, key)[i]
                != #[trigger] with_key(keys, key)[j],
{
    let more = with_key(keys, key);
    assert forall|i: int, j: int| 0 <= i < j < more.len() implies #[trigger] more[i]
        != #[trigger] more[j] by {
        if j == keys.len() {
            assert(keys.contains(keys[i]));
        } else {
            assert(keys[i] != keys[j]);
        }
    }
}

/// Two ends share a link exactly where the edges connect them.
pub proof fn law_ends_share_a_link_iff_connected(
    names: Seq<String>,
    edges: Seq<Edge>,
    a: Seq<char>,
    b: Seq<char>,
)
    requires
        edges_fault(names, edges, 0) is None,
        all_keys(names).contains(a),
        all_keys(names).contains(b),
    ensures
        link_at(names, edges, a) == link_at(names, edges, b) <==> joints::are_connected(
            all_keys(names).len(),
            graph_pairs(all_keys(names), edges, edges.len() as int),
            place(all_keys(names), a),
            place(all_keys(names), b),
        ),
{
    let keys = all_keys(names);
    let pairs = graph_pairs(keys, edges, edges.len() as int);
    lemma_pairs_exist(names, edges);
    lemma_place(keys, a);
    lemma_place(keys, b);
    lemma_keys_differ(names, names.len() as int);
    joints::lemma_representatives_stand_for_themselves(keys.len(), pairs);
    joints::law_sets_are_the_connected_parts(keys.len(), pairs, place(keys, a), place(keys, b));
    joints::law_sets_are_numbered_apart(
        keys,
        joined_ends(names, edges),
        place(keys, a),
        place(keys, b),
    );
}

/// Every link of a plan is below the plan's link count.
pub proof fn law_plan_names_its_own_links(names: Seq<String>, edges: Seq<Edge>, plan: NamedPlan)
    requires
        graph_fault(names, edges) is None,
        is_plan_of(plan, names, edges),
    ensures
        plan.input_link < plan.link_count,
        plan.output_link < plan.link_count,
        forall|s: int|
            0 <= s < plan.stage_links@.len() ==> (#[trigger] plan.stage_links@[s]).0
                < plan.link_count && plan.stage_links@[s].1 < plan.link_count,
{
    lemma_end_keys(names, names.len() as int, 0);
    lemma_link_is_counted(names, edges, "input:out"@);
    lemma_link_is_counted(names, edges, "output:in"@);
    assert forall|s: int| 0 <= s < plan.stage_links@.len() implies (
    #[trigger] plan.stage_links@[s]).0 < plan.link_count && plan.stage_links@[s].1
        < plan.link_count by {
        lemma_end_keys(names, names.len() as int, s);
        lemma_link_is_counted(names, edges, in_key(names[s]@));
        lemma_link_is_counted(names, edges, out_key(names[s]@));
    }
}

proof fn lemma_link_is_counted(names: Seq<String>, edges: Seq<Edge>, key: Seq<char>)
    requires
        edges_fault(names, edges, 0) is None,
        all_keys(names).contains(key),
    ensures
        link_at(names, edges, key) < joints::set_count(joined_ends(names, edges)),
{
    let keys = all_keys(names);
    let pairs = graph_pairs(keys, edges, edges.len() as int);
    lemma_pairs_exist(names, edges);
    lemma_place(keys, key);
    lemma_keys_differ(names, names.len() as int);
    joints::lemma_representatives_stand_for_themselves(keys.len(), pairs);
    joints::law_sets_are_numbered_apart(
        keys,
        joined_ends(names, edges),
        place(keys, key),
        place(keys, key),
    );
}

proof fn lemma_source_pair_is_listed(
    keys: Seq<Seq<char>>,
    source: Endpoint,
    to: Seq<Endpoint>,
    count: int,
    j: int,
)
    requires
        0 <= j < count <= to.len(),
    ensures
        source_pairs(keys, source, to, count).contains(
            (place(keys, source_name(source)), place(keys, dest_name(to[j]))),
        ),
    decreases count,
{
    let pair = (place(keys, source_name(source)), place(keys, dest_name(to[j])));
    let all = source_pairs(keys, source, to, count);
    if j < count - 1 {
        lemma_source_pair_is_listed(keys, source, to, count - 1, j);
        let before = source_pairs(keys, source, to, count - 1);
        let k = choose|k: int| 0 <= k < before.len() && before[k] == pair;
        assert(all[k] == pair);
    } else {
        assert(all.last() == pair);
        assert(all[all.len() - 1] == pair);
    }
}

proof fn lemma_edge_pair_is_listed(keys: Seq<Seq<char>>, edge: Edge, count: int, i: int, j: int)
    requires
        0 <= i < count <= edge.from@.len(),
        0 <= j < edge.to@.len(),
    ensures
        edge_pairs(keys, edge, count).contains(
            (place(keys, source_name(edge.from@[i])), place(keys, dest_name(edge.to@[j]))),
        ),
    decreases count,
{
    let pair = (place(keys, source_name(edge.from@[i])), place(keys, dest_name(edge.to@[j])));
    let before = edge_pairs(keys, edge, count - 1);
    let own = source_pairs(keys, edge.from@[count - 1], edge.to@, edge.to@.len() as int);
    if i < count - 1 {
        lemma_edge_pair_is_listed(keys, edge, count - 1, i, j);
        let k = choose|k: int| 0 <= k < before.len() && before[k] == pair;
        assert((before + own)[k] == pair);
    } else {
        lemma_source_pair_is_listed(keys, edge.from@[i], edge.to@, edge.to@.len() as int, j);
        let k = choose|k: int| 0 <= k < own.len() && own[k] == pair;
        assert((before + own)[before.len() + k] == pair);
    }
}

proof fn lemma_graph_pair_is_listed(
    keys: Seq<Seq<char>>,
    edges: Seq<Edge>,
    count: int,
    e: int,
    i: int,
    j: int,
)
    requires
        0 <= e < count <= edges.len(),
        0 <= i < edges[e].from@.len(),
        0 <= j < edges[e].to@.len(),
    ensures
        graph_pairs(keys, edges, count).contains(
            (place(keys, source_name(edges[e].from@[i])), place(keys, dest_name(edges[e].to@[j]))),
        ),
    decreases count,
{
    let pair = (
        place(keys, source_name(edges[e].from@[i])),
        place(keys, dest_name(edges[e].to@[j])),
    );
    let before = graph_pairs(keys, edges, count - 1);
    let own = edge_pairs(keys, edges[count - 1], edges[count - 1].from@.len() as int);
    if e < count - 1 {
        lemma_graph_pair_is_listed(keys, edges, count - 1, e, i, j);
        let k = choose|k: int| 0 <= k < before.len() && before[k] == pair;
        assert((before + own)[k] == pair);
    } else {
        lemma_edge_pair_is_listed(keys, edges[e], edges[e].from@.len() as int, i, j);
        let k = choose|k: int| 0 <= k < own.len() && own[k] == pair;
        assert((before + own)[before.len() + k] == pair);
    }
}

proof fn lemma_source_label(
    keys: Seq<Seq<char>>,
    source: Endpoint,
    to: Seq<Endpoint>,
    count: int,
    label: spec_fn(Seq<char>) -> int,
)
    requires
        0 <= count <= to.len(),
        keys.contains(source_name(source)),
        forall|j: int|
            0 <= j < to.len() ==> keys.contains(dest_name(#[trigger] to[j])) && label(
                source_name(source),
            ) == label(dest_name(to[j])),
    ensures
        forall|k: int|
            0 <= k < source_pairs(keys, source, to, count).len() ==> label(
                keys[(#[trigger] source_pairs(keys, source, to, count)[k]).0],
            ) == label(keys[source_pairs(keys, source, to, count)[k].1]),
    decreases count,
{
    if count > 0 {
        lemma_source_label(keys, source, to, count - 1, label);
        lemma_place(keys, source_name(source));
        assert(keys.contains(dest_name(to[count - 1])));
        lemma_place(keys, dest_name(to[count - 1]));
        let before = source_pairs(keys, source, to, count - 1);
        let all = source_pairs(keys, source, to, count);
        assert forall|k: int| 0 <= k < all.len() implies label(keys[(#[trigger] all[k]).0])
            == label(keys[all[k].1]) by {
            if k < before.len() {
                assert(all[k] == before[k]);
            }
        }
    }
}

proof fn lemma_edge_label(
    names: Seq<String>,
    whole: Edge,
    edge: int,
    count: int,
    label: spec_fn(Seq<char>) -> int,
)
    requires
        edge_fault(names, whole, edge, 0) is None,
        0 <= count <= whole.from@.len(),
        forall|i: int, j: int|
            0 <= i < whole.from@.len() && 0 <= j < whole.to@.len() ==> label(
                source_name(#[trigger] whole.from@[i]),
            ) == label(dest_name(#[trigger] whole.to@[j])),
    ensures
        forall|k: int|
            0 <= k < edge_pairs(all_keys(names), whole, count).len() ==> label(
                all_keys(names)[(#[trigger] edge_pairs(all_keys(names), whole, count)[k]).0],
            ) == label(all_keys(names)[edge_pairs(all_keys(names), whole, count)[k].1]),
    decreases count,
{
    if count > 0 {
        let keys = all_keys(names);
        lemma_edge_label(names, whole, edge, count - 1, label);
        lemma_checked_edge(names, whole, edge, 0, count - 1);
        let source = whole.from@[count - 1];
        assert forall|j: int| 0 <= j < whole.to@.len() implies keys.contains(
            dest_name(#[trigger] whole.to@[j]),
        ) && label(source_name(source)) == label(dest_name(whole.to@[j])) by {
            assert(label(source_name(whole.from@[count - 1])) == label(dest_name(whole.to@[j])));
        }
        lemma_source_label(keys, source, whole.to@, whole.to@.len() as int, label);
        let before = edge_pairs(keys, whole, count - 1);
        let own = source_pairs(keys, source, whole.to@, whole.to@.len() as int);
        let all = edge_pairs(keys, whole, count);
        assert forall|k: int| 0 <= k < all.len() implies label(keys[(#[trigger] all[k]).0])
            == label(keys[all[k].1]) by {
            if k < before.len() {
                assert(all[k] == before[k]);
            } else {
                assert(all[k] == own[k - before.len()]);
            }
        }
    }
}

/// The label agrees on the two ends of every edge, for each source and each
/// destination.
pub open spec fn agrees_on_edges(label: spec_fn(Seq<char>) -> int, edges: Seq<Edge>) -> bool {
    forall|e: int, i: int, j: int|
        0 <= e < edges.len() && 0 <= i < edges[e].from@.len() && 0 <= j < edges[e].to@.len()
            ==> label(source_name(#[trigger] edges[e].from@[i])) == label(
            dest_name(#[trigger] edges[e].to@[j]),
        )
}

proof fn lemma_graph_label(
    names: Seq<String>,
    edges: Seq<Edge>,
    count: int,
    label: spec_fn(Seq<char>) -> int,
)
    requires
        edges_fault(names, edges, 0) is None,
        0 <= count <= edges.len(),
        agrees_on_edges(label, edges),
    ensures
        forall|k: int|
            0 <= k < graph_pairs(all_keys(names), edges, count).len() ==> label(
                all_keys(names)[(#[trigger] graph_pairs(all_keys(names), edges, count)[k]).0],
            ) == label(all_keys(names)[graph_pairs(all_keys(names), edges, count)[k].1]),
    decreases count,
{
    if count > 0 {
        let keys = all_keys(names);
        lemma_graph_label(names, edges, count - 1, label);
        lemma_checked_edges(names, edges, 0, count - 1);
        let edge = edges[count - 1];
        assert forall|i: int, j: int|
            0 <= i < edge.from@.len() && 0 <= j < edge.to@.len() implies label(
            source_name(#[trigger] edge.from@[i]),
        ) == label(dest_name(#[trigger] edge.to@[j])) by {
            assert(label(source_name(edges[count - 1].from@[i])) == label(
                dest_name(edges[count - 1].to@[j]),
            ));
        }
        lemma_edge_label(names, edge, count - 1, edge.from@.len() as int, label);
        let before = graph_pairs(keys, edges, count - 1);
        let own = edge_pairs(keys, edge, edge.from@.len() as int);
        let all = graph_pairs(keys, edges, count);
        assert forall|k: int| 0 <= k < all.len() implies label(keys[(#[trigger] all[k]).0])
            == label(keys[all[k].1]) by {
            if k < before.len() {
                assert(all[k] == before[k]);
            } else {
                assert(all[k] == own[k - before.len()]);
            }
        }
    }
}

/// The link that the items of an edge's source go out on, and the link that its
/// destination reads, are one: for every edge, every source and every destination.
pub proof fn law_edge_is_one_link(
    names: Seq<String>,
    edges: Seq<Edge>,
    e: int,
    i: int,
    j: int,
)
    requires
        edges_fault(names, edges, 0) is None,
        0 <= e < edges.len(),
        0 <= i < edges[e].from@.len(),
        0 <= j < edges[e].to@.len(),
    ensures
        link_at(names, edges, source_name(edges[e].from@[i])) == link_at(
            names,
            edges,
            dest_name(edges[e].to@[j]),
        ),
{
    let keys = all_keys(names);
    let pairs = graph_pairs(keys, edges, edges.len() as int);
    lemma_graph_pair_is_listed(keys, edges, edges.len() as int, e, i, j);
    let pair = (
        place(keys, source_name(edges[e].from@[i])),
        place(keys, dest_name(edges[e].to@[j])),
    );
    let k = choose|k: int| 0 <= k < pairs.len() && pairs[k] == pair;
    lemma_pairs_exist(names, edges);
    joints::law_a_pair_shares_a_set(keys.len(), pairs, k);
}

/// Two ends lie on one link only where the edges tie them together: whatever label
/// agrees on the two ends of every edge agrees on all ends of a link.
pub proof fn law_link_ties_only_what_edges_tie(
    names: Seq<String>,
    edges: Seq<Edge>,
    label: spec_fn(Seq<char>) -> int,
    a: Seq<char>,
    b: Seq<char>,
)
    requires
        edges_fault(names, edges, 0) is None,
        agrees_on_edges(label, edges),
        all_keys(names).contains(a),
        all_keys(names).contains(b),
        link_at(names, edges, a) == link_at(names, edges, b),
    ensures
        label(a) == label(b),
{
    let keys = all_keys(names);
    let pairs = graph_pairs(keys, edges, edges.len() as int);
    let by_place = |k: int| label(keys[k]);
    lemma_graph_label(names, edges, edges.len() as int, label);
    lemma_pairs_exist(names, edges);
    lemma_place(keys, a);
    lemma_place(keys, b);
    lemma_keys_differ(names, names.len() as int);
    joints::lemma_representatives_stand_for_themselves(keys.len(), pairs);
    joints::law_sets_are_numbered_apart(
        keys,
        joined_ends(names, edges),
        place(keys, a),
        place(keys, b),
    );
    assert forall|k: int| 0 <= k < pairs.len() implies by_place((#[trigger] pairs[k]).0) == by_place(
        pairs[k].1,
    ) by {
        assert(label(keys[pairs[k].0]) == label(keys[pairs[k].1]));
    }
    joints::law_a_set_holds_nothing_else(
        keys.len(),
        pairs,
        by_place,
        place(keys, a),
        place(keys, b),
    );
}

/// In a laid-out graph an edge from one stage to another makes the second read
/// what the first writes; an edge from the input feeds its destinations, and an
/// edge to the output takes from its sources. So every branch of a fork gets its
/// items, and every branch of a join delivers them.
pub proof fn law_plan_follows_every_edge(
    names: &Vec<String>,
    edges: &Vec<Edge>,
    plan: NamedPlan,
    e: int,
    i: int,
    j: int,
)
    requires
        call_ensures(expand_named_graph, (names, edges), Ok::<NamedPlan, GraphFault>(plan)),
        0 <= e < edges@.len(),
        0 <= i < edges@[e].from@.len(),
        0 <= j < edges@[e].to@.len(),
    ensures
        forall|x: int, y: int|
            0 <= x < names@.len() && 0 <= y < names@.len() && (edges@[e].from@[i] matches
                Endpoint::Stage(from) && from@ == names@[x]@) && (edges@[e].to@[j] matches
                Endpoint::Stage(to) && to@ == names@[y]@) ==> (#[trigger] plan.stage_links@[x]).1
                == (#[trigger] plan.stage_links@[y]).0,
        forall|y: int|
            0 <= y < names@.len() && edges@[e].from@[i] is Input && (edges@[e].to@[j] matches
                Endpoint::Stage(to) && to@ == names@[y]@) ==> plan.input_link == (
            #[trigger] plan.stage_links@[y]).0,
        forall|x: int|
            0 <= x < names@.len() && (edges@[e].from@[i] matches Endpoint::Stage(from) && from@
                == names@[x]@) && edges@[e].to@[j] is Output ==> (#[trigger] plan.stage_links@[x]).1
                == plan.output_link,
        edges@[e].from@[i] is Input && edges@[e].to@[j] is Output ==> plan.input_link
            == plan.output_link,
        !(edges@[e].from@[i] is Output),
        !(edges@[e].to@[j] is Input),
{
    law_edge_is_one_link(names@, edges@, e, i, j);
    lemma_checked_edges(names@, edges@, 0, e);
    lemma_source_is_right(names@, edges@[e], e, 0, i);
    lemma_dest_is_right(names@, edges@[e], e, j);
}

proof fn lemma_source_is_right(names: Seq<String>, whole: Edge, edge: int, from: int, i: int)
    requires
        edge_fault(names, whole, edge, from) is None,
        0 <= from <= i < whole.from@.len(),
    ensures
        source_fault(names, whole.from@[i], edge, i) is None,
        dests_fault(names, whole.to@, edge, 0) is None,
    decreases i - from,
{
    if from < i {
        lemma_source_is_right(names, whole, edge, from + 1, i);
    }
}

proof fn lemma_dest_is_right(names: Seq<String>, whole: Edge, edge: int, j: int)
    requires
        edge_fault(names, whole, edge, 0) is None,
        whole.from@.len() > 0,
        0 <= j < whole.to@.len(),
    ensures
        dest_fault(names, whole.to@[j], edge, j) is None,
{
    lemma_source_is_right(names, whole, edge, 0, 0);
    lemma_dests_are_right(names, whole.to@, edge, 0, j);
}

proof fn lemma_dests_are_right(names: Seq<String>, to: Seq<Endpoint>, edge: int, from: int, j: int)
    requires
        dests_fault(names, to, edge, from) is None,
        0 <= from <= j < to.len(),
    ensures
        dest_fault(names, to[j], edge, j) is None,
    decreases j - from,
{
    if from < j {
        lemma_dests_are_right(names, to, edge, from + 1, j);
    }
}

/// The links of a laid-out graph tie no more together than its edges do.
pub proof fn law_plan_ties_only_what_edges_tie(
    names: &Vec<String>,
    edges: &Vec<Edge>,
    plan: NamedPlan,
    label: spec_fn(Seq<char>) -> int,
    x: int,
    y: int,
)
    requires
        call_ensures(expand_named_graph, (names, edges), Ok::<NamedPlan, GraphFault>(plan)),
        agrees_on_edges(label, edges@),
        0 <= x < names@.len(),
        0 <= y < names@.len(),
    ensures
        plan.stage_links@[x].0 == plan.stage_links@[y].0 ==> label(names@[x]@ + ":in"@) == label(
            names@[y]@ + ":in"@,
        ),
        plan.stage_links@[x].1 == plan.stage_links@[y].1 ==> label(names@[x]@ + ":out"@) == label(
            names@[y]@ + ":out"@,
        ),
        plan.stage_links@[x].1 == plan.stage_links@[y].0 ==> label(names@[x]@ + ":out"@) == label(
            names@[y]@ + ":in"@,
        ),
        plan.input_link == plan.stage_links@[y].0 ==> label("input:out"@) == label(
            names@[y]@ + ":in"@,
        ),
        plan.input_link == plan.stage_links@[y].1 ==> label("input:out"@) == label(
            names@[y]@ + ":out"@,
        ),
        plan.output_link == plan.stage_links@[x].1 ==> label("output:in"@) == label(
            names@[x]@ + ":out"@,
        ),
        plan.output_link == plan.stage_links@[x].0 ==> label("output:in"@) == label(
            names@[x]@ + ":in"@,
        ),
{
    let n = names@.len() as int;
    lemma_end_keys(names@, n, x);
    lemma_end_keys(names@, n, y);
    let (xi, xo) = (names@[x]@ + ":in"@, names@[x]@ + ":out"@);
    let (yi, yo) = (names@[y]@ + ":in"@, names@[y]@ + ":out"@);
    assert(in_key(names@[x]@) == xi && out_key(names@[x]@) == xo);
    assert(in_key(names@[y]@) == yi && out_key(names@[y]@) == yo);
    let (input, output) = ("input:out"@, "output:in"@);
    if plan.stage_links@[x].0 == plan.stage_links@[y].0 {
        law_link_ties_only_what_edges_tie(names@, edges@, label, xi, yi);
    }
    if plan.stage_links@[x].1 == plan.stage_links@[y].1 {
        law_link_ties_only_what_edges_tie(names@, edges@, label, xo, yo);
    }
    if plan.stage_links@[x].1 == plan.stage_links@[y].0 {
        law_link_ties_only_what_edges_tie(names@, edges@, label, xo, yi);
    }
    if plan.input_link == plan.stage_links@[y].0 {
        law_link_ties_only_what_edges_tie(names@, edges@, label, input, yi);
    }
    if plan.input_link == plan.stage_links@[y].1 {
        law_link_ties_only_what_edges_tie(names@, edges@, label, input, yo);
    }
    if plan.output_link == plan.stage_links@[x].1 {
        law_link_ties_only_what_edges_tie(names@, edges@, label, output, xo);
    }
    if plan.output_link == plan.stage_links@[x].0 {
        law_link_ties_only_what_edges_tie(names@, edges@, label, output, xi);
    }
}

/// Every stage of a laid-out graph reads the pipeline's input or what another
/// stage writes, and its own items are read by a stage or leave the pipeline.
pub proof fn law_every_stage_is_fed_and_heard(
    names: &Vec<String>,
    edges: &Vec<Edge>,
    plan: NamedPlan,
    s: int,
)
    requires
        call_ensures(expand_named_graph, (names, edges), Ok::<NamedPlan, GraphFault>(plan)),
        0 <= s < names@.len(),
    ensures
        plan.stage_links@[s].0 == plan.input_link || exists|x: int|
            0 <= x < names@.len() && (#[trigger] plan.stage_links@[x]).1 == plan.stage_links@[s].0,
        exists|e: int, i: int|
            0 <= e < edges@.len() && 0 <= i < edges@[e].from@.len() && source_name(
                #[trigger] edges@[e].from@[i],
            ) == names@[s]@ + ":out"@,
{
    lemma_no_loose_stage(names@, edges@, 0, s);
    let (e, j) = choose|e: int, j: int|
        0 <= e < edges@.len() && edges@[e].from@.len() > 0 && 0 <= j < edges@[e].to@.len()
            && dest_name(#[trigger] edges@[e].to@[j]) == in_key(names@[s]@);
    law_edge_is_one_link(names@, edges@, e, 0, j);
    lemma_checked_edges(names@, edges@, 0, e);
    lemma_source_is_right(names@, edges@[e], e, 0, 0);
    match edges@[e].from@[0] {
        Endpoint::Stage(name) => {
            let x = choose|x: int| 0 <= x < names@.len() && (#[trigger] names@[x])@ == name@;
            assert(plan.stage_links@[x].1 == plan.stage_links@[s].0);
        },
        _ => {},
    }
}

proof fn lemma_no_loose_stage(names: Seq<String>, edges: Seq<Edge>, from: int, s: int)
    requires
        loose_stage(names, edges, from) is None,
        0 <= from <= s < names.len(),
    ensures
        is_used_as_dest(edges, in_key(names[s]@)),
        is_used_as_source(edges, out_key(names[s]@)),
    decreases s - from,
{
    if from < s {
        lemma_no_loose_stage(names, edges, from + 1, s);
    }
}

/// A laid-out graph has no link without an end, and no end without a link: the
/// links are numbered from zero, without a gap.
pub proof fn law_plan_has_no_spare_link(
    names: &Vec<String>,
    edges: &Vec<Edge>,
    plan: NamedPlan,
    link: usize,
)
    requires
        call_ensures(expand_named_graph, (names, edges), Ok::<NamedPlan, GraphFault>(plan)),
        link < plan.link_count,
    ensures
        link == plan.input_link || link == plan.output_link || exists|s: int|
            0 <= s < names@.len() && ((#[trigger] plan.stage_links@[s]).0 == link
                || plan.stage_links@[s].1 == link),
        plan.input_link < plan.link_count,
        plan.output_link < plan.link_count,
        forall|s: int|
            0 <= s < names@.len() ==> (#[trigger] plan.stage_links@[s]).0 < plan.link_count
                && plan.stage_links@[s].1 < plan.link_count,
{
    let keys = all_keys(names@);
    let reps = joined_ends(names@, edges@);
    let pairs = graph_pairs(keys, edges@, edges@.len() as int);
    law_plan_names_its_own_links(names@, edges@, plan);
    lemma_pairs_exist(names@, edges@);
    lemma_keys_differ(names@, names@.len() as int);
    joints::lemma_representatives_stand_for_themselves(keys.len(), pairs);
    let root = joints::law_every_number_is_taken(keys, reps, link as nat);
    lemma_end_is_one_of(names@, names@.len() as int, root);
    lemma_end_keys(names@, names@.len() as int, 0);
    assert(keys.contains(keys[root]));
    lemma_place(keys, keys[root]);
    let other = place(keys, keys[root]);
    if other < root {
        assert(keys[other] != keys[root]);
    } else if root < other {
        assert(keys[root] != keys[other]);
    }
    assert(link == link_at(names@, edges@, keys[root]));
    if keys[root] != "input:out"@ && keys[root] != "output:in"@ {
        let s = choose|s: int|
            0 <= s < names@.len() && (keys[root] == in_key((#[trigger] names@[s])@) || keys[root]
                == out_key(names@[s]@));
        assert(plan.stage_links@[s].0 == link || plan.stage_links@[s].1 == link);
    }
}

proof fn lemma_end_is_one_of(names: Seq<String>, count: int, k: int)
    requires
        0 <= count <= names.len(),
        0 <= k < end_keys(names, count).len(),
    ensures
        ({
            let key = end_keys(names, count)[k];
            key == "input:out"@ || key == "output:in"@ || exists|s: int|
                0 <= s < count && (key == in_key((#[trigger] names[s])@) || key == out_key(
                    names[s]@,
                ))
        }),
    decreases count,
{
    if count > 0 {
        let before = end_keys(names, count - 1);
        if k < before.len() {
            lemma_end_is_one_of(names, count - 1, k);
            assert(end_keys(names, count)[k] == before[k]);
        } else {
            assert(end_keys(names, count)[k] == in_key(names[count - 1]@) || end_keys(
                names,
                count,
            )[k] == out_key(names[count - 1]@));
        }
    }
}

/// A graph that is laid out has no fault: every source is the input or a declared
/// stage, every destination the output or a declared stage, the input and the
/// output are connected, and so is every stage on both sides.
pub proof fn law_laid_out_graph_is_right(
    names: &Vec<String>,
    edges: &Vec<Edge>,
    plan: NamedPlan,
    e: int,
    i: int,
    j: int,
    s: int,
)
    requires
        call_ensures(expand_named_graph, (names, edges), Ok::<NamedPlan, GraphFault>(plan)),
    ensures
        0 <= e < edges@.len() && 0 <= i < edges@[e].from@.len() ==> match edges@[e].from@[i] {
            Endpoint::Input => true,
            Endpoint::Output => false,
            Endpoint::Stage(name) => exists|x: int|
                0 <= x < names@.len() && (#[trigger] names@[x])@ == name@,
        },
        0 <= e < edges@.len() && edges@[e].from@.len() > 0 && 0 <= j < edges@[e].to@.len()
            ==> match edges@[e].to@[j] {
            Endpoint::Input => false,
            Endpoint::Output => true,
            Endpoint::Stage(name) => exists|x: int|
                0 <= x < names@.len() && (#[trigger] names@[x])@ == name@,
        },
        exists|e: int, i: int|
            0 <= e < edges@.len() && 0 <= i < edges@[e].from@.len() && source_name(
                #[trigger] edges@[e].from@[i],
            ) == "input:out"@,
        exists|e: int, j: int|
            0 <= e < edges@.len() && edges@[e].from@.len() > 0 && 0 <= j < edges@[e].to@.len()
                && dest_name(#[trigger] edges@[e].to@[j]) == "output:in"@,
        0 <= s < names@.len() ==> (exists|e: int, j: int|
            0 <= e < edges@.len() && edges@[e].from@.len() > 0 && 0 <= j < edges@[e].to@.len()
                && dest_name(#[trigger] edges@[e].to@[j]) == names@[s]@ + ":in"@),
        0 <= s < names@.len() ==> (exists|e: int, i: int|
            0 <= e < edges@.len() && 0 <= i < edges@[e].from@.len() && source_name(
                #[trigger] edges@[e].from@[i],
            ) == names@[s]@ + ":out"@),
{
    if 0 <= e < edges@.len() {
        lemma_checked_edges(names@, edges@, 0, e);
        if 0 <= i < edges@[e].from@.len() {
            lemma_source_is_right(names@, edges@[e], e, 0, i);
        }
        if edges@[e].from@.len() > 0 && 0 <= j < edges@[e].to@.len() {
            lemma_dest_is_right(names@, edges@[e], e, j);
        }
    }
    if 0 <= s < names@.len() {
        lemma_no_loose_stage(names@, edges@, 0, s);
    }
}

/// No item of a laid-out graph comes back to a stage that it passed: following
/// edges from stage to stage never ends where it began.
pub proof fn law_laid_out_graph_has_no_cycle(
    names: &Vec<String>,
    edges: &Vec<Edge>,
    plan: NamedPlan,
    nodes: Seq<int>,
)
    requires
        call_ensures(expand_named_graph, (names, edges), Ok::<NamedPlan, GraphFault>(plan)),
        nodes.len() > 1,
        forall|k: int| 0 <= k < nodes.len() ==> 0 <= #[trigger] nodes[k] < names@.len(),
        forall|k: int|
            #![trigger nodes[k]]
            0 <= k < nodes.len() - 1 ==> exists|e: int, i: int, j: int|
                0 <= e < edges@.len() && 0 <= i < edges@[e].from@.len() && 0 <= j
                    < edges@[e].to@.len() && (#[trigger] edges@[e].from@[i] matches Endpoint::Stage(
                    a,
                ) && a@ == names@[nodes[k]]@) && (#[trigger] edges@[e].to@[j] matches
                    Endpoint::Stage(b) && b@ == names@[nodes[k + 1]]@),
    ensures
        nodes[0] != nodes.last(),
{
    let feeds = stage_feeds(names@, edges@);
    let count = names@.len();
    assert forall|k: int| #![trigger nodes[k]] 0 <= k < nodes.len() - 1 implies feeds(
        nodes[k],
        nodes[k + 1],
    ) by {
        let (e, i, j) = choose|e: int, i: int, j: int|
            0 <= e < edges@.len() && 0 <= i < edges@[e].from@.len() && 0 <= j < edges@[e].to@.len()
                && (#[trigger] edges@[e].from@[i] matches Endpoint::Stage(a) && a@
                == names@[nodes[k]]@) && (#[trigger] edges@[e].to@[j] matches Endpoint::Stage(b)
                && b@ == names@[nodes[k + 1]]@);
        assert(is_stage(edges@[e].from@[i], names@[nodes[k]]@));
        assert(is_stage(edges@[e].to@[j], names@[nodes[k + 1]]@));
        assert(joins_stages(edges@[e], names@[nodes[k]]@, names@[nodes[k + 1]]@));
    }
    if nodes[0] == nodes.last() {
        assert(cycles::is_walk(count, feeds, nodes));
        assert(nodes[0] == nodes[nodes.len() - 1]);
        assert(cycles::repeats(nodes));
        assert(cycles::reaches_cycle(count, feeds, nodes[0]));
        search::lemma_first_where_holds(cyclic_from(names@, edges@), 0, count as int);
        assert(cyclic_from(names@, edges@)(nodes[0]));
    }
}

/// A fault that is told of a graph is there, at the place that it names.
pub proof fn law_told_fault_is_there(names: &Vec<String>, edges: &Vec<Edge>, fault: GraphFault)
    requires
        call_ensures(expand_named_graph, (names, edges), Err::<NamedPlan, GraphFault>(fault)),
        names@.len() <= usize::MAX,
        edges@.len() <= usize::MAX,
    ensures
        match fault {
            GraphFault::UnknownSource { edge, endpoint } => {
                &&& edge < edges@.len() && endpoint < edges@[edge as int].from@.len()
                &&& edges@[edge as int].from@[endpoint as int] matches Endpoint::Stage(name)
                    && forall|x: int|
                    0 <= x < names@.len() ==> (#[trigger] names@[x])@ != name@
            },
            GraphFault::UnknownDestination { edge, endpoint } => {
                &&& edge < edges@.len() && endpoint < edges@[edge as int].to@.len()
                &&& edges@[edge as int].to@[endpoint as int] matches Endpoint::Stage(name)
                    && forall|x: int|
                    0 <= x < names@.len() ==> (#[trigger] names@[x])@ != name@
            },
            GraphFault::OutputAsSource { edge, endpoint } => {
                &&& edge < edges@.len() && endpoint < edges@[edge as int].from@.len()
                &&& edges@[edge as int].from@[endpoint as int] is Output
            },
            GraphFault::InputAsDestination { edge, endpoint } => {
                &&& edge < edges@.len() && endpoint < edges@[edge as int].to@.len()
                &&& edges@[edge as int].to@[endpoint as int] is Input
            },
            GraphFault::InputUnconnected => forall|e: int, i: int|
                0 <= e < edges@.len() && 0 <= i < edges@[e].from@.len() ==> source_name(
                    #[trigger] edges@[e].from@[i],
                ) != "input:out"@,
            GraphFault::OutputUnconnected => forall|e: int, j: int|
                0 <= e < edges@.len() && edges@[e].from@.len() > 0 && 0 <= j < edges@[e].to@.len()
                    ==> dest_name(#[trigger] edges@[e].to@[j]) != "output:in"@,
            GraphFault::StageWithoutInput { stage } => stage < names@.len() && forall|e: int, j: int|
                0 <= e < edges@.len() && edges@[e].from@.len() > 0 && 0 <= j < edges@[e].to@.len()
                    ==> dest_name(#[trigger] edges@[e].to@[j]) != names@[stage as int]@ + ":in"@,
            GraphFault::StageWithoutOutput { stage } => stage < names@.len() && forall|
                e: int,
                i: int,
            |
                0 <= e < edges@.len() && 0 <= i < edges@[e].from@.len() ==> source_name(
                    #[trigger] edges@[e].from@[i],
                ) != names@[stage as int]@ + ":out"@,
            GraphFault::Cycle { stage } => stage < names@.len() && exists|nodes: Seq<int>|
                {
                    &&& nodes.len() > 1 && #[trigger] nodes[0] == stage
                    &&& forall|k: int|
                        #![trigger nodes[k]]
                        0 <= k < nodes.len() - 1 ==> stage_feeds(names@, edges@)(
                            nodes[k],
                            nodes[k + 1],
                        )
                    &&& exists|a: int, b: int| 0 <= a < b < nodes.len() && nodes[a] == nodes[b]
                },
        },
{
    lemma_edges_fault_is_there(names@, edges@, 0);
    lemma_loose_stage_is_there(names@, edges@, 0);
    if let GraphFault::Cycle { stage } = fault {
        let p = cyclic_from(names@, edges@);
        search::lemma_first_where_holds(p, 0, names@.len() as int);
        if edges_fault(names@, edges@, 0) is None && loose_stage(names@, edges@, 0) is None {
            assert(p(stage as int));
            let nodes = choose|nodes: Seq<int>| #[trigger]
                cycles::is_walk(names@.len(), stage_feeds(names@, edges@), nodes) && nodes[0]
                    == stage && cycles::repeats(nodes);
            let (a, b) = choose|a: int, b: int| 0 <= a < b < nodes.len() && nodes[a] == nodes[b];
            assert(nodes[0] == stage);
        }
    }
}

proof fn lemma_edges_fault_is_there(names: Seq<String>, edges: Seq<Edge>, from: int)
    requires
        0 <= from,
        edges.len() <= usize::MAX,
    ensures
        edges_fault(names, edges, from) matches Some(fault) ==> is_edge_fault(names, edges, fault),
    decreases edges.len() - from,
{
    if from < edges.len() {
        lemma_edge_fault_is_there(names, edges, from, 0);
        if edge_fault(names, edges[from], from, 0) is None {
            lemma_edges_fault_is_there(names, edges, from + 1);
        }
    }
}

spec fn is_edge_fault(names: Seq<String>, edges: Seq<Edge>, fault: GraphFault) -> bool {
    match fault {
        GraphFault::UnknownSource { edge, endpoint } => {
            &&& edge < edges.len() && endpoint < edges[edge as int].from@.len()
            &&& edges[edge as int].from@[endpoint as int] matches Endpoint::Stage(name)
                && !is_declared(names, name@)
        },
        GraphFault::UnknownDestination { edge, endpoint } => {
            &&& edge < edges.len() && endpoint < edges[edge as int].to@.len()
            &&& edges[edge as int].to@[endpoint as int] matches Endpoint::Stage(name)
                && !is_declared(names, name@)
        },
        GraphFault::OutputAsSource { edge, endpoint } => {
            &&& edge < edges.len() && endpoint < edges[edge as int].from@.len()
            &&& edges[edge as int].from@[endpoint as int] is Output
        },
        GraphFault::InputAsDestination { edge, endpoint } => {
            &&& edge < edges.len() && endpoint < edges[edge as int].to@.len()
            &&& edges[edge as int].to@[endpoint as int] is Input
        },
        _ => false,
    }
}

proof fn lemma_edge_fault_is_there(names: Seq<String>, edges: Seq<Edge>, e: int, from: int)
    requires
        0 <= e < edges.len() <= usize::MAX,
        0 <= from,
    ensures
        edge_fault(names, edges[e], e, from) matches Some(fault) ==> is_edge_fault(
            names,
            edges,
            fault,
        ),
    decreases edges[e].from@.len() - from,
{
    let whole = edges[e];
    assert(whole.from.len() <= usize::MAX);
    assert(whole.to.len() <= usize::MAX);
    if from < whole.from@.len() {
        lemma_dests_fault_is_there(names, edges, e, 0);
        lemma_edge_fault_is_there(names, edges, e, from + 1);
    }
}

proof fn lemma_dests_fault_is_there(names: Seq<String>, edges: Seq<Edge>, e: int, from: int)
    requires
        0 <= e < edges.len() <= usize::MAX,
        0 <= from,
    ensures
        dests_fault(names, edges[e].to@, e, from) matches Some(fault) ==> is_edge_fault(
            names,
            edges,
            fault,
        ),
    decreases edges[e].to@.len() - from,
{
    assert(edges[e].to.len() <= usize::MAX);
    if from < edges[e].to@.len() {
        lemma_dests_fault_is_there(names, edges, e, from + 1);
    }
}

proof fn lemma_loose_stage_is_there(names: Seq<String>, edges: Seq<Edge>, from: int)
    requires
        0 <= from,
        names.len() <= usize::MAX,
    ensures
        loose_stage(names, edges, from) matches Some(fault) ==> match fault {
            GraphFault::StageWithoutInput { stage } => stage < names.len() && !is_used_as_dest(
                edges,
                in_key(names[stage as int]@),
            ),
            GraphFault::StageWithoutOutput { stage } => stage < names.len() && !is_used_as_source(
                edges,
                out_key(names[stage as int]@),
            ),
            _ => false,
        },
    decreases names.len() - from,
{
    if from < names.len() {
        lemma_loose_stage_is_there(names, edges, from + 1);
    }
}

/// A chain of stages: the first reads the pipeline's input, each other the link
/// that the one before it writes, and each writes a link of its own.
pub proof fn law_chain_hands_items_on(stage_count: usize, stage_links: Vec<(usize, usize)>, s: int)
    requires
        call_ensures(expand_linear_graph, (stage_count,), stage_links),
        0 <= s < stage_count < usize::MAX,
    ensures
        stage_links@.len() == stage_count,
        s == 0 ==> stage_links@[s].0 == 0,
        s > 0 ==> stage_links@[s].0 == stage_links@[s - 1].1,
        stage_links@[s].0 < stage_links@[s].1,
        s == stage_count - 1 ==> stage_links@[s].1 == stage_count,
{
}

/// The calls that build a graph make each link once, the input among them, before
/// any stage; add each stage once, in the order of declaration, between its links;
/// and close the graph with its output.
pub proof fn law_graph_is_built_in_order(plan: &NamedPlan, steps: Vec<BuilderStep>, l: int, s: int)
    requires
        call_ensures(graph_steps, (plan,), steps),
        plan.link_count <= usize::MAX,
        plan.stage_links@.len() <= usize::MAX,
    ensures
        steps@.len() == plan.link_count + plan.stage_links@.len() + 1,
        0 <= l < plan.link_count && l == plan.input_link ==> steps@[l] == (BuilderStep::Input {
            link: l as usize,
        }),
        0 <= l < plan.link_count && l != plan.input_link ==> steps@[l] == (BuilderStep::Link {
            link: l as usize,
        }),
        0 <= s < plan.stage_links@.len() ==> steps@[plan.link_count + s] == (
        BuilderStep::AddStageTo {
            stage: s as usize,
            from: plan.stage_links@[s].0,
            to: plan.stage_links@[s].1,
        }),
        steps@.last() == (BuilderStep::Finish { link: plan.output_link }),
{
}

/// The calls that build a chain take the input, add each stage once, each to the
/// link that the one before it made, and close the graph with the last link.
pub proof fn law_chain_is_built_in_order(stage_count: usize, steps: Vec<BuilderStep>, s: int)
    requires
        call_ensures(chain_steps, (stage_count,), steps),
        0 <= s < stage_count < usize::MAX,
    ensures
        steps@.len() == stage_count + 2,
        steps@[0] == (BuilderStep::Input { link: 0 }),
        steps@[s + 1] == (BuilderStep::AddStage {
            stage: s as usize,
            from: s as usize,
            to: (s + 1) as usize,
        }),
        steps@.last() == (BuilderStep::Finish { link: stage_count }),
{
}

/// An edge may start here: at the input or a declared stage.
pub open spec fn may_start(names: Seq<String>, endpoint: Endpoint) -> bool {
    match endpoint {
        Endpoint::Input => true,
        Endpoint::Output => false,
        Endpoint::Stage(name) => exists|x: int|
            0 <= x < names.len() && (#[trigger] names[x])@ == name@,
    }
}

/// An edge may lead here: to the output or a declared stage.
pub open spec fn may_end(names: Seq<String>, endpoint: Endpoint) -> bool {
    match endpoint {
        Endpoint::Input => false,
        Endpoint::Output => true,
        Endpoint::Stage(name) => exists|x: int|
            0 <= x < names.len() && (#[trigger] names[x])@ == name@,
    }
}

/// The edge that a fault names, if it names one.
pub open spec fn edge_of(fault: GraphFault) -> Option<usize> {
    match fault {
        GraphFault::UnknownSource { edge, .. } => Some(edge),
        GraphFault::UnknownDestination { edge, .. } => Some(edge),
        GraphFault::OutputAsSource { edge, .. } => Some(edge),
        GraphFault::InputAsDestination { edge, .. } => Some(edge),
        _ => None,
    }
}

/// The place of the endpoint that a fault names among the sources of its edge, if it
/// names one there.
pub open spec fn source_of(fault: GraphFault) -> Option<usize> {
    match fault {
        GraphFault::UnknownSource { endpoint, .. } => Some(endpoint),
        GraphFault::OutputAsSource { endpoint, .. } => Some(endpoint),
        _ => None,
    }
}

/// The place of the endpoint that a fault names among the destinations of its edge, if it
/// names one there.
pub open spec fn destination_of(fault: GraphFault) -> Option<usize> {
    match fault {
        GraphFault::UnknownDestination { endpoint, .. } => Some(endpoint),
        GraphFault::InputAsDestination { endpoint, .. } => Some(endpoint),
        _ => None,
    }
}

proof fn lemma_first_dests_fault(names: Seq<String>, to: Seq<Endpoint>, e: int, from: int, j: int)
    requires
        0 <= from <= to.len() <= usize::MAX,
        0 <= e <= usize::MAX,
    ensures
        dests_fault(names, to, e, from) matches Some(fault) ==> {
            &&& edge_of(fault) == Some(e as usize)
            &&& source_of(fault) is None
            &&& destination_of(fault) is Some
            &&& from <= destination_of(fault)->0 < to.len()
            &&& from <= j < destination_of(fault)->0 ==> may_end(names, to[j])
        },
        dests_fault(names, to, e, from) is None && from <= j < to.len() ==> may_end(names, to[j]),
    decreases to.len() - from,
{
    if from < to.len() {
        lemma_first_dests_fault(names, to, e, from + 1, j);
    }
}

proof fn lemma_first_edge_fault(
    names: Seq<String>,
    whole: Edge,
    e: int,
    from: int,
    i: int,
    j: int,
)
    requires
        0 <= from <= whole.from@.len() <= usize::MAX,
        whole.to@.len() <= usize::MAX,
        0 <= e <= usize::MAX,
    ensures
        edge_fault(names, whole, e, from) matches Some(fault) ==> {
            &&& edge_of(fault) == Some(e as usize)
            &&& source_of(fault) matches Some(k) ==> {
                &&& from <= k < whole.from@.len()
                &&& from <= i < k ==> may_start(names, whole.from@[i])
                &&& from < k && 0 <= j < whole.to@.len() ==> may_end(names, whole.to@[j])
            }
            &&& destination_of(fault) matches Some(k) ==> {
                &&& k < whole.to@.len()
                &&& 0 <= j < k ==> may_end(names, whole.to@[j])
                &&& may_start(names, whole.from@[from])
            }
            &&& source_of(fault) is Some || destination_of(fault) is Some
        },
        edge_fault(names, whole, e, from) is None ==> {
            &&& from <= i < whole.from@.len() ==> may_start(names, whole.from@[i])
            &&& from < whole.from@.len() && 0 <= j < whole.to@.len() ==> may_end(
                names,
                whole.to@[j],
            )
        },
    decreases whole.from@.len() - from,
{
    if from < whole.from@.len() {
        lemma_first_dests_fault(names, whole.to@, e, 0, j);
        lemma_first_edge_fault(names, whole, e, from + 1, i, j);
    }
}

proof fn lemma_first_faulty_edge(
    names: Seq<String>,
    edges: Seq<Edge>,
    from: int,
    x: int,
    i: int,
    j: int,
)
    requires
        0 <= from <= edges.len() <= usize::MAX,
        from <= x < edges.len(),
    ensures
        ({
            let told = edges_fault(names, edges, from);
            let sound = {
                &&& 0 <= i < edges[x].from@.len() ==> may_start(names, edges[x].from@[i])
                &&& edges[x].from@.len() > 0 && 0 <= j < edges[x].to@.len() ==> may_end(
                    names,
                    edges[x].to@[j],
                )
            };
            &&& told is None ==> sound
            &&& told matches Some(fault) ==> {
                &&& edge_of(fault) is Some
                &&& from <= edge_of(fault)->0 < edges.len()
                &&& told == edge_fault(
                    names,
                    edges[edge_of(fault)->0 as int],
                    edge_of(fault)->0 as int,
                    0,
                )
                &&& x < edge_of(fault)->0 ==> sound
            }
        }),
    decreases edges.len() - from,
{
    assert(edges[from].from.len() <= usize::MAX);
    assert(edges[from].to.len() <= usize::MAX);
    lemma_first_edge_fault(names, edges[from], from, 0, i, j);
    if edge_fault(names, edges[from], from, 0) is None {
        if from + 1 < edges.len() {
            if x > from {
                lemma_first_faulty_edge(names, edges, from + 1, x, i, j);
            } else {
                lemma_first_faulty_edge(names, edges, from + 1, from + 1, i, j);
            }
        }
    }
}

/// Of several faults the first is told. The edges are looked at in order, and each before
/// anything else of the graph: every edge before the told one is in order. In the told
/// one, its first source comes first, then its destinations in order, and then its other
/// sources.
pub proof fn law_first_edge_at_fault_is_told(
    names: Vec<String>,
    edges: Vec<Edge>,
    plan: Result<NamedPlan, GraphFault>,
    x: int,
    i: int,
    j: int,
)
    requires
        call_ensures(expand_named_graph, (&names, &edges), plan),
        0 <= x < edges@.len() <= usize::MAX,
    ensures
        ({
            let edge = edges@[x];
            let source_is_right = 0 <= i < edge.from@.len() ==> may_start(names@, edge.from@[i]);
            let dest_is_right = edge.from@.len() > 0 && 0 <= j < edge.to@.len() ==> may_end(
                names@,
                edge.to@[j],
            );
            &&& plan is Ok ==> source_is_right && dest_is_right
            &&& plan matches Err(fault) ==> match edge_of(fault) {
                None => source_is_right && dest_is_right,
                Some(told) => {
                    &&& x < told ==> source_is_right && dest_is_right
                    &&& x == told ==> (source_of(fault) matches Some(k) ==> {
                        &&& 0 <= i < k ==> may_start(names@, edge.from@[i])
                        &&& k > 0 && 0 <= j < edge.to@.len() ==> may_end(names@, edge.to@[j])
                    })
                    &&& x == told ==> (destination_of(fault) matches Some(k) ==> {
                        &&& 0 <= j < k ==> may_end(names@, edge.to@[j])
                        &&& may_start(names@, edge.from@[0])
                    })
                },
            }
        }),
{
    lemma_first_faulty_edge(names@, edges@, 0, x, i, j);
    assert(edges@[x].from.len() <= usize::MAX);
    assert(edges@[x].to.len() <= usize::MAX);
    lemma_first_edge_fault(names@, edges@[x], x, 0, i, j);
    assert(names.len() <= usize::MAX);
    lemma_loose_stage_is_there(names@, edges@, 0);
}

proof fn lemma_first_loose_stage(names: Seq<String>, edges: Seq<Edge>, from: int, s: int)
    requires
        0 <= from <= s < names.len() <= usize::MAX,
    ensures
        loose_stage(names, edges, from) matches Some(fault) ==> {
            &&& fault matches GraphFault::StageWithoutInput { stage } ==> s < stage
                ==> is_used_as_dest(edges, in_key(names[s]@)) && is_used_as_source(
                edges,
                out_key(names[s]@),
            )
            &&& fault matches GraphFault::StageWithoutOutput { stage } ==> (s < stage
                ==> is_used_as_dest(edges, in_key(names[s]@)) && is_used_as_source(
                edges,
                out_key(names[s]@),
            )) && (s == stage ==> is_used_as_dest(edges, in_key(names[s]@)))
        },
    decreases names.len() - from,
{
    if from + 1 < names.len() {
        if s > from {
            lemma_first_loose_stage(names, edges, from + 1, s);
        } else {
            lemma_first_loose_stage(names, edges, from + 1, from + 1);
        }
    }
    if from < names.len() {
        lemma_loose_stage_is_there(names, edges, from + 1);
        if loose_stage(names, edges, from + 1) is Some {
            lemma_later_stage(names, edges, from + 1);
        }
    }
}

proof fn lemma_later_stage(names: Seq<String>, edges: Seq<Edge>, from: int)
    requires
        0 <= from,
        names.len() <= usize::MAX,
    ensures
        loose_stage(names, edges, from) matches Some(GraphFault::StageWithoutInput { stage })
            ==> stage >= from,
        loose_stage(names, edges, from) matches Some(GraphFault::StageWithoutOutput { stage })
            ==> stage >= from,
    decreases names.len() - from,
{
    if from < names.len() {
        lemma_later_stage(names, edges, from + 1);
    }
}

/// Behind the edges, the input is looked at, then the output, then the stages in order,
/// each first for what leads to it and then for what starts from it, and last the
/// cycles: what comes before the told fault is in order.
pub proof fn law_checks_come_in_order(
    names: Vec<String>,
    edges: Vec<Edge>,
    fault: GraphFault,
    s: int,
)
    requires
        call_ensures(expand_named_graph, (&names, &edges), Err::<NamedPlan, GraphFault>(fault)),
        0 <= s < names@.len() <= usize::MAX,
        edge_of(fault) is None,
    ensures
        ({
            let starts = |key: Seq<char>|
                exists|e: int, i: int|
                    0 <= e < edges@.len() && 0 <= i < edges@[e].from@.len() && source_name(
                        #[trigger] edges@[e].from@[i],
                    ) == key;
            let ends = |key: Seq<char>|
                exists|e: int, j: int|
                    0 <= e < edges@.len() && edges@[e].from@.len() > 0 && 0 <= j
                        < edges@[e].to@.len() && dest_name(#[trigger] edges@[e].to@[j]) == key;
            let is_tied = ends(names@[s]@ + ":in"@) && starts(names@[s]@ + ":out"@);
            &&& !(fault is InputUnconnected) ==> starts("input:out"@)
            &&& !(fault is InputUnconnected) && !(fault is OutputUnconnected) ==> ends(
                "output:in"@,
            )
            &&& fault matches GraphFault::StageWithoutInput { stage } ==> s < stage ==> is_tied
            &&& fault matches GraphFault::StageWithoutOutput { stage } ==> (s < stage ==> is_tied)
                && (s == stage ==> ends(names@[s]@ + ":in"@))
            &&& fault is Cycle ==> is_tied
            &&& fault matches GraphFault::Cycle { stage } ==> s < stage
                ==> !cycles::reaches_cycle(names@.len(), stage_feeds(names@, edges@), s)
        }),
{
    if edges@.len() > 0 {
        assert(edges@.len() == edges.len());
        lemma_first_faulty_edge(names@, edges@, 0, 0, 0, 0);
    }
    lemma_loose_stage_is_there(names@, edges@, 0);
    lemma_first_loose_stage(names@, edges@, 0, s);
    if loose_stage(names@, edges@, 0) is None {
        lemma_no_loose_stage(names@, edges@, 0, s);
    }
    let p = cyclic_from(names@, edges@);
    search::lemma_first_where_holds(p, 0, names@.len() as int);
    assert(p(s) == cycles::reaches_cycle(names@.len(), stage_feeds(names@, edges@), s));
}

/// An end that items go out of is never taken for one that they come in at. The output
/// has no end to start from and the input none to lead to.
pub proof fn law_ends_are_told_apart(a: Endpoint, b: Endpoint, source: String, dest: String)
    requires
        call_ensures(source_key, (&a,), source),
        call_ensures(dest_key, (&b,), dest),
    ensures
        !(a is Output) || !(b is Input) ==> source@ != dest@,
        a is Input ==> source@ == "input:out"@,
        b is Output ==> dest@ == "output:in"@,
        a matches Endpoint::Stage(name) ==> source@ == name@ + ":out"@,
        b matches Endpoint::Stage(name) ==> dest@ == name@ + ":in"@,
        a is Output ==> source@.len() == 0,
        b is Input ==> dest@.len() == 0,
{
    reveal_strlit(":in");
    reveal_strlit(":out");
    reveal_strlit("input:out");
    reveal_strlit("output:in");
    if !(a is Output) && !(b is Input) {
        assert(source@[source@.len() - 1] == 't');
        assert(dest@[dest@.len() - 1] == 'n');
    } else if a is Output {
        assert(source@.len() == 0 && (b is Input || dest@.len() > 0));
    } else {
        assert(dest@.len() == 0 && source@.len() > 0);
    }
}

/// Stages of different names have different ends.
pub proof fn law_stages_have_ends_of_their_own(
    a: String,
    b: String,
    source_a: String,
    source_b: String,
    dest_a: String,
    dest_b: String,
)
    requires
        a@ != b@,
        call_ensures(source_key, (&Endpoint::Stage(a),), source_a),
        call_ensures(source_key, (&Endpoint::Stage(b),), source_b),
        call_ensures(dest_key, (&Endpoint::Stage(a),), dest_a),
        call_ensures(dest_key, (&Endpoint::Stage(b),), dest_b),
    ensures
        source_a@ != source_b@,
        dest_a@ != dest_b@,
{
    reveal_strlit(":in");
    reveal_strlit(":out");
    if source_a@ == source_b@ {
        assert(a@ =~= source_a@.take(source_a@.len() - 4));
        assert(b@ =~= source_b@.take(source_b@.len() - 4));
    }
    if dest_a@ == dest_b@ {
        assert(a@ =~= dest_a@.take(dest_a@.len() - 3));
        assert(b@ =~= dest_b@.take(dest_b@.len() - 3));
    }
}

/// A fault of a graph is worded by what it is, and a link is named by its number.
pub proof fn law_graph_fault_is_worded(fault: GraphFault, text: String, link: usize, name: String)
    requires
        call_ensures(GraphFault::message, (fault,), text),
        call_ensures(link_name, (link,), name),
    ensures
        fault is UnknownSource || fault is UnknownDestination ==> text@ == "unknown graph stage"@,
        fault is OutputAsSource ==> text@ == "`output` cannot be used as a graph edge source"@,
        fault is InputAsDestination ==> text@
            == "`input` cannot be used as a graph edge destination"@,
        fault is InputUnconnected ==> text@ == "graph must connect `input` to at least one stage"@,
        fault is OutputUnconnected ==> text@
            == "graph must connect at least one stage to `output`"@,
        fault is StageWithoutInput ==> text@ == "stage is missing an input graph edge"@,
        fault is StageWithoutOutput ==> text@ == "stage is missing an output graph edge"@,
        fault is Cycle ==> text@ == "graph cycles are not supported"@,
        name@ == "__piper_link_"@ + text::decimal(link as nat),
{
}

/// A graph with a stage always has an answer; one without has it where an edge is at
/// fault, or where the edges tie the input and the output.
pub proof fn law_graph_with_stages_has_an_answer(
    names: Vec<String>,
    edges: Vec<Edge>,
    yes: bool,
)
    requires
        call_ensures(can_expand, (&names, &edges), yes),
    ensures
        names@.len() > 0 ==> yes,
        names@.len() == 0 && edges@.len() == 0 ==> !yes,
{
}

} // verus!

//! Cycle detection by depth-first search.
use vstd::prelude::*;

verus! {

/// A non-empty sequence of nodes below `count` in which an edge leads from each
/// to the next.
pub open spec fn is_walk(count: nat, edge: spec_fn(int, int) -> bool, nodes: Seq<int>) -> bool {
    &&& nodes.len() > 0
    &&& forall|i: int| 0 <= i < nodes.len() ==> 0 <= #[trigger] nodes[i] < count
    &&& forall|i: int|
        #![trigger nodes[i]]
        0 <= i < nodes.len() - 1 ==> edge(nodes[i], nodes[i + 1])
}

/// A sequence that meets some node twice.
pub open spec fn repeats(nodes: Seq<int>) -> bool {
    exists|i: int, j: int| 0 <= i < j < nodes.len() && nodes[i] == nodes[j]
}

/// Some walk from `start` meets a node twice: following edges from `start`, one
/// can get into a cycle.
pub open spec fn reaches_cycle(count: nat, edge: spec_fn(int, int) -> bool, start: int) -> bool {
    exists|nodes: Seq<int>| #[trigger]
        is_walk(count, edge, nodes) && nodes[0] == start && repeats(nodes)
}

/// Some walk comes back to where it began.
pub open spec fn is_cyclic(count: nat, edge: spec_fn(int, int) -> bool) -> bool {
    exists|nodes: Seq<int>| #[trigger]
        is_walk(count, edge, nodes) && nodes.len() > 1 && nodes[0] == nodes.last()
}

/// The edges that an adjacency list holds.
pub open spec fn listed(adjacency: Seq<Vec<usize>>) -> spec_fn(int, int) -> bool {
    |from: int, to: int| exists|k: int|
        0 <= k < adjacency[from]@.len() && #[trigger] adjacency[from]@[k] == to
}

/// An adjacency list whose entries are all nodes.
pub open spec fn is_adjacency(adjacency: Seq<Vec<usize>>) -> bool {
    forall|node: int, k: int|
        0 <= node < adjacency.len() && 0 <= k < adjacency[node]@.len() ==> (
        #[trigger] adjacency[node]@[k]) < adjacency.len()
}

/// A graph has a cycle exactly where one can get into a cycle from some node.
pub proof fn law_cyclic_iff_some_node_reaches_a_cycle(
    count: nat,
    edge: spec_fn(int, int) -> bool,
)
    ensures
        is_cyclic(count, edge) <==> exists|start: int|
            0 <= start < count && #[trigger] reaches_cycle(count, edge, start),
{
    if is_cyclic(count, edge) {
        let nodes = choose|nodes: Seq<int>| #[trigger]
            is_walk(count, edge, nodes) && nodes.len() > 1 && nodes[0] == nodes.last();
        assert(nodes[0] == nodes[nodes.len() - 1]);
        assert(repeats(nodes));
        assert(reaches_cycle(count, edge, nodes[0]));
    }
    if exists|start: int| 0 <= start < count && #[trigger] reaches_cycle(count, edge, start) {
        let start = choose|start: int|
            0 <= start < count && #[trigger] reaches_cycle(count, edge, start);
        let nodes = choose|nodes: Seq<int>| #[trigger]
            is_walk(count, edge, nodes) && nodes[0] == start && repeats(nodes);
        let (i, j) = choose|i: int, j: int| 0 <= i < j < nodes.len() && nodes[i] == nodes[j];
        let closed = nodes.subrange(i, j + 1);
        assert(is_walk(count, edge, closed)) by {
            assert forall|k: int| #![trigger closed[k]] 0 <= k < closed.len() - 1 implies edge(
                closed[k],
                closed[k + 1],
            ) by {
                assert(closed[k] == nodes[i + k]);
                assert(closed[k + 1] == nodes[i + k + 1]);
            }
        }
        assert(closed[0] == closed.last());
    }
}

/// Walks depend only on which nodes are joined, not on how the edges are given.
pub proof fn lemma_same_edges_same_cycles(
    count: nat,
    left: spec_fn(int, int) -> bool,
    right: spec_fn(int, int) -> bool,
)
    requires
        forall|a: int, b: int|
            0 <= a < count && 0 <= b < count ==> (#[trigger] left(a, b)) == right(a, b),
    ensures
        is_cyclic(count, left) == is_cyclic(count, right),
        forall|start: int| #[trigger]
            reaches_cycle(count, left, start) == reaches_cycle(count, right, start),
{
    assert forall|nodes: Seq<int>|
        is_walk(count, left, nodes) == #[trigger] is_walk(count, right, nodes) by {
        assert forall|i: int|
            #![trigger nodes[i]]
            is_walk(count, left, nodes) && 0 <= i < nodes.len() - 1 implies right(
            nodes[i],
            nodes[i + 1],
        ) by {
            assert(0 <= nodes[i + 1] < count);
            assert(left(nodes[i], nodes[i + 1]));
        }
        assert forall|i: int|
            #![trigger nodes[i]]
            is_walk(count, right, nodes) && 0 <= i < nodes.len() - 1 implies left(
            nodes[i],
            nodes[i + 1],
        ) by {
            assert(0 <= nodes[i + 1] < count);
            assert(left(nodes[i], nodes[i + 1]) == right(nodes[i], nodes[i + 1]));
        }
    }
    assert forall|start: int| #[trigger]
        reaches_cycle(count, left, start) == reaches_cycle(count, right, start) by {
        if reaches_cycle(count, left, start) {
            let nodes = choose|nodes: Seq<int>| #[trigger]
                is_walk(count, left, nodes) && nodes[0] == start && repeats(nodes);
            assert(is_walk(count, right, nodes));
        }
        if reaches_cycle(count, right, start) {
            let nodes = choose|nodes: Seq<int>| #[trigger]
                is_walk(count, right, nodes) && nodes[0] == start && repeats(nodes);
            assert(is_walk(count, left, nodes));
        }
    }
    law_cyclic_iff_some_node_reaches_a_cycle(count, left);
    law_cyclic_iff_some_node_reaches_a_cycle(count, right);
}

/// A node from which a cycle can be reached leads to it over a child.
proof fn lemma_cycle_passes_through_a_child(
    count: nat,
    edge: spec_fn(int, int) -> bool,
    node: int,
)
    requires
        reaches_cycle(count, edge, node),
    ensures
        exists|child: int|
            0 <= child < count && edge(node, child) && #[trigger] reaches_cycle(
                count,
                edge,
                child,
            ),
{
    let nodes = choose|nodes: Seq<int>| #[trigger]
        is_walk(count, edge, nodes) && nodes[0] == node && repeats(nodes);
    let (i, j) = choose|i: int, j: int| 0 <= i < j < nodes.len() && nodes[i] == nodes[j];
    let child = nodes[1];
    assert(edge(nodes[0], nodes[1]));
    if i > 0 {
        let rest = nodes.skip(1);
        assert forall|k: int| #![trigger rest[k]] 0 <= k < rest.len() - 1 implies edge(
            rest[k],
            rest[k + 1],
        ) by {
            assert(rest[k] == nodes[k + 1]);
            assert(rest[k + 1] == nodes[k + 1 + 1]);
        }
        assert(is_walk(count, edge, rest));
        assert(rest[i - 1] == rest[j - 1]);
        assert(repeats(rest));
    } else {
        let round = nodes.subrange(1, j + 1).push(child);
        assert forall|k: int| #![trigger round[k]] 0 <= k < round.len() - 1 implies edge(
            round[k],
            round[k + 1],
        ) by {
            assert(round[k] == nodes[k + 1]);
            if k + 1 < j {
                assert(round[k + 1] == nodes[k + 1 + 1]);
            }
        }
        assert(is_walk(count, edge, round));
        assert(round[0] == round[j]);
        assert(repeats(round));
    }
    assert(reaches_cycle(count, edge, child));
}

/// A cycle that a child can reach, its parent can reach.
proof fn lemma_parent_reaches_the_childs_cycle(
    count: nat,
    edge: spec_fn(int, int) -> bool,
    node: int,
    child: int,
)
    requires
        0 <= node < count,
        edge(node, child),
        reaches_cycle(count, edge, child),
    ensures
        reaches_cycle(count, edge, node),
{
    let nodes = choose|nodes: Seq<int>| #[trigger]
        is_walk(count, edge, nodes) && nodes[0] == child && repeats(nodes);
    let (i, j) = choose|i: int, j: int| 0 <= i < j < nodes.len() && nodes[i] == nodes[j];
    let longer = seq![node] + nodes;
    assert forall|k: int| #![trigger longer[k]] 0 <= k < longer.len() - 1 implies edge(
        longer[k],
        longer[k + 1],
    ) by {
        if k > 0 {
            assert(longer[k] == nodes[k - 1]);
            assert(longer[k + 1] == nodes[k - 1 + 1]);
        }
    }
    assert(is_walk(count, edge, longer));
    assert(longer[i + 1] == longer[j + 1]);
    assert(repeats(longer));
}

/// The number of marks that are not set.
spec fn unset(marks: Seq<bool>) -> nat
    decreases marks.len(),
{
    if marks.len() == 0 {
        0
    } else {
        unset(marks.drop_last()) + if marks.last() {
            0nat
        } else {
            1nat
        }
    }
}

proof fn lemma_setting_a_mark(marks: Seq<bool>, node: int)
    requires
        0 <= node < marks.len(),
        !marks[node],
    ensures
        unset(marks.update(node, true)) < unset(marks),
    decreases marks.len(),
{
    let after = marks.update(node, true);
    if node == marks.len() - 1 {
        assert(after.drop_last() =~= marks.drop_last());
    } else {
        assert(after.drop_last() =~= marks.drop_last().update(node, true));
        lemma_setting_a_mark(marks.drop_last(), node);
    }
}

/// Searches the cycles that can be reached from `node`. `temporary` marks the
/// nodes on the way to it (`path`, in order), `permanent` those from which no
/// cycle can be reached.
fn visit(
    node: usize,
    adjacency: &Vec<Vec<usize>>,
    temporary: &mut Vec<bool>,
    permanent: &mut Vec<bool>,
    Ghost(path): Ghost<Seq<int>>,
) -> (found: bool)
    requires
        is_adjacency(adjacency@),
        node < adjacency@.len(),
        old(temporary)@.len() == adjacency@.len(),
        old(permanent)@.len() == adjacency@.len(),
        is_walk(adjacency@.len(), listed(adjacency@), path.push(node as int)),
        forall|v: int|
            0 <= v < adjacency@.len() && #[trigger] old(temporary)@[v] ==> path.contains(v),
        forall|v: int|
            0 <= v < adjacency@.len() && #[trigger] old(permanent)@[v] ==> !reaches_cycle(
                adjacency@.len(),
                listed(adjacency@),
                v,
            ),
    ensures
        found ==> reaches_cycle(adjacency@.len(), listed(adjacency@), node as int),
        !found ==> final(temporary)@ == old(temporary)@,
        !found ==> final(permanent)@.len() == adjacency@.len(),
        !found ==> final(permanent)@[node as int],
        !found ==> forall|v: int|
            0 <= v < adjacency@.len() && #[trigger] final(permanent)@[v] ==> !reaches_cycle(
                adjacency@.len(),
                listed(adjacency@),
                v,
            ),
        !found ==> forall|v: int|
            0 <= v < adjacency@.len() && old(permanent)@[v] ==> #[trigger] final(permanent)@[v],
    decreases unset(old(temporary)@),
{
    let ghost count = adjacency@.len();
    let ghost edge = listed(adjacency@);
    if permanent[node] {
        return false;
    }
    if temporary[node] {
        proof {
            let k = choose|k: int| 0 <= k < path.len() && path[k] == node;
            let whole = path.push(node as int);
            let round = whole.skip(k);
            assert forall|i: int| #![trigger round[i]] 0 <= i < round.len() - 1 implies edge(
                round[i],
                round[i + 1],
            ) by {
                assert(round[i] == whole[k + i]);
                assert(round[i + 1] == whole[k + i + 1]);
            }
            assert(is_walk(count, edge, round));
            assert(round[0] == round[round.len() - 1]);
            assert(repeats(round));
        }
        return true;
    }
    temporary[node] = true;
    let ghost marked = temporary@;
    let ghost here = path.push(node as int);
    let ghost permanent_before = permanent@;
    proof {
        lemma_setting_a_mark(old(temporary)@, node as int);
        assert forall|v: int| 0 <= v < count && #[trigger] marked[v] implies here.contains(v) by {
            if v == node {
                assert(here[path.len() as int] == v);
            } else {
                assert(old(temporary)@[v]);
                let k = choose|k: int| 0 <= k < path.len() && path[k] == v;
                assert(here[k] == v);
            }
        }
    }
    let mut position: usize = 0;
    while position < adjacency[node].len()
        invariant
            is_adjacency(adjacency@),
            count == adjacency@.len(),
            edge == listed(adjacency@),
            node < count,
            position <= adjacency@[node as int]@.len(),
            temporary@ == marked,
            marked.len() == count,
            marked == old(temporary)@.update(node as int, true),
            permanent@.len() == count,
            here == path.push(node as int),
            is_walk(count, edge, here),
            unset(marked) < unset(old(temporary)@),
            forall|v: int| 0 <= v < count && #[trigger] marked[v] ==> here.contains(v),
            forall|v: int|
                0 <= v < count && #[trigger] permanent@[v] ==> !reaches_cycle(count, edge, v),
            forall|v: int| 0 <= v < count && permanent_before[v] ==> #[trigger] permanent@[v],
            forall|k: int|
                0 <= k < position ==> !reaches_cycle(
                    count,
                    edge,
                    #[trigger] adjacency@[node as int]@[k] as int,
                ),
        decreases adjacency@[node as int]@.len() - position,
    {
        let child: usize = adjacency[node][position];
        proof {
            assert(adjacency@[node as int]@[position as int] == child);
            assert(edge(node as int, child as int));
            let further = here.push(child as int);
            assert forall|i: int| #![trigger further[i]] 0 <= i < further.len() - 1 implies edge(
                further[i],
                further[i + 1],
            ) by {
                if i < here.len() - 1 {
                    assert(further[i] == here[i]);
                    assert(further[i + 1] == here[i + 1]);
                }
            }
            assert(is_walk(count, edge, further));
        }
        if visit(child, adjacency, temporary, permanent, Ghost(here)) {
            proof {
                lemma_parent_reaches_the_childs_cycle(count, edge, node as int, child as int);
            }
            return true;
        }
        position += 1;
    }
    temporary[node] = false;
    permanent[node] = true;
    proof {
        assert(temporary@ =~= old(temporary)@);
        if reaches_cycle(count, edge, node as int) {
            lemma_cycle_passes_through_a_child(count, edge, node as int);
            let child = choose|child: int|
                0 <= child < count && edge(node as int, child) && #[trigger] reaches_cycle(
                    count,
                    edge,
                    child,
                );
            let k = choose|k: int|
                0 <= k < adjacency@[node as int]@.len() && #[trigger] adjacency@[node as int]@[k]
                    == child;
            assert(!reaches_cycle(count, edge, adjacency@[node as int]@[k] as int));
        }
    }
    false
}

/// The first node, in order, from which a cycle can be reached.
pub fn find_cycle(adjacency: &Vec<Vec<usize>>) -> (start: Option<usize>)
    requires
        is_adjacency(adjacency@),
    ensures
        start is None <==> !is_cyclic(adjacency@.len(), listed(adjacency@)),
        start matches Some(start) ==> {
            &&& start < adjacency@.len()
            &&& reaches_cycle(adjacency@.len(), listed(adjacency@), start as int)
            &&& forall|earlier: int|
                0 <= earlier < start ==> !#[trigger] reaches_cycle(
                    adjacency@.len(),
                    listed(adjacency@),
                    earlier,
                )
        },
{
    let count: usize = adjacency.len();
    let ghost edge = listed(adjacency@);
    let mut temporary: Vec<bool> = vec![false; count];
    let mut permanent: Vec<bool> = vec![false; count];
    proof {
        law_cyclic_iff_some_node_reaches_a_cycle(adjacency@.len(), edge);
    }
    let mut index: usize = 0;
    while index < count
        invariant
            is_adjacency(adjacency@),
            count == adjacency@.len(),
            edge == listed(adjacency@),
            index <= count,
            temporary@.len() == count,
            permanent@.len() == count,
            forall|v: int| 0 <= v < count ==> !#[trigger] temporary@[v],
            forall|v: int|
                0 <= v < count && #[trigger] permanent@[v] ==> !reaches_cycle(
                    count as nat,
                    edge,
                    v,
                ),
            forall|v: int|
                0 <= v < index ==> !#[trigger] reaches_cycle(count as nat, edge, v),
            is_cyclic(count as nat, edge) <==> exists|start: int|
                0 <= start < count && #[trigger] reaches_cycle(count as nat, edge, start),
        decreases count - index,
    {
        proof {
            assert(is_walk(count as nat, edge, Seq::<int>::empty().push(index as int)));
        }
        if visit(index, adjacency, &mut temporary, &mut permanent, Ghost(Seq::empty())) {
            return Some(index);
        }
        index += 1;
    }
    None
}

} // verus!

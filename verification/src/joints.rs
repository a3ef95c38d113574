//! Sets of named things that are merged pair by pair: a forest in which every
//! thing leads to the representative of its set.
use vstd::prelude::*;
use vstd::string::*;

verus! {

/// The representatives after the sets of `left` and `right` were merged: the set
/// of `right` goes over to the representative of `left`.
pub open spec fn merged(reps: Seq<int>, left: int, right: int) -> Seq<int> {
    Seq::new(
        reps.len(),
        |k: int|
            if reps[k] == reps[right] {
                reps[left]
            } else {
                reps[k]
            },
    )
}

/// A thing that represents its own set.
pub open spec fn stands_for_itself(root: int, reps: Seq<int>) -> bool {
    0 <= root < reps.len() && reps[root] == root
}

/// Each thing by itself.
pub open spec fn singles(count: nat) -> Seq<int> {
    Seq::new(count, |k: int| k)
}

/// The representatives after a list of pairs was merged, in order.
pub open spec fn all_merged(reps: Seq<int>, pairs: Seq<(int, int)>) -> Seq<int>
    decreases pairs.len(),
{
    if pairs.len() == 0 {
        reps
    } else {
        merged(all_merged(reps, pairs.drop_last()), pairs.last().0, pairs.last().1)
    }
}

/// Thing `i` leads to the representative of its set, step by step upwards.
pub open spec fn leads_up(
    parent: Seq<usize>,
    reps: Seq<int>,
    depth: Seq<nat>,
    i: int,
) -> bool {
    let n = parent.len();
    &&& parent[i] < n
    &&& 0 <= reps[i] < n
    &&& reps[parent[i] as int] == reps[i]
    &&& reps[reps[i]] == reps[i]
    &&& parent[i] == i <==> reps[i] == i
    &&& parent[i] != i ==> depth[parent[i] as int] < depth[i]
}

/// Every thing leads to the representative of its set.
pub open spec fn is_forest(parent: Seq<usize>, reps: Seq<int>, depth: Seq<nat>) -> bool {
    &&& reps.len() == parent.len()
    &&& depth.len() == parent.len()
    &&& forall|i: int| 0 <= i < parent.len() ==> #[trigger] leads_up(parent, reps, depth, i)
}

proof fn lemma_shortened(
    parent: Seq<usize>,
    reps: Seq<int>,
    depth: Seq<nat>,
    index: int,
    root: usize,
)
    requires
        is_forest(parent, reps, depth),
        0 <= index < parent.len(),
        root == reps[index],
        root != index,
        depth[root as int] < depth[index],
    ensures
        is_forest(parent.update(index, root), reps, depth),
{
    let shorter = parent.update(index, root);
    assert forall|i: int| 0 <= i < shorter.len() implies #[trigger] leads_up(
        shorter,
        reps,
        depth,
        i,
    ) by {
        assert(leads_up(parent, reps, depth, i));
        assert(leads_up(parent, reps, depth, index));
    }
}

/// The depths after the tree of `right_root` was hung below `left_root`.
spec fn deepened(reps: Seq<int>, depth: Seq<nat>, left_root: int, right_root: int) -> Seq<nat> {
    Seq::new(
        depth.len(),
        |i: int|
            if reps[i] == right_root {
                depth[i] + depth[left_root] + 1
            } else {
                depth[i]
            },
    )
}

proof fn lemma_grafted(
    parent: Seq<usize>,
    reps: Seq<int>,
    depth: Seq<nat>,
    left: int,
    right: int,
    left_root: usize,
)
    requires
        is_forest(parent, reps, depth),
        0 <= left < parent.len(),
        0 <= right < parent.len(),
        left_root == reps[left],
        reps[left] != reps[right],
    ensures
        is_forest(
            parent.update(reps[right], left_root),
            merged(reps, left, right),
            deepened(reps, depth, reps[left], reps[right]),
        ),
{
    let lr = reps[left];
    let rr = reps[right];
    let parent2 = parent.update(rr, left_root);
    let reps2 = merged(reps, left, right);
    let depth2 = deepened(reps, depth, lr, rr);
    assert(leads_up(parent, reps, depth, left));
    assert(leads_up(parent, reps, depth, right));
    assert forall|i: int| 0 <= i < parent2.len() implies #[trigger] leads_up(
        parent2,
        reps2,
        depth2,
        i,
    ) by {
        assert(leads_up(parent, reps, depth, i));
        assert(leads_up(parent, reps, depth, parent[i] as int));
        assert(leads_up(parent, reps, depth, lr));
        assert(leads_up(parent, reps, depth, rr));
    }
}

/// Named things in sets.
pub struct JointSets {
    keys: Vec<String>,
    parent: Vec<usize>,
    depth: Ghost<Seq<nat>>,
    reps: Ghost<Seq<int>>,
}

impl JointSets {
    /// The names of the things, in the order in which they came.
    pub closed spec fn names(self) -> Seq<Seq<char>> {
        Seq::new(self.keys@.len(), |i: int| self.keys@[i]@)
    }

    /// The representative of each thing's set.
    pub closed spec fn representatives(self) -> Seq<int> {
        self.reps@
    }

    /// The thing that each thing points to; a representative points to itself.
    pub closed spec fn parents(self) -> Seq<usize> {
        self.parent@
    }

    /// No name occurs twice, and following parents ends at the representative.
    pub closed spec fn is_sound(self) -> bool {
        &&& self.parent@.len() == self.keys@.len()
        &&& is_forest(self.parent@, self.reps@, self.depth@)
        &&& forall|i: int, j: int|
            0 <= i < j < self.keys@.len() ==> (#[trigger] self.keys@[i])@
                != (#[trigger] self.keys@[j])@
    }

    pub fn new() -> (sets: Self)
        ensures
            sets.is_sound(),
            sets.names().len() == 0,
            sets.representatives() == singles(0),
    {
        let sets = JointSets {
            keys: Vec::new(),
            parent: Vec::new(),
            depth: Ghost(Seq::empty()),
            reps: Ghost(Seq::empty()),
        };
        assert(sets.representatives() =~= singles(0));
        sets
    }

    /// No name stands twice, and there is a representative for each.
    pub proof fn lemma_names_differ(self)
        requires
            self.is_sound(),
        ensures
            self.representatives().len() == self.names().len(),
            forall|i: int, j: int|
                0 <= i < j < self.names().len() ==> #[trigger] self.names()[i]
                    != #[trigger] self.names()[j],
            forall|k: int|
                0 <= k < self.names().len() ==> stands_for_itself(
                    #[trigger] self.representatives()[k],
                    self.representatives(),
                ),
    {
        assert forall|i: int, j: int| 0 <= i < j < self.names().len() implies #[trigger] self.names()[i]
            != #[trigger] self.names()[j] by {
            assert(self.keys@[i]@ != self.keys@[j]@);
        }
        assert forall|k: int| 0 <= k < self.names().len() implies stands_for_itself(
            #[trigger] self.representatives()[k],
            self.representatives(),
        ) by {
            assert(leads_up(self.parent@, self.reps@, self.depth@, k));
        }
    }

    /// Where a name stands, if it does.
    pub fn position(&self, key: &String) -> (found: Option<usize>)
        requires
            self.is_sound(),
        ensures
            found matches Some(i) ==> i < self.names().len() && self.names()[i as int] == key@,
            found is None ==> !self.names().contains(key@),
    {
        let mut index: usize = 0;
        while index < self.keys.len()
            invariant
                index <= self.keys@.len(),
                forall|i: int| 0 <= i < index ==> (#[trigger] self.keys@[i])@ != key@,
            decreases self.keys@.len() - index,
        {
            if self.keys[index] == *key {
                return Some(index);
            }
            index += 1;
        }
        proof {
            if self.names().contains(key@) {
                let i = choose|i: int| 0 <= i < self.names().len() && self.names()[i] == key@;
                assert(self.keys@[i]@ == key@);
            }
        }
        None
    }

    /// Adds a thing in a set of its own, unless its name is there already.
    pub fn insert_key(&mut self, key: String)
        requires
            old(self).is_sound(),
            old(self).representatives() == singles(old(self).names().len()),
        ensures
            final(self).is_sound(),
            final(self).representatives() == singles(final(self).names().len()),
            final(self).names() == if old(self).names().contains(key@) {
                old(self).names()
            } else {
                old(self).names().push(key@)
            },
    {
        let ghost before = *self;
        if self.position(&key).is_none() {
            let index: usize = self.keys.len();
            self.keys.push(key);
            self.parent.push(index);
            proof {
                self.depth@ = self.depth@.push(0);
                self.reps@ = self.reps@.push(index as int);
                assert(self.names() =~= before.names().push(key@));
                assert(self.reps@ =~= singles(self.names().len()));
                assert forall|i: int, j: int| 0 <= i < j < self.keys@.len() implies (
                #[trigger] self.keys@[i])@ != (#[trigger] self.keys@[j])@ by {
                    if j == index {
                        assert(before.names()[i] == self.keys@[i]@);
                        assert(before.names().contains(self.keys@[i]@));
                    }
                }
                assert forall|i: int| 0 <= i < self.parent@.len() implies #[trigger] leads_up(
                    self.parent@,
                    self.reps@,
                    self.depth@,
                    i,
                ) by {
                    if i < index {
                        assert(leads_up(before.parent@, before.reps@, before.depth@, i));
                    }
                }
            }
        } else {
            assert(before.names().contains(key@));
        }
    }

    /// The representative of a thing's set. Parents on the way are shortened: the
    /// thing then points to its representative, and no other thing is led away from
    /// its own. Where the thing pointed there before, nothing changes.
    pub fn find(&mut self, index: usize) -> (root: usize)
        requires
            old(self).is_sound(),
            index < old(self).names().len(),
        ensures
            final(self).is_sound(),
            final(self).names() == old(self).names(),
            final(self).representatives() == old(self).representatives(),
            root == old(self).representatives()[index as int],
            final(self).parents().len() == old(self).parents().len(),
            final(self).parents()[index as int] == root,
            final(self).parents()[root as int] == root,
            forall|k: int|
                0 <= k < final(self).parents().len() ==> (#[trigger] final(self).parents()[k]
                    == old(self).parents()[k] || final(self).parents()[k]
                    == old(self).representatives()[k]),
            old(self).parents()[index as int] == root ==> final(self).parents()
                == old(self).parents(),
    {
        let root: usize = self.find_root(index);
        assert(leads_up(self.parent@, self.reps@, self.depth@, index as int));
        assert(leads_up(self.parent@, self.reps@, self.depth@, root as int));
        root
    }

    fn find_root(&mut self, index: usize) -> (root: usize)
        requires
            old(self).is_sound(),
            index < old(self).keys@.len(),
        ensures
            final(self).is_sound(),
            final(self).keys == old(self).keys,
            final(self).reps == old(self).reps,
            final(self).depth == old(self).depth,
            root == old(self).reps@[index as int],
            root < old(self).keys@.len(),
            old(self).depth@[root as int] <= old(self).depth@[index as int],
            final(self).parent@.len() == old(self).parent@.len(),
            final(self).parent@[index as int] == root,
            forall|k: int|
                0 <= k < final(self).parent@.len() ==> (#[trigger] final(self).parent@[k]
                    == old(self).parent@[k] || final(self).parent@[k] == old(self).reps@[k]),
            old(self).parent@[index as int] == root ==> final(self).parent@ == old(self).parent@,
        decreases old(self).depth@[index as int],
    {
        assert(leads_up(self.parent@, self.reps@, self.depth@, index as int));
        let current: usize = self.parent[index];
        if current == index {
            index
        } else {
            assert(leads_up(self.parent@, self.reps@, self.depth@, current as int));
            let root: usize = self.find_root(current);
            assert(leads_up(old(self).parent@, old(self).reps@, old(self).depth@, root as int));
            proof {
                lemma_shortened(self.parent@, self.reps@, self.depth@, index as int, root);
            }
            self.parent[index] = root;
            root
        }
    }

    /// Merges the sets of two things.
    pub fn union(&mut self, left: usize, right: usize)
        requires
            old(self).is_sound(),
            left < old(self).names().len(),
            right < old(self).names().len(),
        ensures
            final(self).is_sound(),
            final(self).names() == old(self).names(),
            final(self).representatives() == merged(
                old(self).representatives(),
                left as int,
                right as int,
            ),
    {
        let ghost first = *self;
        let left_root: usize = self.find_root(left);
        let right_root: usize = self.find_root(right);
        let ghost before = *self;
        if left_root != right_root {
            self.parent[right_root] = left_root;
            proof {
                lemma_grafted(
                    before.parent@,
                    before.reps@,
                    before.depth@,
                    left as int,
                    right as int,
                    left_root,
                );
                self.reps@ = merged(before.reps@, left as int, right as int);
                self.depth@ = deepened(
                    before.reps@,
                    before.depth@,
                    left_root as int,
                    right_root as int,
                );
            }
        } else {
            assert(self.reps@ =~= merged(first.reps@, left as int, right as int));
        }
    }
}

/// A pair of the list joins two things, in either direction.
pub open spec fn are_joined(pairs: Seq<(int, int)>, a: int, b: int) -> bool {
    pairs.contains((a, b)) || pairs.contains((b, a))
}

/// A way from thing to thing, each joined to the next.
pub open spec fn is_way(count: nat, pairs: Seq<(int, int)>, nodes: Seq<int>) -> bool {
    &&& nodes.len() > 0
    &&& forall|i: int| 0 <= i < nodes.len() ==> 0 <= #[trigger] nodes[i] < count
    &&& forall|i: int, j: int|
        #![trigger nodes[i], nodes[j]]
        0 <= i && j == i + 1 && j < nodes.len() ==> are_joined(pairs, nodes[i], nodes[j])
}

/// Some way leads from one thing to the other.
pub open spec fn are_connected(count: nat, pairs: Seq<(int, int)>, a: int, b: int) -> bool {
    exists|nodes: Seq<int>| #[trigger]
        is_way(count, pairs, nodes) && nodes[0] == a && nodes.last() == b
}

/// Every pair names two of the things.
pub open spec fn pairs_exist(count: nat, pairs: Seq<(int, int)>) -> bool {
    forall|i: int|
        0 <= i < pairs.len() ==> 0 <= (#[trigger] pairs[i]).0 < count && 0 <= pairs[i].1 < count
}

proof fn lemma_merging_keeps_range(count: nat, pairs: Seq<(int, int)>)
    requires
        pairs_exist(count, pairs),
    ensures
        all_merged(singles(count), pairs).len() == count,
        forall|k: int|
            0 <= k < count ==> 0 <= #[trigger] all_merged(singles(count), pairs)[k] < count,
    decreases pairs.len(),
{
    if pairs.len() > 0 {
        assert(pairs_exist(count, pairs.drop_last())) by {
            assert forall|i: int| 0 <= i < pairs.drop_last().len() implies 0 <= (
            #[trigger] pairs.drop_last()[i]).0 < count && 0 <= pairs.drop_last()[i].1 < count by {
                assert(0 <= pairs[i].0 < count);
            }
        }
        lemma_merging_keeps_range(count, pairs.drop_last());
        assert(0 <= pairs[pairs.len() - 1].0 < count);
    }
}

proof fn lemma_pair_shares_a_set(count: nat, pairs: Seq<(int, int)>, i: int)
    requires
        pairs_exist(count, pairs),
        0 <= i < pairs.len(),
    ensures
        all_merged(singles(count), pairs)[pairs[i].0] == all_merged(singles(count), pairs)[pairs[i].1],
    decreases pairs.len(),
{
    let earlier = pairs.drop_last();
    lemma_merging_keeps_range(count, pairs);
    assert(pairs_exist(count, earlier)) by {
        assert forall|j: int| 0 <= j < earlier.len() implies 0 <= (#[trigger] earlier[j]).0 < count
            && 0 <= earlier[j].1 < count by {
            assert(0 <= pairs[j].0 < count);
        }
    }
    lemma_merging_keeps_range(count, earlier);
    assert(0 <= pairs[i].0 < count);
    assert(0 <= pairs[pairs.len() - 1].0 < count);
    if i < earlier.len() {
        lemma_pair_shares_a_set(count, earlier, i);
        assert(earlier[i] == pairs[i]);
    }
}

proof fn lemma_way_stays_in_a_set(count: nat, pairs: Seq<(int, int)>, nodes: Seq<int>)
    requires
        pairs_exist(count, pairs),
        is_way(count, pairs, nodes),
    ensures
        all_merged(singles(count), pairs)[nodes[0]] == all_merged(singles(count), pairs)[nodes.last()],
    decreases nodes.len(),
{
    if nodes.len() > 1 {
        let shorter = nodes.drop_last();
        assert(is_way(count, pairs, shorter)) by {
            assert forall|i: int| 0 <= i < shorter.len() implies 0 <= #[trigger] shorter[i] < count
                by {
                assert(0 <= nodes[i] < count);
            }
            assert forall|i: int, j: int|
                #![trigger shorter[i], shorter[j]]
                0 <= i && j == i + 1 && j < shorter.len() implies are_joined(
                pairs,
                shorter[i],
                shorter[j],
            ) by {
                assert(are_joined(pairs, nodes[i], nodes[j]));
            }
        }
        lemma_way_stays_in_a_set(count, pairs, shorter);
        let a = nodes[nodes.len() - 2];
        let b = nodes[nodes.len() - 1];
        assert(are_joined(pairs, a, b));
        if pairs.contains((a, b)) {
            let i = choose|i: int| 0 <= i < pairs.len() && pairs[i] == (a, b);
            lemma_pair_shares_a_set(count, pairs, i);
        } else {
            let i = choose|i: int| 0 <= i < pairs.len() && pairs[i] == (b, a);
            lemma_pair_shares_a_set(count, pairs, i);
        }
    }
}

proof fn lemma_longer_way(
    count: nat,
    pairs: Seq<(int, int)>,
    more: Seq<(int, int)>,
    nodes: Seq<int>,
)
    requires
        is_way(count, pairs, nodes),
        forall|p: (int, int)| pairs.contains(p) ==> #[trigger] more.contains(p),
    ensures
        is_way(count, more, nodes),
{
    assert forall|i: int, j: int|
        #![trigger nodes[i], nodes[j]]
        0 <= i && j == i + 1 && j < nodes.len() implies are_joined(more, nodes[i], nodes[j]) by {
        assert(are_joined(pairs, nodes[i], nodes[j]));
    }
}

proof fn lemma_ways_meet(count: nat, pairs: Seq<(int, int)>, a: int, b: int, c: int, d: int)
    requires
        are_connected(count, pairs, a, b),
        are_connected(count, pairs, c, d),
        are_joined(pairs, b, c),
    ensures
        are_connected(count, pairs, a, d),
{
    let first = choose|nodes: Seq<int>| #[trigger]
        is_way(count, pairs, nodes) && nodes[0] == a && nodes.last() == b;
    let second = choose|nodes: Seq<int>| #[trigger]
        is_way(count, pairs, nodes) && nodes[0] == c && nodes.last() == d;
    let whole = first + second;
    assert forall|i: int| 0 <= i < whole.len() implies 0 <= #[trigger] whole[i] < count by {
        if i < first.len() {
            assert(0 <= first[i] < count);
        } else {
            assert(0 <= second[i - first.len()] < count);
        }
    }
    assert forall|i: int, j: int|
        #![trigger whole[i], whole[j]]
        0 <= i && j == i + 1 && j < whole.len() implies are_joined(pairs, whole[i], whole[j]) by {
        if j < first.len() {
            assert(are_joined(pairs, first[i], first[j]));
        } else if i >= first.len() {
            assert(are_joined(pairs, second[i - first.len()], second[j - first.len()]));
        } else {
            assert(whole[i] == b && whole[j] == c);
        }
    }
    assert(is_way(count, pairs, whole));
    assert(whole[0] == a && whole.last() == d);
}

proof fn lemma_set_is_connected(count: nat, pairs: Seq<(int, int)>, a: int, b: int)
    requires
        pairs_exist(count, pairs),
        0 <= a < count,
        0 <= b < count,
        all_merged(singles(count), pairs)[a] == all_merged(singles(count), pairs)[b],
    ensures
        are_connected(count, pairs, a, b),
    decreases pairs.len(),
{
    if pairs.len() == 0 {
        assert(is_way(count, pairs, seq![a]));
        assert(seq![a].last() == b);
    } else {
        let earlier = pairs.drop_last();
        let reps = all_merged(singles(count), earlier);
        let l = pairs.last().0;
        let r = pairs.last().1;
        assert(pairs_exist(count, earlier)) by {
            assert forall|j: int| 0 <= j < earlier.len() implies 0 <= (#[trigger] earlier[j]).0
                < count && 0 <= earlier[j].1 < count by {
                assert(0 <= pairs[j].0 < count);
            }
        }
        lemma_merging_keeps_range(count, earlier);
        assert(0 <= pairs[pairs.len() - 1].0 < count && 0 <= pairs[pairs.len() - 1].1 < count);
        assert forall|p: (int, int)| earlier.contains(p) implies #[trigger] pairs.contains(p) by {
            let i = choose|i: int| 0 <= i < earlier.len() && earlier[i] == p;
            assert(pairs[i] == p);
        }
        assert(pairs[pairs.len() - 1] == (l, r));
        assert(pairs.contains((l, r)));
        if reps[a] == reps[b] {
            lemma_set_is_connected(count, earlier, a, b);
            lemma_more_pairs(count, earlier, pairs, a, b);
        } else if reps[a] == reps[r] {
            // The set of `a` went over to that of `b`.
            lemma_set_is_connected(count, earlier, a, r);
            lemma_set_is_connected(count, earlier, l, b);
            lemma_more_pairs(count, earlier, pairs, a, r);
            lemma_more_pairs(count, earlier, pairs, l, b);
            lemma_ways_meet(count, pairs, a, r, l, b);
        } else {
            lemma_set_is_connected(count, earlier, a, l);
            lemma_set_is_connected(count, earlier, r, b);
            lemma_more_pairs(count, earlier, pairs, a, l);
            lemma_more_pairs(count, earlier, pairs, r, b);
            lemma_ways_meet(count, pairs, a, l, r, b);
        }
    }
}

proof fn lemma_more_pairs(
    count: nat,
    pairs: Seq<(int, int)>,
    more: Seq<(int, int)>,
    a: int,
    b: int,
)
    requires
        are_connected(count, pairs, a, b),
        forall|p: (int, int)| pairs.contains(p) ==> #[trigger] more.contains(p),
    ensures
        are_connected(count, more, a, b),
{
    let nodes = choose|nodes: Seq<int>| #[trigger]
        is_way(count, pairs, nodes) && nodes[0] == a && nodes.last() == b;
    lemma_longer_way(count, pairs, more, nodes);
}

/// Two things end up in one set exactly where some way of pairs leads from one to
/// the other.
pub proof fn law_sets_are_the_connected_parts(count: nat, pairs: Seq<(int, int)>, a: int, b: int)
    requires
        pairs_exist(count, pairs),
        0 <= a < count,
        0 <= b < count,
    ensures
        all_merged(singles(count), pairs)[a] == all_merged(singles(count), pairs)[b]
            <==> are_connected(count, pairs, a, b),
{
    if all_merged(singles(count), pairs)[a] == all_merged(singles(count), pairs)[b] {
        lemma_set_is_connected(count, pairs, a, b);
    }
    if are_connected(count, pairs, a, b) {
        let nodes = choose|nodes: Seq<int>| #[trigger]
            is_way(count, pairs, nodes) && nodes[0] == a && nodes.last() == b;
        lemma_way_stays_in_a_set(count, pairs, nodes);
    }
}

/// One text comes before another in the order of its characters.
pub open spec fn precedes(a: Seq<char>, b: Seq<char>) -> bool
    decreases a.len(),
{
    if b.len() == 0 {
        false
    } else if a.len() == 0 {
        true
    } else {
        a[0] < b[0] || (a[0] == b[0] && precedes(a.drop_first(), b.drop_first()))
    }
}

/// Whether one text comes before another.
pub fn text_precedes(a: &String, b: &String) -> (yes: bool)
    ensures
        yes == precedes(a@, b@),
{
    let a_len: usize = a.as_str().unicode_len();
    let b_len: usize = b.as_str().unicode_len();
    let mut index: usize = 0;
    assert(a@.skip(0) =~= a@);
    assert(b@.skip(0) =~= b@);
    while index < a_len && index < b_len
        invariant
            index <= a_len,
            index <= b_len,
            a_len == a@.len(),
            b_len == b@.len(),
            precedes(a@, b@) == precedes(a@.skip(index as int), b@.skip(index as int)),
        decreases a_len - index,
    {
        let x: char = a.as_str().get_char(index);
        let y: char = b.as_str().get_char(index);
        assert(a@.skip(index as int).drop_first() =~= a@.skip(index + 1));
        assert(b@.skip(index as int).drop_first() =~= b@.skip(index + 1));
        if x < y {
            return true;
        }
        if x != y {
            return false;
        }
        index += 1;
    }
    index < b_len
}

proof fn lemma_order_is_strict(a: Seq<char>, b: Seq<char>)
    ensures
        !precedes(a, a),
        precedes(a, b) ==> !precedes(b, a),
        a != b ==> precedes(a, b) || precedes(b, a),
    decreases a.len(),
{
    if a.len() > 0 && b.len() > 0 {
        lemma_order_is_strict(a.drop_first(), b.drop_first());
        if a[0] == b[0] && a.drop_first() == b.drop_first() {
            assert(a =~= seq![a[0]] + a.drop_first());
            assert(b =~= seq![b[0]] + b.drop_first());
        }
    } else if a.len() > 0 {
        lemma_order_is_strict(a.drop_first(), a.drop_first());
    } else {
        assert(b.len() == 0 ==> a =~= b);
    }
}

proof fn lemma_order_chains(a: Seq<char>, b: Seq<char>, c: Seq<char>)
    requires
        precedes(a, b),
        precedes(b, c),
    ensures
        precedes(a, c),
    decreases a.len(),
{
    if a.len() > 0 && a[0] == b[0] && b[0] == c[0] {
        lemma_order_chains(a.drop_first(), b.drop_first(), c.drop_first());
    }
}

/// How many of the first `to` numbers have a property.
pub open spec fn count_where(p: spec_fn(int) -> bool, to: int) -> nat
    decreases to,
{
    if to <= 0 {
        0
    } else {
        count_where(p, to - 1) + if p(to - 1) {
            1nat
        } else {
            0
        }
    }
}

pub open spec fn is_representative(reps: Seq<int>) -> spec_fn(int) -> bool {
    |k: int| reps[k] == k
}

pub open spec fn ranks_before(
    names: Seq<Seq<char>>,
    reps: Seq<int>,
    root: int,
) -> spec_fn(int) -> bool {
    |k: int| reps[k] == k && precedes(names[k], names[root])
}

/// The number of a thing's set: how many sets have a representative whose name
/// comes before that of its own.
pub open spec fn set_number(names: Seq<Seq<char>>, reps: Seq<int>, k: int) -> nat {
    count_where(ranks_before(names, reps, reps[k]), reps.len() as int)
}

/// How many sets there are.
pub open spec fn set_count(reps: Seq<int>) -> nat {
    count_where(is_representative(reps), reps.len() as int)
}

proof fn lemma_count_bounds(p: spec_fn(int) -> bool, q: spec_fn(int) -> bool, to: int)
    requires
        forall|k: int| 0 <= k < to && #[trigger] p(k) ==> q(k),
    ensures
        count_where(p, to) <= count_where(q, to),
        to >= 0 ==> count_where(q, to) <= to,
    decreases to,
{
    if to > 0 {
        lemma_count_bounds(p, q, to - 1);
    }
}

proof fn lemma_count_gains(
    p: spec_fn(int) -> bool,
    q: spec_fn(int) -> bool,
    to: int,
    extra: int,
)
    requires
        forall|k: int| 0 <= k < to && #[trigger] p(k) ==> q(k),
        0 <= extra < to,
        q(extra),
        !p(extra),
    ensures
        count_where(p, to) < count_where(q, to),
    decreases to,
{
    if extra == to - 1 {
        lemma_count_bounds(p, q, to - 1);
    } else {
        lemma_count_gains(p, q, to - 1, extra);
    }
}

impl JointSets {
    /// How many sets there are.
    pub fn count(&self) -> (count: usize)
        requires
            self.is_sound(),
        ensures
            count == set_count(self.representatives()),
    {
        let mut count: usize = 0;
        let mut index: usize = 0;
        let ghost p = is_representative(self.reps@);
        while index < self.parent.len()
            invariant
                self.is_sound(),
                p == is_representative(self.reps@),
                index <= self.parent@.len(),
                count <= index,
                count == count_where(p, index as int),
            decreases self.parent@.len() - index,
        {
            assert(leads_up(self.parent@, self.reps@, self.depth@, index as int));
            if self.parent[index] == index {
                count += 1;
            }
            index += 1;
        }
        count
    }

    /// The number of the set whose representative is `root`.
    pub fn number(&self, root: usize) -> (number: usize)
        requires
            self.is_sound(),
            root < self.names().len(),
            self.representatives()[root as int] == root,
        ensures
            number == set_number(self.names(), self.representatives(), root as int),
            number < set_count(self.representatives()),
    {
        let mut number: usize = 0;
        let mut index: usize = 0;
        let ghost p = ranks_before(self.names(), self.reps@, root as int);
        while index < self.parent.len()
            invariant
                self.is_sound(),
                root < self.keys@.len(),
                p == ranks_before(self.names(), self.reps@, root as int),
                index <= self.parent@.len(),
                number <= index,
                number == count_where(p, index as int),
            decreases self.parent@.len() - index,
        {
            assert(leads_up(self.parent@, self.reps@, self.depth@, index as int));
            if self.parent[index] == index && text_precedes(&self.keys[index], &self.keys[root]) {
                number += 1;
            }
            index += 1;
        }
        proof {
            lemma_order_is_strict(self.names()[root as int], self.names()[root as int]);
            lemma_count_gains(
                p,
                is_representative(self.reps@),
                self.parent@.len() as int,
                root as int,
            );
        }
        number
    }
}

/// Sets are numbered apart: two things have the same number exactly where they
/// are in one set, and every number is below the count of the sets.
pub proof fn law_sets_are_numbered_apart(
    names: Seq<Seq<char>>,
    reps: Seq<int>,
    a: int,
    b: int,
)
    requires
        names.len() == reps.len(),
        forall|i: int, j: int|
            0 <= i < j < names.len() ==> #[trigger] names[i] != #[trigger] names[j],
        forall|k: int| 0 <= k < reps.len() ==> stands_for_itself(#[trigger] reps[k], reps),
        0 <= a < reps.len(),
        0 <= b < reps.len(),
    ensures
        set_number(names, reps, a) == set_number(names, reps, b) <==> reps[a] == reps[b],
        set_number(names, reps, a) < set_count(reps),
{
    lemma_order_is_strict(names[reps[a]], names[reps[b]]);
    assert(stands_for_itself(reps[a], reps));
    assert(stands_for_itself(reps[b], reps));
    lemma_count_gains(
        ranks_before(names, reps, reps[a]),
        is_representative(reps),
        reps.len() as int,
        reps[a],
    );
    if reps[a] != reps[b] {
        assert(names[reps[a]] != names[reps[b]]) by {
            if reps[a] < reps[b] {
                assert(names[reps[a]] != names[reps[b]]);
            } else {
                assert(names[reps[b]] != names[reps[a]]);
            }
        }
        if precedes(names[reps[a]], names[reps[b]]) {
            lemma_ranks_gain(names, reps, reps[a], reps[b]);
        } else {
            lemma_ranks_gain(names, reps, reps[b], reps[a]);
        }
    }
}

proof fn lemma_ranks_gain(names: Seq<Seq<char>>, reps: Seq<int>, x: int, y: int)
    requires
        0 <= x < reps.len(),
        0 <= y < reps.len(),
        reps[x] == x,
        precedes(names[x], names[y]),
    ensures
        count_where(ranks_before(names, reps, x), reps.len() as int) < count_where(
            ranks_before(names, reps, y),
            reps.len() as int,
        ),
{
    let p = ranks_before(names, reps, x);
    let q = ranks_before(names, reps, y);
    lemma_order_is_strict(names[x], names[x]);
    assert forall|k: int| 0 <= k < reps.len() && #[trigger] p(k) implies q(k) by {
        lemma_order_chains(names[k], names[x], names[y]);
    }
    lemma_count_gains(p, q, reps.len() as int, x);
}

proof fn lemma_count_one_more(p: spec_fn(int) -> bool, q: spec_fn(int) -> bool, to: int, x: int)
    requires
        0 <= x < to,
        !p(x),
        forall|k: int| 0 <= k < to ==> (#[trigger] q(k) <==> p(k) || k == x),
    ensures
        count_where(q, to) == count_where(p, to) + 1,
    decreases to,
{
    if x < to - 1 {
        lemma_count_one_more(p, q, to - 1, x);
        assert(q(to - 1) == p(to - 1));
    } else {
        lemma_count_same(p, q, to - 1);
        assert(q(x));
    }
}

proof fn lemma_count_same(p: spec_fn(int) -> bool, q: spec_fn(int) -> bool, to: int)
    requires
        forall|k: int| 0 <= k < to ==> #[trigger] q(k) == p(k),
    ensures
        count_where(q, to) == count_where(p, to),
    decreases to,
{
    if to > 0 {
        lemma_count_same(p, q, to - 1);
        assert(q(to - 1) == p(to - 1));
    }
}

proof fn lemma_count_finds(p: spec_fn(int) -> bool, to: int)
    requires
        count_where(p, to) > 0,
    ensures
        exists|k: int| 0 <= k < to && #[trigger] p(k),
    decreases to,
{
    if to > 0 && !p(to - 1) {
        lemma_count_finds(p, to - 1);
    }
}

/// Of the things with a property, one whose name comes before those of the others.
proof fn lemma_first_name(names: Seq<Seq<char>>, p: spec_fn(int) -> bool, to: int) -> (first: int)
    requires
        to <= names.len(),
        forall|i: int, j: int|
            0 <= i < j < names.len() ==> #[trigger] names[i] != #[trigger] names[j],
        exists|k: int| 0 <= k < to && #[trigger] p(k),
    ensures
        0 <= first < to,
        p(first),
        forall|k: int| 0 <= k < to && k != first && #[trigger] p(k) ==> precedes(names[first], names[k]),
    decreases to,
{
    if exists|k: int| 0 <= k < to - 1 && #[trigger] p(k) {
        let first = lemma_first_name(names, p, to - 1);
        if p(to - 1) {
            lemma_order_is_strict(names[first], names[to - 1]);
            assert(names[first] != names[to - 1]);
            if precedes(names[to - 1], names[first]) {
                assert forall|k: int| 0 <= k < to && k != to - 1 && #[trigger] p(k) implies precedes(
                    names[to - 1],
                    names[k],
                ) by {
                    if k != first {
                        lemma_order_chains(names[to - 1], names[first], names[k]);
                    }
                }
                to - 1
            } else {
                first
            }
        } else {
            first
        }
    } else {
        to - 1
    }
}

/// Every number below the count of the sets is the number of one of them.
pub proof fn law_every_number_is_taken(names: Seq<Seq<char>>, reps: Seq<int>, number: nat) -> (root:
    int)
    requires
        names.len() == reps.len(),
        forall|i: int, j: int|
            0 <= i < j < names.len() ==> #[trigger] names[i] != #[trigger] names[j],
        number < set_count(reps),
    ensures
        0 <= root < reps.len(),
        reps[root] == root,
        set_number(names, reps, root) == number,
    decreases number,
{
    let n = reps.len() as int;
    let is_rep = is_representative(reps);
    if number == 0 {
        lemma_count_finds(is_rep, n);
        let root = lemma_first_name(names, is_rep, n);
        let before = ranks_before(names, reps, root);
        assert forall|k: int| 0 <= k < n implies !#[trigger] before(k) by {
            lemma_order_is_strict(names[root], names[k]);
            if before(k) {
                assert(is_rep(k));
                if k != root {
                    assert(precedes(names[root], names[k]));
                }
            }
        }
        if count_where(before, n) > 0 {
            lemma_count_finds(before, n);
        }
        root
    } else {
        let x = law_every_number_is_taken(names, reps, (number - 1) as nat);
        let upto_x = ranks_before(names, reps, x);
        let after = |k: int| reps[k] == k && precedes(names[x], names[k]);
        let through_x = |k: int| upto_x(k) || k == x;
        lemma_order_is_strict(names[x], names[x]);
        lemma_count_one_more(upto_x, through_x, n, x);
        if !exists|k: int| 0 <= k < n && #[trigger] after(k) {
            assert forall|k: int| 0 <= k < n implies #[trigger] through_x(k) == is_rep(k) by {
                lemma_order_is_strict(names[x], names[k]);
                assert(!after(k));
                if k < x {
                    assert(names[k] != names[x]);
                } else if x < k {
                    assert(names[x] != names[k]);
                }
            }
            lemma_count_same(is_rep, through_x, n);
            assert(false);
        }
        let root = lemma_first_name(names, after, n);
        let upto = ranks_before(names, reps, root);
        assert forall|k: int| 0 <= k < n implies (#[trigger] upto(k) <==> upto_x(k) || k == x) by {
            lemma_order_is_strict(names[x], names[k]);
            lemma_order_is_strict(names[root], names[k]);
            if k < x {
                assert(names[k] != names[x]);
            } else if x < k {
                assert(names[x] != names[k]);
            }
            if upto_x(k) {
                lemma_order_chains(names[k], names[x], names[root]);
            }
            if upto(k) && !upto_x(k) && k != x {
                assert(after(k));
                if k != root {
                    assert(precedes(names[root], names[k]));
                }
            }
        }
        lemma_count_one_more(upto_x, upto, n, x);
        root
    }
}

/// Whatever the two things of each pair have in common, all things of a set have
/// in common.
pub proof fn law_a_set_holds_nothing_else(
    count: nat,
    pairs: Seq<(int, int)>,
    label: spec_fn(int) -> int,
    a: int,
    b: int,
)
    requires
        pairs_exist(count, pairs),
        forall|i: int|
            0 <= i < pairs.len() ==> label((#[trigger] pairs[i]).0) == label(pairs[i].1),
        0 <= a < count,
        0 <= b < count,
        all_merged(singles(count), pairs)[a] == all_merged(singles(count), pairs)[b],
    ensures
        label(a) == label(b),
{
    lemma_set_has_one_label(count, pairs, label, a);
    lemma_set_has_one_label(count, pairs, label, b);
}

proof fn lemma_set_has_one_label(
    count: nat,
    pairs: Seq<(int, int)>,
    label: spec_fn(int) -> int,
    k: int,
)
    requires
        pairs_exist(count, pairs),
        forall|i: int|
            0 <= i < pairs.len() ==> label((#[trigger] pairs[i]).0) == label(pairs[i].1),
        0 <= k < count,
    ensures
        label(all_merged(singles(count), pairs)[k]) == label(k),
    decreases pairs.len(),
{
    if pairs.len() > 0 {
        let earlier = pairs.drop_last();
        assert forall|i: int| 0 <= i < earlier.len() implies label((#[trigger] earlier[i]).0)
            == label(earlier[i].1) && 0 <= earlier[i].0 < count && 0 <= earlier[i].1 < count by {
            assert(label(pairs[i].0) == label(pairs[i].1));
        }
        let last = pairs[pairs.len() - 1];
        assert(label(last.0) == label(last.1));
        lemma_merging_keeps_range(count, earlier);
        lemma_set_has_one_label(count, earlier, label, k);
        lemma_set_has_one_label(count, earlier, label, last.0);
        lemma_set_has_one_label(count, earlier, label, last.1);
    }
}

/// The two things of each pair are in one set.
pub proof fn law_a_pair_shares_a_set(count: nat, pairs: Seq<(int, int)>, i: int)
    requires
        pairs_exist(count, pairs),
        0 <= i < pairs.len(),
    ensures
        all_merged(singles(count), pairs)[pairs[i].0] == all_merged(singles(count), pairs)[pairs[i].1],
{
    lemma_pair_shares_a_set(count, pairs, i);
}

/// A representative stands for its own set, whatever was merged.
pub proof fn lemma_representatives_stand_for_themselves(count: nat, pairs: Seq<(int, int)>)
    requires
        pairs_exist(count, pairs),
    ensures
        all_merged(singles(count), pairs).len() == count,
        forall|k: int|
            0 <= k < count ==> stands_for_itself(
                #[trigger] all_merged(singles(count), pairs)[k],
                all_merged(singles(count), pairs),
            ),
    decreases pairs.len(),
{
    if pairs.len() > 0 {
        let earlier = pairs.drop_last();
        assert(pairs_exist(count, earlier)) by {
            assert forall|j: int| 0 <= j < earlier.len() implies 0 <= (#[trigger] earlier[j]).0
                < count && 0 <= earlier[j].1 < count by {
                assert(0 <= pairs[j].0 < count);
            }
        }
        lemma_representatives_stand_for_themselves(count, earlier);
        let before = all_merged(singles(count), earlier);
        let reps = all_merged(singles(count), pairs);
        let l = pairs.last().0;
        let r = pairs.last().1;
        assert(0 <= pairs[pairs.len() - 1].0 < count && 0 <= pairs[pairs.len() - 1].1 < count);
        assert forall|k: int| 0 <= k < count implies stands_for_itself(
            #[trigger] reps[k],
            reps,
        ) by {
            assert(stands_for_itself(before[k], before));
            assert(stands_for_itself(before[l], before));
        }
    }
}

/// One pair more is merged last.
pub proof fn lemma_one_pair_more(reps: Seq<int>, pairs: Seq<(int, int)>, pair: (int, int))
    ensures
        all_merged(reps, pairs.push(pair)) == merged(all_merged(reps, pairs), pair.0, pair.1),
{
    assert(pairs.push(pair).drop_last() =~= pairs);
}

/// Sets are numbered in the order of their representatives' names.
pub proof fn law_sets_are_numbered_in_order(names: Seq<Seq<char>>, reps: Seq<int>, a: int, b: int)
    requires
        names.len() == reps.len(),
        forall|i: int, j: int|
            0 <= i < j < names.len() ==> #[trigger] names[i] != #[trigger] names[j],
        forall|k: int| 0 <= k < reps.len() ==> stands_for_itself(#[trigger] reps[k], reps),
        0 <= a < reps.len(),
        0 <= b < reps.len(),
        precedes(names[reps[a]], names[reps[b]]),
    ensures
        set_number(names, reps, a) < set_number(names, reps, b),
{
    assert(stands_for_itself(reps[a], reps));
    assert(stands_for_itself(reps[b], reps));
    lemma_order_is_strict(names[reps[a]], names[reps[b]]);
    lemma_ranks_gain(names, reps, reps[a], reps[b]);
}

proof fn lemma_order_at(a: Seq<char>, b: Seq<char>, k: int)
    requires
        0 <= k <= a.len(),
        k <= b.len(),
        a.take(k) == b.take(k),
    ensures
        k == a.len() && k < b.len() ==> precedes(a, b),
        k == b.len() ==> !precedes(a, b),
        k < a.len() && k < b.len() && a[k] < b[k] ==> precedes(a, b),
        k < a.len() && k < b.len() && a[k] > b[k] ==> !precedes(a, b),
    decreases k,
{
    if k > 0 {
        assert(a.take(k)[0] == a[0]);
        assert(b.take(k)[0] == b[0]);
        let x = a.drop_first();
        let y = b.drop_first();
        assert(x.take(k - 1) =~= a.take(k).drop_first());
        assert(y.take(k - 1) =~= b.take(k).drop_first());
        lemma_order_at(x, y, k - 1);
    }
}

/// Texts are ordered by the first character in which they differ, and a text that is
/// merely the beginning of another comes before it.
pub proof fn law_texts_are_ordered_by_their_first_difference(
    a: String,
    b: String,
    k: int,
    yes: bool,
)
    requires
        call_ensures(text_precedes, (&a, &b), yes),
        0 <= k <= a@.len(),
        k <= b@.len(),
        a@.take(k) == b@.take(k),
    ensures
        k == a@.len() && k < b@.len() ==> yes,
        k == b@.len() ==> !yes,
        k < a@.len() && k < b@.len() && a@[k] < b@[k] ==> yes,
        k < a@.len() && k < b@.len() && a@[k] > b@[k] ==> !yes,
{
    lemma_order_at(a@, b@, k);
}

/// A union joins two sets under the representative of the first, and leaves all others.
pub proof fn law_union_joins_two_sets(sets: &mut JointSets, left: usize, right: usize, k: int)
    requires
        old(sets).is_sound(),
        left < old(sets).names().len(),
        right < old(sets).names().len(),
        call_ensures(JointSets::union, (sets, left, right), ()),
        0 <= k < old(sets).representatives().len(),
    ensures
        ({
            let before = old(sets).representatives();
            let after = final(sets).representatives();
            &&& final(sets).names() == old(sets).names()
            &&& after.len() == before.len()
            &&& before[k] == before[right as int] || before[k] == before[left as int] ==> after[k]
                == before[left as int]
            &&& before[k] != before[right as int] && before[k] != before[left as int] ==> after[k]
                == before[k]
        }),
{
}

/// A thing that is new is added at the end, in a set of its own; one that is there is not
/// added again.
pub proof fn law_new_thing_stands_alone(sets: &mut JointSets, key: String, k: int)
    requires
        old(sets).is_sound(),
        old(sets).representatives() == singles(old(sets).names().len()),
        call_ensures(JointSets::insert_key, (sets, key), ()),
        0 <= k < old(sets).names().len(),
    ensures
        final(sets).names().contains(key@),
        final(sets).names()[k] == old(sets).names()[k],
        !old(sets).names().contains(key@) ==> final(sets).names().len() == old(sets).names().len()
            + 1 && final(sets).names().last() == key@ && final(sets).representatives().last()
            == old(sets).names().len(),
        old(sets).names().contains(key@) ==> final(sets).names() == old(sets).names(),
        final(sets).representatives()[k] == k,
{
    if !old(sets).names().contains(key@) {
        let grown = old(sets).names().push(key@);
        assert(grown[old(sets).names().len() as int] == key@);
    }
}

/// A thing is found by its name, and its set by its representative; looking changes no
/// set.
pub proof fn law_thing_is_found(
    sets: JointSets,
    key: String,
    found: Option<usize>,
    looked: &mut JointSets,
    index: usize,
    root: usize,
)
    requires
        sets.is_sound(),
        call_ensures(JointSets::position, (&sets, &key), found),
        old(looked).is_sound(),
        index < old(looked).names().len(),
        call_ensures(JointSets::find, (looked, index), root),
    ensures
        found is Some <==> sets.names().contains(key@),
        found matches Some(i) ==> sets.names()[i as int] == key@,
        root == old(looked).representatives()[index as int],
        final(looked).representatives() == old(looked).representatives(),
        final(looked).names() == old(looked).names(),
{
    if let Some(i) = found {
        assert(sets.names()[i as int] == key@);
    }
}

} // verus!

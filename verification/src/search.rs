//! The first index that has a property.
use vstd::prelude::*;

verus! {

/// The lowest index from `from` on, and under `to`, of which `p` holds.
pub open spec fn first_where(p: spec_fn(int) -> bool, from: int, to: int) -> Option<int>
    decreases to - from,
{
    if from >= to {
        None
    } else if p(from) {
        Some(from)
    } else {
        first_where(p, from + 1, to)
    }
}

/// What `first_where` finds: the lowest index, or none at all.
pub proof fn lemma_first_where_holds(p: spec_fn(int) -> bool, from: int, to: int)
    ensures
        match first_where(p, from, to) {
            Some(i) => from <= i < to && p(i) && forall|j: int| from <= j < i ==> !#[trigger] p(j),
            None => forall|j: int| from <= j < to ==> !#[trigger] p(j),
        },
    decreases to - from,
{
    if from < to && !p(from) {
        lemma_first_where_holds(p, from + 1, to);
    }
}

} // verus!

//! Checking the scoping of a plan.
use vstd::prelude::*;
use std::collections::BTreeSet;
use crate::plan::tree::{spec_distinct, LocalId, Plan, PlanNode};

verus! {

/// Enters the names `ids` into `bound`, one after the other, as long as
/// they are new. Returns the number of names that were entered: all of
/// them exactly if the names are distinct and none of them was bound.
fn enter(bound: &mut BTreeSet<LocalId>, ids: &Vec<LocalId>) -> (entered: usize)
    ensures
        entered <= ids@.len(),
        final(bound)@ == old(bound)@.union(ids@.take(entered as int).to_set()),
        spec_distinct(ids@.take(entered as int)),
        forall|i: int| 0 <= i < entered ==> !old(bound)@.contains(#[trigger] ids@[i]),
        entered == ids@.len() <==> (spec_distinct(ids@) && forall|i: int|
            0 <= i < ids@.len() ==> !old(bound)@.contains(#[trigger] ids@[i])),
{
    let mut k: usize = 0;
    while k < ids.len()
        invariant
            k <= ids.len(),
            bound@ == old(bound)@.union(ids@.take(k as int).to_set()),
            spec_distinct(ids@.take(k as int)),
            forall|i: int| 0 <= i < k ==> !old(bound)@.contains(#[trigger] ids@[i]),
        decreases ids.len() - k,
    {
        let ghost done = ids@.take(k as int);
        let ghost next = ids@.take(k as int + 1);
        proof {
            crate::plan::interpret::api::lemma_take_contains(ids@, k as int);
        }
        if bound.contains(&ids[k]) {
            proof {
                if spec_distinct(ids@) && (forall|i: int|
                    0 <= i < ids@.len() ==> !old(bound)@.contains(#[trigger] ids@[i])) {
                    assert(!old(bound)@.contains(ids@[k as int]));
                    assert(done.contains(ids@[k as int]));
                    let j = choose|j: int| 0 <= j < done.len() && done[j] == ids@[k as int];
                    assert(ids@[j] == ids@[k as int]);
                }
            }
            return k;
        }
        let _ = bound.insert(ids[k]);
        proof {
            assert(!done.contains(ids@[k as int]));
            assert(next.to_set() =~= done.to_set().insert(ids@[k as int])) by {
                assert forall|x: LocalId| next.to_set().contains(x) <==> done.to_set().insert(
                    ids@[k as int],
                ).contains(x) by {
                    assert(next.contains(x) <==> (done.contains(x) || x == ids@[k as int]));
                }
            }
            assert(bound@ =~= old(bound)@.union(next.to_set()));
            assert(spec_distinct(next)) by {
                assert forall|i: int, j: int| 0 <= i < j < next.len() implies next[i]
                    != next[j] by {
                    if j == k {
                        if next[i] == next[j] {
                            assert(done[i] == ids@[k as int]);
                        }
                    } else {
                        assert(done[i] == next[i] && done[j] == next[j]);
                    }
                }
            }
        }
        k = k + 1;
    }
    proof {
        assert(ids@.take(ids@.len() as int) =~= ids@);
    }
    k
}

/// Takes the first `entered` of the names `ids` out of `bound`.
fn leave(bound: &mut BTreeSet<LocalId>, ids: &Vec<LocalId>, entered: usize)
    requires
        entered <= ids@.len(),
    ensures
        final(bound)@ == old(bound)@.difference(ids@.take(entered as int).to_set()),
{
    let mut k: usize = 0;
    while k < entered
        invariant
            k <= entered <= ids@.len(),
            bound@ == old(bound)@.difference(ids@.take(k as int).to_set()),
        decreases entered - k,
    {
        let ghost done = ids@.take(k as int);
        let ghost next = ids@.take(k as int + 1);
        proof {
            crate::plan::interpret::api::lemma_take_contains(ids@, k as int);
        }
        let _ = bound.remove(&ids[k]);
        proof {
            assert(bound@ =~= old(bound)@.difference(next.to_set())) by {
                assert forall|x: LocalId| next.contains(x) <==> (done.contains(x) || x == ids@[k as int]) by {}
            }
        }
        k = k + 1;
    }
}

impl<T> Plan<T> {
    /// Checks the scoping of the plan, with the names `bound` bound outside
    /// it: whether no `Let` or `LetRec` of the plan binds a name that is
    /// bound where it stands, each `LetRec` binds distinct names, and each
    /// has one value for each of its names. `bound` serves as scratch space
    /// and is left as it was found.
    pub fn is_scoped(&self, bound: &mut BTreeSet<LocalId>) -> (b: bool)
        ensures
            b == self.spec_scoped(old(bound)@),
            final(bound)@ == old(bound)@,
        decreases self,
    {
        match &self.node {
            PlanNode::Constant { .. } => true,
            PlanNode::Get { .. } => true,
            PlanNode::Let { id, value, body } => {
                if bound.contains(id) {
                    return false;
                }
                if !value.is_scoped(bound) {
                    return false;
                }
                let _ = bound.insert(*id);
                let ok = body.is_scoped(bound);
                let _ = bound.remove(id);
                proof {
                    assert(bound@ =~= old(bound)@);
                }
                ok
            },
            PlanNode::LetRec { ids, values, limits, body } => {
                if ids.len() != values.len() {
                    return false;
                }
                let entered = enter(bound, ids);
                let mut ok = entered == ids.len();
                if ok {
                    proof {
                        assert(ids@.take(ids@.len() as int) =~= ids@);
                    }
                    ok = are_scoped(values, bound) && body.is_scoped(bound);
                }
                leave(bound, ids, entered);
                proof {
                    let taken = ids@.take(entered as int).to_set();
                    assert(bound@ =~= old(bound)@) by {
                        assert forall|x: LocalId| old(bound)@.contains(x) implies !taken.contains(
                            x,
                        ) by {
                            if taken.contains(x) {
                                let j = choose|j: int|
                                    0 <= j < ids@.take(entered as int).len() && ids@.take(
                                        entered as int,
                                    )[j] == x;
                                assert(ids@[j] == x);
                            }
                        }
                    }
                }
                ok
            },
            PlanNode::Mfp { input, .. } => input.is_scoped(bound),
            PlanNode::FlatMap { input, .. } => input.is_scoped(bound),
            PlanNode::Join { inputs, .. } => are_scoped(inputs, bound),
            PlanNode::Reduce { input, .. } => input.is_scoped(bound),
            PlanNode::TopK { input, .. } => input.is_scoped(bound),
            PlanNode::Negate { input } => input.is_scoped(bound),
            PlanNode::Threshold { input, .. } => input.is_scoped(bound),
            PlanNode::Union { inputs, .. } => are_scoped(inputs, bound),
            PlanNode::ArrangeBy { input, .. } => input.is_scoped(bound),
        }
    }
}

/// Checks the scoping of each of `plans`, with the names `bound` bound
/// outside them.
pub fn are_scoped<T>(plans: &Vec<Plan<T>>, bound: &mut BTreeSet<LocalId>) -> (b: bool)
    ensures
        b == (forall|i: int| 0 <= i < plans@.len() ==> (#[trigger] plans@[i]).spec_scoped(
            old(bound)@,
        )),
        final(bound)@ == old(bound)@,
    decreases plans,
{
    let mut i: usize = 0;
    while i < plans.len()
        invariant
            i <= plans.len(),
            bound@ == old(bound)@,
            forall|j: int| 0 <= j < i ==> (#[trigger] plans@[j]).spec_scoped(old(bound)@),
        decreases plans.len() - i,
    {
        if !plans[i].is_scoped(bound) {
            return false;
        }
        i = i + 1;
    }
    true
}

} // verus!

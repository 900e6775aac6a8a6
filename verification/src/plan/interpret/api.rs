//! The interface of an abstract interpreter, and the context that the folds
//! keep for it.
use vstd::prelude::*;
use std::collections::BTreeMap;
use crate::expr::error::EvalError;
use crate::expr::linear::MapFilterProject;
use crate::expr::scalar::MirScalarExpr;
use crate::plan::join::JoinPlan;
use crate::plan::tree::{
    AvailableCollections, GetPlan, Id, KeyValPlan, LetRecLimit, LocalId, ReducePlan, TableFunc,
    ThresholdPlan, TopKPlan,
};
use crate::repr::datum::Diff;
use crate::repr::row::Row;

verus! {

/// The greatest nesting of operators that a fold descends into.
pub const RECURSION_LIMIT: usize = 2048;

/// The number of rounds after which the iteration of a `LetRec` gives up
/// and falls back to the top element for all its bindings.
pub const MAX_LET_REC_ITERATIONS: u64 = 100;

/// The failure of a fold: the plan nests deeper than the limit.
#[derive(Clone, Copy, Debug, PartialEq, Eq, Structural)]
pub struct RecursionLimitError {
    /// The limit that was exceeded.
    pub limit: usize,
}

/// Counts the nesting of a recursive descent and stops it at a limit.
#[derive(Debug)]
pub struct RecursionGuard {
    depth: usize,
    limit: usize,
}

impl RecursionGuard {
    /// The number of descents that have not been ascended from.
    pub closed spec fn depth(&self) -> nat {
        self.depth as nat
    }

    /// The greatest depth that the guard admits.
    pub closed spec fn limit(&self) -> nat {
        self.limit as nat
    }

    /// A guard at depth zero that admits `limit` nested descents.
    pub fn with_limit(limit: usize) -> (g: RecursionGuard)
        ensures
            g.depth() == 0,
            g.limit() == limit,
    {
        RecursionGuard { depth: 0, limit }
    }

    /// Descends one level. Fails, and changes nothing, where the depth has
    /// reached the limit.
    pub fn descend(&mut self) -> (r: Result<(), RecursionLimitError>)
        ensures
            final(self).limit() == old(self).limit(),
            old(self).depth() < old(self).limit() ==> r is Ok && final(self).depth() == old(
                self,
            ).depth() + 1,
            old(self).depth() >= old(self).limit() ==> r == Err::<(), RecursionLimitError>(
                RecursionLimitError { limit: old(self).limit() as usize },
            ) && final(self).depth() == old(self).depth(),
    {
        if self.depth < self.limit {
            self.depth = self.depth + 1;
            Ok(())
        } else {
            Err(RecursionLimitError { limit: self.limit })
        }
    }

    /// Ascends one level.
    pub fn ascend(&mut self)
        requires
            old(self).depth() > 0,
        ensures
            final(self).limit() == old(self).limit(),
            final(self).depth() == old(self).depth() - 1,
    {
        self.depth = self.depth - 1;
    }
}

/// A lattice with a `top` and a `bottom` element.
///
/// The folds start the iteration of recursive bindings at `bottom`, merge
/// each new estimate into the old one with `join_assign`, compare estimates
/// with `same`, and fall back to `top` where the iteration is cut short.
pub trait BoundedLattice: Sized {
    /// The top element: the most general approximation.
    open spec fn spec_top() -> Self {
        arbitrary()
    }

    /// The bottom element: the most constrained approximation.
    open spec fn spec_bottom() -> Self {
        arbitrary()
    }

    /// The least upper bound of two elements.
    open spec fn spec_join(&self, other: &Self) -> Self {
        arbitrary()
    }

    /// The top element of this lattice.
    fn top() -> (t: Self)
        ensures
            t == Self::spec_top(),
    ;

    /// The bottom element of this lattice.
    fn bottom() -> (b: Self)
        ensures
            b == Self::spec_bottom(),
    ;

    /// Replaces `self` by the least upper bound of `self` and `other`.
    fn join_assign(&mut self, other: &Self)
        ensures
            *final(self) == old(self).spec_join(other),
    ;

    /// Whether two elements are the same element.
    fn same(&self, other: &Self) -> (b: bool)
        ensures
            b == (*self == *other),
    ;

    /// A copy of the element.
    fn duplicate(&self) -> (d: Self)
        ensures
            d == *self,
    ;
}

/// An entry of the context: what one binding that is visible stands for.
#[derive(Debug)]
pub struct ContextEntry<Domain> {
    /// Whether the binding is one of a `LetRec`.
    pub is_rec: bool,
    /// The lattice value of the binding.
    pub value: Domain,
}

impl<Domain> ContextEntry<Domain> {
    /// The entry of a binding of a `Let`.
    pub open spec fn spec_of_let(value: Domain) -> Self {
        ContextEntry { is_rec: false, value }
    }

    /// The entry of a binding of a `LetRec`.
    pub open spec fn spec_of_let_rec(value: Domain) -> Self {
        ContextEntry { is_rec: true, value }
    }

    /// Makes the entry of a binding of a `Let`.
    pub fn of_let(value: Domain) -> (e: Self)
        ensures
            e == Self::spec_of_let(value),
    {
        Self { is_rec: false, value }
    }

    /// Makes the entry of a binding of a `LetRec`.
    pub fn of_let_rec(value: Domain) -> (e: Self)
        ensures
            e == Self::spec_of_let_rec(value),
    {
        Self { is_rec: true, value }
    }
}

/// The context of an interpreter: the bindings that are visible, and
/// whether an enclosing `LetRec` is still being iterated.
#[derive(Debug)]
pub struct InterpreterContext<Domain> {
    /// The bindings currently in the context.
    pub bindings: BTreeMap<LocalId, ContextEntry<Domain>>,
    /// Whether one of the ancestors is a `LetRec` whose values are being
    /// interpreted.
    pub is_rec: bool,
}

/// The context of an interpreter.
pub type Context<Domain> = InterpreterContext<Domain>;

/// A context as a mathematical value.
#[verifier::ext_equal]
pub struct ContextView<Domain> {
    /// The entry of each visible binding.
    pub bindings: Map<LocalId, ContextEntry<Domain>>,
    /// Whether the context is recursive.
    pub is_rec: bool,
}

impl<Domain> View for InterpreterContext<Domain> {
    type V = ContextView<Domain>;

    open spec fn view(&self) -> ContextView<Domain> {
        ContextView { bindings: self.bindings@, is_rec: self.is_rec }
    }
}

impl<Domain> Default for InterpreterContext<Domain> {
    fn default() -> (c: Self)
        ensures
            c@ == ContextView::<Domain>::spec_empty(),
    {
        InterpreterContext { bindings: BTreeMap::new(), is_rec: false }
    }
}

impl<Domain> ContextView<Domain> {
    /// The context without bindings, outside any `LetRec`.
    pub open spec fn spec_empty() -> Self {
        ContextView { bindings: Map::empty(), is_rec: false }
    }

    /// The names that are bound.
    pub open spec fn bound(self) -> Set<LocalId> {
        self.bindings.dom()
    }

    /// The context with `id` bound to `entry`.
    pub open spec fn bind(self, id: LocalId, entry: ContextEntry<Domain>) -> Self {
        ContextView { bindings: self.bindings.insert(id, entry), is_rec: self.is_rec }
    }

    /// The context without a binding of `id`.
    pub open spec fn unbind(self, id: LocalId) -> Self {
        ContextView { bindings: self.bindings.remove(id), is_rec: self.is_rec }
    }

    /// The context with each of `ids` bound to `entry`.
    pub open spec fn bind_all(self, ids: Seq<LocalId>, entry: ContextEntry<Domain>) -> Self {
        ContextView {
            bindings: Map::new(
                |k: LocalId| self.bindings.contains_key(k) || ids.contains(k),
                |k: LocalId|
                    if ids.contains(k) {
                        entry
                    } else {
                        self.bindings[k]
                    },
            ),
            is_rec: self.is_rec,
        }
    }

    /// The context without a binding of any of `ids`.
    pub open spec fn unbind_all(self, ids: Seq<LocalId>) -> Self {
        ContextView { bindings: self.bindings.remove_keys(ids.to_set()), is_rec: self.is_rec }
    }

    /// The values that the names `ids` are bound to, in order.
    pub open spec fn values_of(self, ids: Seq<LocalId>) -> Seq<Domain> {
        Seq::new(ids.len(), |i: int| self.bindings[ids[i]].value)
    }

    /// The context with its recursion flag set to `is_rec`.
    pub open spec fn with_rec(self, is_rec: bool) -> Self {
        ContextView { bindings: self.bindings, is_rec }
    }
}

impl<Domain> InterpreterContext<Domain> {
    /// Reports whether `id` is bound.
    pub fn is_bound(&self, id: &LocalId) -> (b: bool)
        ensures
            b == self@.bound().contains(*id),
    {
        self.bindings.contains_key(id)
    }

    /// Binds a name that is not bound.
    pub fn bind(&mut self, id: LocalId, entry: ContextEntry<Domain>)
        requires
            !old(self)@.bound().contains(id),
        ensures
            final(self)@ == old(self)@.bind(id, entry),
    {
        let old_entry = self.bindings.insert(id, entry);
        assert(old_entry is None);
    }

    /// Binds a name, be it bound or not.
    pub fn rebind(&mut self, id: LocalId, entry: ContextEntry<Domain>)
        ensures
            final(self)@ == old(self)@.bind(id, entry),
    {
        let _ = self.bindings.insert(id, entry);
    }

    /// Takes the binding of a name out of the context, if it has one.
    pub fn unbind(&mut self, id: &LocalId)
        ensures
            final(self)@ == old(self)@.unbind(*id),
    {
        let _ = self.bindings.remove(id);
    }

    /// Takes the bindings of all of `ids` out of the context.
    pub fn unbind_all(&mut self, ids: &Vec<LocalId>)
        ensures
            final(self)@ == old(self)@.unbind_all(ids@),
    {
        let mut k: usize = 0;
        while k < ids.len()
            invariant
                k <= ids.len(),
                self@ == old(self)@.unbind_all(ids@.take(k as int)),
            decreases ids.len() - k,
        {
            self.unbind(&ids[k]);
            proof {
                let done = ids@.take(k as int);
                let next = ids@.take(k as int + 1);
                assert(next =~= done.push(ids@[k as int]));
                assert(next.to_set() =~= done.to_set().insert(ids@[k as int])) by {
                    assert forall|x: LocalId| next.to_set().contains(x) <==> done.to_set().insert(
                        ids@[k as int],
                    ).contains(x) by {
                        if done.contains(x) {
                            let j = choose|j: int| 0 <= j < done.len() && done[j] == x;
                            assert(next[j] == x);
                        }
                        if x == ids@[k as int] {
                            assert(next[k as int] == x);
                        }
                    }
                }
                assert(old(self)@.bindings.remove_keys(done.to_set()).remove(ids@[k as int])
                    =~= old(self)@.bindings.remove_keys(next.to_set()));
            }
            k = k + 1;
        }
        proof {
            assert(ids@.take(ids@.len() as int) =~= ids@);
        }
    }

    /// The lattice value that a bound name stands for.
    pub fn value_of(&self, id: &LocalId) -> (v: &Domain)
        requires
            self@.bound().contains(*id),
        ensures
            *v == self@.bindings[*id].value,
    {
        let entry = self.bindings.get(id);
        &entry.unwrap().value
    }
}

impl<Domain: BoundedLattice> InterpreterContext<Domain> {
    /// Binds each of `ids` to the bottom element, as a recursive binding.
    pub fn bind_bottoms(&mut self, ids: &Vec<LocalId>)
        requires
            forall|i: int| 0 <= i < ids@.len() ==> !old(self)@.bound().contains(#[trigger] ids@[i]),
            crate::plan::tree::spec_distinct(ids@),
        ensures
            final(self)@ == old(self)@.bind_all(
                ids@,
                ContextEntry::spec_of_let_rec(Domain::spec_bottom()),
            ),
    {
        let mut k: usize = 0;
        while k < ids.len()
            invariant
                k <= ids.len(),
                forall|i: int|
                    0 <= i < ids@.len() ==> !old(self)@.bound().contains(#[trigger] ids@[i]),
                crate::plan::tree::spec_distinct(ids@),
                self@ == old(self)@.bind_all(
                    ids@.take(k as int),
                    ContextEntry::spec_of_let_rec(Domain::spec_bottom()),
                ),
            decreases ids.len() - k,
        {
            let new_entry = ContextEntry::of_let_rec(Domain::bottom());
            proof {
                lemma_take_contains(ids@, k as int);
                let done = ids@.take(k as int);
                assert(!done.contains(ids@[k as int])) by {
                    if done.contains(ids@[k as int]) {
                        let j = choose|j: int| 0 <= j < done.len() && done[j] == ids@[k as int];
                        assert(ids@[j] == ids@[k as int]);
                    }
                }
            }
            self.bind(ids[k], new_entry);
            proof {
                lemma_bind_all_step(
                    old(self)@,
                    ids@,
                    k as int,
                    ContextEntry::spec_of_let_rec(Domain::spec_bottom()),
                );
            }
            k = k + 1;
        }
        proof {
            assert(ids@.take(ids@.len() as int) =~= ids@);
        }
    }

    /// Copies of the values that the names `ids` are bound to, in order.
    pub fn values_of(&self, ids: &Vec<LocalId>) -> (values: Vec<Domain>)
        requires
            forall|i: int| 0 <= i < ids@.len() ==> self@.bound().contains(#[trigger] ids@[i]),
        ensures
            values@ == self@.values_of(ids@),
    {
        let mut values: Vec<Domain> = Vec::new();
        let mut k: usize = 0;
        while k < ids.len()
            invariant
                k <= ids.len(),
                forall|i: int| 0 <= i < ids@.len() ==> self@.bound().contains(#[trigger] ids@[i]),
                values@.len() == k,
                forall|i: int| 0 <= i < k ==> values@[i] == self@.bindings[ids@[i]].value,
            decreases ids.len() - k,
        {
            values.push(self.value_of(&ids[k]).duplicate());
            k = k + 1;
        }
        proof {
            assert(values@ =~= self@.values_of(ids@));
        }
        values
    }

    /// Binds each of `ids` to the top element, as a recursive binding,
    /// whatever it was bound to.
    pub fn reset_tops(&mut self, ids: &Vec<LocalId>)
        ensures
            final(self)@ == old(self)@.bind_all(
                ids@,
                ContextEntry::spec_of_let_rec(Domain::spec_top()),
            ),
    {
        let mut k: usize = 0;
        while k < ids.len()
            invariant
                k <= ids.len(),
                self@ == old(self)@.bind_all(
                    ids@.take(k as int),
                    ContextEntry::spec_of_let_rec(Domain::spec_top()),
                ),
            decreases ids.len() - k,
        {
            let new_entry = ContextEntry::of_let_rec(Domain::top());
            self.rebind(ids[k], new_entry);
            proof {
                lemma_bind_all_step(
                    old(self)@,
                    ids@,
                    k as int,
                    ContextEntry::spec_of_let_rec(Domain::spec_top()),
                );
            }
            k = k + 1;
        }
        proof {
            assert(ids@.take(ids@.len() as int) =~= ids@);
        }
    }
}

/// An element is among the first `k + 1` elements of a sequence exactly if
/// it is among the first `k` or is the one after them.
pub proof fn lemma_take_contains(ids: Seq<LocalId>, k: int)
    requires
        0 <= k < ids.len(),
    ensures
        forall|x: LocalId|
            ids.take(k + 1).contains(x) <==> (ids.take(k).contains(x) || x == ids[k]),
{
    let done = ids.take(k);
    let next = ids.take(k + 1);
    assert forall|x: LocalId| next.contains(x) <==> (done.contains(x) || x == ids[k]) by {
        if next.contains(x) {
            let j = choose|j: int| 0 <= j < next.len() && next[j] == x;
            if j < k {
                assert(done[j] == x);
            }
        }
        if done.contains(x) {
            let j = choose|j: int| 0 <= j < done.len() && done[j] == x;
            assert(next[j] == x);
        }
        if x == ids[k] {
            assert(next[k] == x);
        }
    }
}

/// Binding the first `k + 1` names is binding the first `k` and then the
/// one after them.
pub proof fn lemma_bind_all_step<Domain>(
    ctx: ContextView<Domain>,
    ids: Seq<LocalId>,
    k: int,
    entry: ContextEntry<Domain>,
)
    requires
        0 <= k < ids.len(),
    ensures
        ctx.bind_all(ids.take(k), entry).bind(ids[k], entry) == ctx.bind_all(ids.take(k + 1), entry),
{
    let done = ids.take(k);
    let next = ids.take(k + 1);
    let stepped = ctx.bind_all(done, entry).bind(ids[k], entry).bindings;
    let whole = ctx.bind_all(next, entry).bindings;
    lemma_take_contains(ids, k);
    assert forall|x: LocalId| stepped.contains_key(x) <==> whole.contains_key(x) by {
        assert(next.contains(x) <==> (done.contains(x) || x == ids[k]));
    }
    assert forall|x: LocalId| stepped.contains_key(x) implies stepped[x] == whole[x] by {
        assert(next.contains(x) <==> (done.contains(x) || x == ids[k]));
    }
    assert(stepped =~= whole);
}

/// The least of the bounds that `limits` gives, if it gives any.
pub open spec fn spec_min_max_iter(limits: Seq<Option<LetRecLimit>>) -> Option<u64>
    decreases limits.len(),
{
    if limits.len() == 0 {
        None
    } else {
        let rest = spec_min_max_iter(limits.drop_last());
        match limits.last() {
            None => rest,
            Some(l) => match rest {
                None => Some(l.max_iters),
                Some(m) => if l.max_iters < m {
                    Some(l.max_iters)
                } else {
                    Some(m)
                },
            },
        }
    }
}

impl LetRecLimit {
    /// The least of the iteration bounds among `limits`: `None` where no
    /// binding has a bound, else a bound that one of them has and that none
    /// of them goes below.
    pub fn min_max_iter(limits: &Vec<Option<LetRecLimit>>) -> (m: Option<u64>)
        ensures
            m == spec_min_max_iter(limits@),
            m is None <==> forall|i: int| 0 <= i < limits@.len() ==> limits@[i] is None,
            m matches Some(least) ==> {
                &&& exists|i: int|
                    0 <= i < limits@.len() && limits@[i] is Some && limits@[i]->Some_0.max_iters
                        == least
                &&& forall|i: int|
                    0 <= i < limits@.len() && limits@[i] is Some ==> least
                        <= limits@[i]->Some_0.max_iters
            },
    {
        let mut least: Option<u64> = None;
        let mut k: usize = 0;
        while k < limits.len()
            invariant
                k <= limits.len(),
                least == spec_min_max_iter(limits@.take(k as int)),
                least is None <==> forall|i: int| 0 <= i < k ==> limits@[i] is None,
                least matches Some(v) ==> {
                    &&& exists|i: int|
                        0 <= i < k && limits@[i] is Some && limits@[i]->Some_0.max_iters == v
                    &&& forall|i: int|
                        0 <= i < k && limits@[i] is Some ==> v <= limits@[i]->Some_0.max_iters
                },
            decreases limits.len() - k,
        {
            proof {
                assert(limits@.take(k as int + 1).drop_last() =~= limits@.take(k as int));
                assert(limits@.take(k as int + 1).last() == limits@[k as int]);
            }
            match limits[k] {
                None => {},
                Some(l) => {
                    least = match least {
                        None => Some(l.max_iters),
                        Some(v) => if l.max_iters < v {
                            Some(l.max_iters)
                        } else {
                            Some(v)
                        },
                    };
                },
            }
            k = k + 1;
        }
        proof {
            assert(limits@.take(limits@.len() as int) =~= limits@);
        }
        least
    }
}

/// An abstract interpreter of plans.
///
/// There is one method for each kind of operator but `Let` and `LetRec`:
/// those bring names into the context and are the business of the folds.
/// Each method is a function of its arguments, which its specification
/// function names.
pub trait Interpreter<T> {
    /// The lattice that the interpreter computes in.
    type Domain;

    /// The value of a constant collection.
    open spec fn spec_constant(
        &self,
        ctx: ContextView<Self::Domain>,
        rows: &Result<Vec<(Row, T, Diff)>, EvalError>,
    ) -> Self::Domain {
        arbitrary()
    }

    /// The value of a reference to a collection.
    open spec fn spec_get(
        &self,
        ctx: ContextView<Self::Domain>,
        id: &Id,
        keys: &AvailableCollections,
        plan: &GetPlan,
    ) -> Self::Domain {
        arbitrary()
    }

    /// The value of a map, filter and project over `input`.
    open spec fn spec_mfp(
        &self,
        ctx: ContextView<Self::Domain>,
        input: Self::Domain,
        mfp: &MapFilterProject,
        input_key_val: &Option<(Vec<MirScalarExpr>, Option<Row>)>,
    ) -> Self::Domain {
        arbitrary()
    }

    /// The value of a flat map over `input`.
    open spec fn spec_flat_map(
        &self,
        ctx: ContextView<Self::Domain>,
        input: Self::Domain,
        func: &TableFunc,
        exprs: &Vec<MirScalarExpr>,
        mfp: &MapFilterProject,
        input_key: &Option<Vec<MirScalarExpr>>,
    ) -> Self::Domain {
        arbitrary()
    }

    /// The value of a join of `inputs`.
    open spec fn spec_join(
        &self,
        ctx: ContextView<Self::Domain>,
        inputs: Seq<Self::Domain>,
        plan: &JoinPlan,
    ) -> Self::Domain {
        arbitrary()
    }

    /// The value of a reduction of `input`.
    open spec fn spec_reduce(
        &self,
        ctx: ContextView<Self::Domain>,
        input: Self::Domain,
        key_val_plan: &KeyValPlan,
        plan: &ReducePlan,
        input_key: &Option<Vec<MirScalarExpr>>,
        mfp_after: &MapFilterProject,
    ) -> Self::Domain {
        arbitrary()
    }

    /// The value of a top-k of `input`.
    open spec fn spec_top_k(
        &self,
        ctx: ContextView<Self::Domain>,
        input: Self::Domain,
        top_k_plan: &TopKPlan,
    ) -> Self::Domain {
        arbitrary()
    }

    /// The value of the negation of `input`.
    open spec fn spec_negate(&self, ctx: ContextView<Self::Domain>, input: Self::Domain) -> Self::Domain {
        arbitrary()
    }

    /// The value of a threshold over `input`.
    open spec fn spec_threshold(
        &self,
        ctx: ContextView<Self::Domain>,
        input: Self::Domain,
        threshold_plan: &ThresholdPlan,
    ) -> Self::Domain {
        arbitrary()
    }

    /// The value of a union of `inputs`.
    open spec fn spec_union(
        &self,
        ctx: ContextView<Self::Domain>,
        inputs: Seq<Self::Domain>,
        consolidate_output: bool,
    ) -> Self::Domain {
        arbitrary()
    }

    /// The value of an arrangement of `input`.
    open spec fn spec_arrange_by(
        &self,
        ctx: ContextView<Self::Domain>,
        input: Self::Domain,
        forms: &AvailableCollections,
        input_key: &Option<Vec<MirScalarExpr>>,
        input_mfp: &MapFilterProject,
    ) -> Self::Domain {
        arbitrary()
    }

    /// Interprets a constant collection.
    fn constant(
        &self,
        ctx: &Context<Self::Domain>,
        rows: &Result<Vec<(Row, T, Diff)>, EvalError>,
    ) -> (d: Self::Domain)
        ensures
            d == self.spec_constant(ctx@, rows),
    ;

    /// Interprets a reference to a collection.
    fn get(
        &self,
        ctx: &Context<Self::Domain>,
        id: &Id,
        keys: &AvailableCollections,
        plan: &GetPlan,
    ) -> (d: Self::Domain)
        ensures
            d == self.spec_get(ctx@, id, keys, plan),
    ;

    /// Interprets a map, filter and project.
    fn mfp(
        &self,
        ctx: &Context<Self::Domain>,
        input: Self::Domain,
        mfp: &MapFilterProject,
        input_key_val: &Option<(Vec<MirScalarExpr>, Option<Row>)>,
    ) -> (d: Self::Domain)
        ensures
            d == self.spec_mfp(ctx@, input, mfp, input_key_val),
    ;

    /// Interprets a flat map.
    fn flat_map(
        &self,
        ctx: &Context<Self::Domain>,
        input: Self::Domain,
        func: &TableFunc,
        exprs: &Vec<MirScalarExpr>,
        mfp: &MapFilterProject,
        input_key: &Option<Vec<MirScalarExpr>>,
    ) -> (d: Self::Domain)
        ensures
            d == self.spec_flat_map(ctx@, input, func, exprs, mfp, input_key),
    ;

    /// Interprets a join.
    fn join(&self, ctx: &Context<Self::Domain>, inputs: Vec<Self::Domain>, plan: &JoinPlan) -> (d:
        Self::Domain)
        ensures
            d == self.spec_join(ctx@, inputs@, plan),
    ;

    /// Interprets a reduction.
    fn reduce(
        &self,
        ctx: &Context<Self::Domain>,
        input: Self::Domain,
        key_val_plan: &KeyValPlan,
        plan: &ReducePlan,
        input_key: &Option<Vec<MirScalarExpr>>,
        mfp_after: &MapFilterProject,
    ) -> (d: Self::Domain)
        ensures
            d == self.spec_reduce(ctx@, input, key_val_plan, plan, input_key, mfp_after),
    ;

    /// Interprets a top-k.
    fn top_k(&self, ctx: &Context<Self::Domain>, input: Self::Domain, top_k_plan: &TopKPlan) -> (d:
        Self::Domain)
        ensures
            d == self.spec_top_k(ctx@, input, top_k_plan),
    ;

    /// Interprets a negation.
    fn negate(&self, ctx: &Context<Self::Domain>, input: Self::Domain) -> (d: Self::Domain)
        ensures
            d == self.spec_negate(ctx@, input),
    ;

    /// Interprets a threshold.
    fn threshold(
        &self,
        ctx: &Context<Self::Domain>,
        input: Self::Domain,
        threshold_plan: &ThresholdPlan,
    ) -> (d: Self::Domain)
        ensures
            d == self.spec_threshold(ctx@, input, threshold_plan),
    ;

    /// Interprets a union.
    fn union(&self, ctx: &Context<Self::Domain>, inputs: Vec<Self::Domain>, consolidate_output: bool)
        -> (d: Self::Domain)
        ensures
            d == self.spec_union(ctx@, inputs@, consolidate_output),
    ;

    /// Interprets an arrangement.
    fn arrange_by(
        &self,
        ctx: &Context<Self::Domain>,
        input: Self::Domain,
        forms: &AvailableCollections,
        input_key: &Option<Vec<MirScalarExpr>>,
        input_mfp: &MapFilterProject,
    ) -> (d: Self::Domain)
        ensures
            d == self.spec_arrange_by(ctx@, input, forms, input_key, input_mfp),
    ;
}

} // verus!

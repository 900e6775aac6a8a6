//! Laws of the folds.
use vstd::prelude::*;
use crate::plan::interpret::api::{
    BoundedLattice, ContextEntry, ContextView, Interpreter, RecursionLimitError,
};
use crate::plan::interpret::api::{spec_min_max_iter, MAX_LET_REC_ITERATIONS};
use crate::plan::interpret::fold::{
    spec_agree_outside, spec_cut_short, spec_fold, spec_fold_all, spec_iterate, spec_node,
    spec_round, FoldState,
};
use crate::plan::interpret::fold_mut::{
    spec_fold_all_mut, spec_fold_mut, spec_iterate_mut, spec_node_mut, spec_round_mut, Action,
    MutState, NoAction,
};
use crate::plan::tree::PlanView;
use crate::plan::tree::{spec_distinct, spec_tallest, spec_views, LocalId, Plan, PlanNode};

verus! {

/// The state of a mutating fold that did what a reading fold did, and left
/// `plan` as it was.
pub open spec fn spec_untouched<V, P, Domain>(f: FoldState<V, Domain>, plan: P) -> MutState<
    V,
    P,
    Domain,
    NoAction,
> {
    MutState { result: f.result, ctx: f.ctx, plan, action: NoAction }
}

/// With the action that does nothing, the mutating fold computes what the
/// reading fold computes: the same value or the same failure, and the same
/// context. It leaves the plan as it was. This holds of every plan in every
/// context and at every depth, so it holds of every operator of a plan.
pub proof fn lemma_fold_mut_without_action_is_fold<I, T>(
    interp: &I,
    expr: &Plan<T>,
    ctx: ContextView<I::Domain>,
    depth: nat,
    limit: nat,
) where I: Interpreter<T>, I::Domain: BoundedLattice
    ensures
        spec_fold_mut(interp, NoAction, expr@, ctx, depth, limit) == spec_untouched(
            spec_fold(interp, expr, ctx, depth, limit),
            expr@,
        ),
    decreases limit - depth, 0nat, 0nat,
{
    if depth < limit {
        lemma_node_mut_without_action_is_node(interp, expr, ctx, depth + 1, limit);
    }
}

/// The law of [`lemma_fold_mut_without_action_is_fold`], for the operator
/// at the root of a plan.
pub proof fn lemma_node_mut_without_action_is_node<I, T>(
    interp: &I,
    expr: &Plan<T>,
    ctx: ContextView<I::Domain>,
    depth: nat,
    limit: nat,
) where I: Interpreter<T>, I::Domain: BoundedLattice
    ensures
        spec_node_mut(interp, NoAction, expr@, ctx, depth, limit) == spec_untouched(
            spec_node(interp, expr, ctx, depth, limit),
            expr@,
        ),
    decreases limit - depth, 4nat, 0nat,
{
    match &expr.node {
        PlanNode::Constant { .. } => {},
        PlanNode::Get { .. } => {},
        PlanNode::Let { id, value, body } => {
            lemma_fold_mut_without_action_is_fold(interp, &**value, ctx, depth, limit);
            let v = spec_fold(interp, &**value, ctx, depth, limit);
            if let Ok(res_value) = v.result {
                lemma_fold_mut_without_action_is_fold(
                    interp,
                    &**body,
                    v.ctx.bind(*id, ContextEntry::spec_of_let(res_value)),
                    depth,
                    limit,
                );
            }
        },
        PlanNode::LetRec { ids, values, limits, body } => {
            let entered = ctx.with_rec(true).bind_all(
                ids@,
                ContextEntry::spec_of_let_rec(<I::Domain as BoundedLattice>::spec_bottom()),
            );
            let bound = crate::plan::interpret::api::spec_min_max_iter(limits@);
            lemma_iterate_mut_without_action_is_iterate(
                interp,
                ids@,
                values@,
                bound,
                entered,
                0,
                depth,
                limit,
            );
            let it = spec_iterate(interp, ids@, values@, bound, entered, 0, depth, limit);
            if it.result is Ok {
                lemma_fold_mut_without_action_is_fold(
                    interp,
                    &**body,
                    it.ctx.with_rec(ctx.is_rec),
                    depth,
                    limit,
                );
            }
        },
        PlanNode::Mfp { input, .. } => {
            lemma_fold_mut_without_action_is_fold(interp, &**input, ctx, depth, limit);
        },
        PlanNode::FlatMap { input, .. } => {
            lemma_fold_mut_without_action_is_fold(interp, &**input, ctx, depth, limit);
        },
        PlanNode::Join { inputs, .. } => {
            lemma_fold_all_mut_without_action_is_fold_all(
                interp,
                inputs@,
                ctx,
                0,
                Seq::empty(),
                depth,
                limit,
            );
        },
        PlanNode::Reduce { input, .. } => {
            lemma_fold_mut_without_action_is_fold(interp, &**input, ctx, depth, limit);
        },
        PlanNode::TopK { input, .. } => {
            lemma_fold_mut_without_action_is_fold(interp, &**input, ctx, depth, limit);
        },
        PlanNode::Negate { input } => {
            lemma_fold_mut_without_action_is_fold(interp, &**input, ctx, depth, limit);
        },
        PlanNode::Threshold { input, .. } => {
            lemma_fold_mut_without_action_is_fold(interp, &**input, ctx, depth, limit);
        },
        PlanNode::Union { inputs, .. } => {
            lemma_fold_all_mut_without_action_is_fold_all(
                interp,
                inputs@,
                ctx,
                0,
                Seq::empty(),
                depth,
                limit,
            );
        },
        PlanNode::ArrangeBy { input, .. } => {
            lemma_fold_mut_without_action_is_fold(interp, &**input, ctx, depth, limit);
        },
    }
}

/// The law of [`lemma_fold_mut_without_action_is_fold`], for the inputs of
/// an operator from position `i` on.
pub proof fn lemma_fold_all_mut_without_action_is_fold_all<I, T>(
    interp: &I,
    plans: Seq<Plan<T>>,
    ctx: ContextView<I::Domain>,
    i: int,
    done: Seq<I::Domain>,
    depth: nat,
    limit: nat,
) where I: Interpreter<T>, I::Domain: BoundedLattice
    ensures
        spec_fold_all_mut(interp, NoAction, spec_views(plans), ctx, i, done, depth, limit)
            == spec_untouched(
            spec_fold_all(interp, plans, ctx, i, done, depth, limit),
            spec_views(plans),
        ),
    decreases limit - depth, 1nat, plans.len() - i,
{
    if 0 <= i < plans.len() {
        lemma_fold_mut_without_action_is_fold(interp, &plans[i], ctx, depth, limit);
        let f = spec_fold(interp, &plans[i], ctx, depth, limit);
        assert(spec_views(plans).update(i, plans[i]@) =~= spec_views(plans));
        if let Ok(d) = f.result {
            lemma_fold_all_mut_without_action_is_fold_all(
                interp,
                plans,
                f.ctx,
                i + 1,
                done.push(d),
                depth,
                limit,
            );
        }
    }
}

/// The law of [`lemma_fold_mut_without_action_is_fold`], for one round of
/// the iteration of a `LetRec` from position `i` on.
pub proof fn lemma_round_mut_without_action_is_round<I, T>(
    interp: &I,
    ids: Seq<LocalId>,
    values: Seq<Plan<T>>,
    ctx: ContextView<I::Domain>,
    i: int,
    change: bool,
    depth: nat,
    limit: nat,
) where I: Interpreter<T>, I::Domain: BoundedLattice
    ensures
        spec_round_mut(interp, NoAction, ids, spec_views(values), ctx, i, change, depth, limit)
            == spec_untouched(
            spec_round(interp, ids, values, ctx, i, change, depth, limit),
            spec_views(values),
        ),
    decreases limit - depth, 2nat, ids.len() - i,
{
    if 0 <= i < ids.len() && i < values.len() {
        lemma_fold_mut_without_action_is_fold(interp, &values[i], ctx, depth, limit);
        let f = spec_fold(interp, &values[i], ctx, depth, limit);
        assert(spec_views(values).update(i, values[i]@) =~= spec_views(values));
        if let Ok(v) = f.result {
            let cur = f.ctx.bindings[ids[i]].value;
            let new = v.spec_join(&cur);
            if new == cur {
                lemma_round_mut_without_action_is_round(
                    interp,
                    ids,
                    values,
                    f.ctx,
                    i + 1,
                    change,
                    depth,
                    limit,
                );
            } else {
                lemma_round_mut_without_action_is_round(
                    interp,
                    ids,
                    values,
                    f.ctx.bind(ids[i], ContextEntry::spec_of_let_rec(new)),
                    i + 1,
                    true,
                    depth,
                    limit,
                );
            }
        }
    }
}

/// The law of [`lemma_fold_mut_without_action_is_fold`], for the iteration
/// of a `LetRec` from round `iter` on.
pub proof fn lemma_iterate_mut_without_action_is_iterate<I, T>(
    interp: &I,
    ids: Seq<LocalId>,
    values: Seq<Plan<T>>,
    bound: Option<u64>,
    ctx: ContextView<I::Domain>,
    iter: nat,
    depth: nat,
    limit: nat,
) where I: Interpreter<T>, I::Domain: BoundedLattice
    ensures
        spec_iterate_mut(interp, NoAction, ids, spec_views(values), bound, ctx, iter, depth, limit)
            == spec_untouched(
            spec_iterate(interp, ids, values, bound, ctx, iter, depth, limit),
            spec_views(values),
        ),
    decreases limit - depth, 3nat, crate::plan::interpret::api::MAX_LET_REC_ITERATIONS - iter,
{
    if !crate::plan::interpret::fold::spec_cut_short(bound, iter) {
        lemma_round_mut_without_action_is_round(interp, ids, values, ctx, 0, false, depth, limit);
        let r = spec_round(interp, ids, values, ctx, 0, false, depth, limit);
        if r.result == Ok::<bool, RecursionLimitError>(true) {
            lemma_iterate_mut_without_action_is_iterate(
                interp,
                ids,
                values,
                bound,
                r.ctx,
                iter + 1,
                depth,
                limit,
            );
        }
    }
}

/// A fold leaves the context as it found it, whether it succeeds or fails,
/// where the plan binds no name that is in sight where it is bound.
pub proof fn lemma_fold_restores_context<I, T>(
    interp: &I,
    expr: &Plan<T>,
    ctx: ContextView<I::Domain>,
    depth: nat,
    limit: nat,
) where I: Interpreter<T>, I::Domain: BoundedLattice
    requires
        expr.spec_scoped(ctx.bound()),
    ensures
        spec_fold(
            interp,
            expr,
            ctx,
            depth,
            limit,
        ).ctx == ctx,
    decreases limit - depth, 0nat, 0nat,
{
    if depth < limit {
        lemma_node_restores_context(interp, expr, ctx, depth + 1, limit);
    }
}

/// The law of [`lemma_fold_restores_context`], for the operator at the root
/// of a plan.
pub proof fn lemma_node_restores_context<I, T>(
    interp: &I,
    expr: &Plan<T>,
    ctx: ContextView<I::Domain>,
    depth: nat,
    limit: nat,
) where I: Interpreter<T>, I::Domain: BoundedLattice
    requires
        expr.spec_scoped(ctx.bound()),
    ensures
        spec_node(
            interp,
            expr,
            ctx,
            depth,
            limit,
        ).ctx == ctx,
    decreases limit - depth, 4nat, 0nat,
{
    match &expr.node {
        PlanNode::Constant { .. } => {},
        PlanNode::Get { .. } => {},
        PlanNode::Let { id, value, body } => {
            lemma_fold_restores_context(interp, &**value, ctx, depth, limit);
            let v = spec_fold(interp, &**value, ctx, depth, limit);
            if let Ok(res_value) = v.result {
                let inner = v.ctx.bind(*id, ContextEntry::spec_of_let(res_value));
                assert(inner.bound() =~= ctx.bound().insert(*id));
                lemma_fold_restores_context(interp, &**body, inner, depth, limit);
                let b = spec_fold(interp, &**body, inner, depth, limit);
                assert(b.ctx.unbind(*id).bindings =~= ctx.bindings);
            }
        },
        PlanNode::LetRec { ids, values, limits, body } => {
            let entered = ctx.with_rec(true).bind_all(
                ids@,
                ContextEntry::spec_of_let_rec(<I::Domain as BoundedLattice>::spec_bottom()),
            );
            assert(entered.bound() =~= ctx.bound().union(ids@.to_set()));
            assert forall|i: int| 0 <= i < ids@.len() implies entered.bound().contains(
                #[trigger] ids@[i],
            ) by {
                assert(ids@.contains(ids@[i]));
            }
            let bound = spec_min_max_iter(limits@);
            lemma_iterate_restores_context(interp, ids@, values@, bound, entered, 0, depth, limit);
            let it = spec_iterate(interp, ids@, values@, bound, entered, 0, depth, limit);
            let inner = it.ctx.with_rec(ctx.is_rec);
            crate::plan::interpret::fold::lemma_unbind_restores(ctx, inner, ids@);
            if it.result is Ok {
                lemma_fold_restores_context(interp, &**body, inner, depth, limit);
            }
        },
        PlanNode::Mfp { input, .. } => {
            lemma_fold_restores_context(interp, &**input, ctx, depth, limit);
        },
        PlanNode::FlatMap { input, .. } => {
            lemma_fold_restores_context(interp, &**input, ctx, depth, limit);
        },
        PlanNode::Join { inputs, .. } => {
            lemma_fold_all_restores_context(interp, inputs@, ctx, 0, Seq::empty(), depth, limit);
        },
        PlanNode::Reduce { input, .. } => {
            lemma_fold_restores_context(interp, &**input, ctx, depth, limit);
        },
        PlanNode::TopK { input, .. } => {
            lemma_fold_restores_context(interp, &**input, ctx, depth, limit);
        },
        PlanNode::Negate { input } => {
            lemma_fold_restores_context(interp, &**input, ctx, depth, limit);
        },
        PlanNode::Threshold { input, .. } => {
            lemma_fold_restores_context(interp, &**input, ctx, depth, limit);
        },
        PlanNode::Union { inputs, .. } => {
            lemma_fold_all_restores_context(interp, inputs@, ctx, 0, Seq::empty(), depth, limit);
        },
        PlanNode::ArrangeBy { input, .. } => {
            lemma_fold_restores_context(interp, &**input, ctx, depth, limit);
        },
    }
}

/// The law of [`lemma_fold_restores_context`], for the inputs of an
/// operator from position `i` on.
pub proof fn lemma_fold_all_restores_context<I, T>(
    interp: &I,
    plans: Seq<Plan<T>>,
    ctx: ContextView<I::Domain>,
    i: int,
    done: Seq<I::Domain>,
    depth: nat,
    limit: nat,
) where I: Interpreter<T>, I::Domain: BoundedLattice
    requires
        forall|j: int| 0 <= j < plans.len() ==> (#[trigger] plans[j]).spec_scoped(ctx.bound()),
    ensures
        spec_fold_all(
            interp,
            plans,
            ctx,
            i,
            done,
            depth,
            limit,
        ).ctx == ctx,
    decreases limit - depth, 1nat, plans.len() - i,
{
    if 0 <= i < plans.len() {
        lemma_fold_restores_context(interp, &plans[i], ctx, depth, limit);
        let f = spec_fold(interp, &plans[i], ctx, depth, limit);
        if let Ok(d) = f.result {
            lemma_fold_all_restores_context(interp, plans, f.ctx, i + 1, done.push(d), depth, limit);
        }
    }
}

/// A round changes no binding but those of the names of its `LetRec`, and
/// takes no name in or out, whether it succeeds or fails. A round that
/// reports no change leaves the context as it found it.
pub proof fn lemma_round_restores_context<I, T>(
    interp: &I,
    ids: Seq<LocalId>,
    values: Seq<Plan<T>>,
    ctx: ContextView<I::Domain>,
    i: int,
    change: bool,
    depth: nat,
    limit: nat,
) where I: Interpreter<T>, I::Domain: BoundedLattice
    requires
        forall|j: int| 0 <= j < ids.len() ==> ctx.bound().contains(#[trigger] ids[j]),
        forall|j: int| 0 <= j < values.len() ==> (#[trigger] values[j]).spec_scoped(ctx.bound()),
    ensures
        spec_agree_outside(
            spec_round(interp, ids, values, ctx, i, change, depth, limit).ctx,
            ctx,
            ids,
        ),
        spec_round(interp, ids, values, ctx, i, change, depth, limit).result matches Ok(c) ==> {
            &&& change ==> c
            &&& !c ==> spec_round(interp, ids, values, ctx, i, change, depth, limit).ctx == ctx
        },
    decreases limit - depth, 2nat, ids.len() - i,
{
    if 0 <= i < ids.len() && i < values.len() {
        lemma_fold_restores_context(interp, &values[i], ctx, depth, limit);
        let f = spec_fold(interp, &values[i], ctx, depth, limit);
        if let Ok(v) = f.result {
            let cur = f.ctx.bindings[ids[i]].value;
            let new = v.spec_join(&cur);
            if new == cur {
                lemma_round_restores_context(interp, ids, values, f.ctx, i + 1, change, depth, limit);
            } else {
                let next = f.ctx.bind(ids[i], ContextEntry::spec_of_let_rec(new));
                assert(next.bound() =~= ctx.bound());
                assert(ids.contains(ids[i]));
                lemma_round_restores_context(interp, ids, values, next, i + 1, true, depth, limit);
            }
        }
    }
}

/// An iteration changes no binding but those of the names of its `LetRec`,
/// and takes no name in or out, whether it succeeds or fails.
pub proof fn lemma_iterate_restores_context<I, T>(
    interp: &I,
    ids: Seq<LocalId>,
    values: Seq<Plan<T>>,
    bound: Option<u64>,
    ctx: ContextView<I::Domain>,
    iter: nat,
    depth: nat,
    limit: nat,
) where I: Interpreter<T>, I::Domain: BoundedLattice
    requires
        forall|j: int| 0 <= j < ids.len() ==> ctx.bound().contains(#[trigger] ids[j]),
        forall|j: int| 0 <= j < values.len() ==> (#[trigger] values[j]).spec_scoped(ctx.bound()),
    ensures
        spec_agree_outside(
            spec_iterate(interp, ids, values, bound, ctx, iter, depth, limit).ctx,
            ctx,
            ids,
        ),
    decreases limit - depth, 3nat, MAX_LET_REC_ITERATIONS - iter,
{
    if spec_cut_short(bound, iter) {
        let top = ContextEntry::spec_of_let_rec(<I::Domain as BoundedLattice>::spec_top());
        assert(ctx.bind_all(ids, top).bound() =~= ctx.bound()) by {
            assert forall|k: LocalId| ids.contains(k) implies ctx.bound().contains(k) by {
                let j = choose|j: int| 0 <= j < ids.len() && ids[j] == k;
                assert(ctx.bound().contains(ids[j]));
            }
        }
    } else {
        lemma_round_restores_context(interp, ids, values, ctx, 0, false, depth, limit);
        let r = spec_round(interp, ids, values, ctx, 0, false, depth, limit);
        if r.result == Ok::<bool, RecursionLimitError>(true) {
            lemma_iterate_restores_context(interp, ids, values, bound, r.ctx, iter + 1, depth, limit);
        }
    }
}

/// How the iteration of a `LetRec` ended.
pub enum Exit {
    /// A fold of a value failed.
    Failed,
    /// A round changed no binding, after `rounds` rounds that changed one.
    Converged { rounds: nat },
    /// The iteration was cut short, after `rounds` rounds that changed a
    /// binding.
    CutShort { rounds: nat },
}

/// How the iteration of a `LetRec` ends that stands before round `iter`.
pub open spec fn spec_exit<I, T>(
    interp: &I,
    ids: Seq<LocalId>,
    values: Seq<Plan<T>>,
    bound: Option<u64>,
    ctx: ContextView<I::Domain>,
    iter: nat,
    depth: nat,
    limit: nat,
) -> Exit where I: Interpreter<T>, I::Domain: BoundedLattice
    decreases MAX_LET_REC_ITERATIONS - iter,
{
    if spec_cut_short(bound, iter) {
        Exit::CutShort { rounds: iter }
    } else {
        let r = spec_round(interp, ids, values, ctx, 0, false, depth, limit);
        match r.result {
            Err(_) => Exit::Failed,
            Ok(false) => Exit::Converged { rounds: iter },
            Ok(true) => spec_exit(interp, ids, values, bound, r.ctx, iter + 1, depth, limit),
        }
    }
}

/// The iteration of a `LetRec` stops: it runs no more rounds that change a
/// binding than the general bound allows, nor more than the bound of the
/// plan allows where the plan has one. It fails exactly if a fold of a
/// value fails.
pub proof fn lemma_iteration_stops<I, T>(
    interp: &I,
    ids: Seq<LocalId>,
    values: Seq<Plan<T>>,
    bound: Option<u64>,
    ctx: ContextView<I::Domain>,
    iter: nat,
    depth: nat,
    limit: nat,
) where I: Interpreter<T>, I::Domain: BoundedLattice
    requires
        iter <= MAX_LET_REC_ITERATIONS,
        bound is Some ==> iter <= bound->Some_0,
    ensures
        match spec_exit(interp, ids, values, bound, ctx, iter, depth, limit) {
            Exit::Failed => spec_iterate(interp, ids, values, bound, ctx, iter, depth, limit).result is Err,
            Exit::Converged { rounds } => {
                &&& spec_iterate(interp, ids, values, bound, ctx, iter, depth, limit).result is Ok
                &&& iter <= rounds < MAX_LET_REC_ITERATIONS
                &&& bound is Some ==> rounds < bound->Some_0
            },
            Exit::CutShort { rounds } => {
                &&& spec_iterate(interp, ids, values, bound, ctx, iter, depth, limit).result is Ok
                &&& iter <= rounds <= MAX_LET_REC_ITERATIONS
                &&& bound is Some ==> rounds <= bound->Some_0
                &&& rounds == MAX_LET_REC_ITERATIONS || bound == Some(rounds as u64)
            },
        },
    decreases MAX_LET_REC_ITERATIONS - iter,
{
    if !spec_cut_short(bound, iter) {
        let r = spec_round(interp, ids, values, ctx, 0, false, depth, limit);
        if r.result == Ok::<bool, RecursionLimitError>(true) {
            lemma_iteration_stops(interp, ids, values, bound, r.ctx, iter + 1, depth, limit);
        }
    }
}

/// Where the iteration of a `LetRec` is cut short, every name of the
/// `LetRec` is bound to the top element, as a recursive binding.
pub proof fn lemma_cut_short_binds_top<I, T>(
    interp: &I,
    ids: Seq<LocalId>,
    values: Seq<Plan<T>>,
    bound: Option<u64>,
    ctx: ContextView<I::Domain>,
    iter: nat,
    depth: nat,
    limit: nat,
) where I: Interpreter<T>, I::Domain: BoundedLattice
    requires
        spec_exit(interp, ids, values, bound, ctx, iter, depth, limit) is CutShort,
    ensures
        forall|i: int|
            0 <= i < ids.len() ==> {
                let after = spec_iterate(interp, ids, values, bound, ctx, iter, depth, limit).ctx;
                &&& after.bindings.contains_key(#[trigger] ids[i])
                &&& after.bindings[ids[i]] == ContextEntry::spec_of_let_rec(
                    <I::Domain as BoundedLattice>::spec_top(),
                )
            },
    decreases MAX_LET_REC_ITERATIONS - iter,
{
    if spec_cut_short(bound, iter) {
        assert forall|i: int| 0 <= i < ids.len() implies ids.contains(#[trigger] ids[i]) by {}
    } else {
        let r = spec_round(interp, ids, values, ctx, 0, false, depth, limit);
        lemma_cut_short_binds_top(interp, ids, values, bound, r.ctx, iter + 1, depth, limit);
    }
}

/// Where the iteration of a `LetRec` ends because a round changed no
/// binding, it ends in a fixpoint: one more round from the context that it
/// left leaves that context as it is, and changes no binding.
pub proof fn lemma_converged_is_fixpoint<I, T>(
    interp: &I,
    ids: Seq<LocalId>,
    values: Seq<Plan<T>>,
    bound: Option<u64>,
    ctx: ContextView<I::Domain>,
    iter: nat,
    depth: nat,
    limit: nat,
) where I: Interpreter<T>, I::Domain: BoundedLattice
    requires
        forall|j: int| 0 <= j < ids.len() ==> ctx.bound().contains(#[trigger] ids[j]),
        forall|j: int| 0 <= j < values.len() ==> (#[trigger] values[j]).spec_scoped(ctx.bound()),
        spec_exit(interp, ids, values, bound, ctx, iter, depth, limit) is Converged,
    ensures
        ({
            let after = spec_iterate(interp, ids, values, bound, ctx, iter, depth, limit).ctx;
            spec_round(interp, ids, values, after, 0, false, depth, limit) == (FoldState {
                result: Ok(false),
                ctx: after,
            })
        }),
    decreases MAX_LET_REC_ITERATIONS - iter,
{
    let r = spec_round(interp, ids, values, ctx, 0, false, depth, limit);
    lemma_round_restores_context(interp, ids, values, ctx, 0, false, depth, limit);
    if r.result == Ok::<bool, RecursionLimitError>(true) {
        lemma_converged_is_fixpoint(interp, ids, values, bound, r.ctx, iter + 1, depth, limit);
    }
}

/// Whether `rank` measures the height of the lattice `Domain`: no element
/// ranks above `height`, and a join that changes its second argument ranks
/// strictly above it. A lattice has such a measure exactly if it has
/// finite height.
pub open spec fn spec_ranked<Domain: BoundedLattice>(rank: spec_fn(Domain) -> nat, height: nat) -> bool {
    &&& forall|a: Domain| #[trigger] rank(a) <= height
    &&& forall|a: Domain, b: Domain|
        a.spec_join(&b) != b ==> rank(#[trigger] a.spec_join(&b)) > rank(b)
}

/// The sum of the ranks of what the first `n` of `ids` are bound to.
pub open spec fn spec_potential<Domain>(
    ctx: ContextView<Domain>,
    ids: Seq<LocalId>,
    rank: spec_fn(Domain) -> nat,
    n: int,
) -> nat
    decreases n,
{
    if 0 < n <= ids.len() {
        spec_potential(ctx, ids, rank, n - 1) + rank(ctx.bindings[ids[n - 1]].value)
    } else {
        0
    }
}

/// The sum of the ranks of `n` bindings is at most `n` times the height.
pub proof fn lemma_potential_bounded<Domain: BoundedLattice>(
    ctx: ContextView<Domain>,
    ids: Seq<LocalId>,
    rank: spec_fn(Domain) -> nat,
    height: nat,
    n: int,
)
    requires
        spec_ranked(rank, height),
        0 <= n <= ids.len(),
    ensures
        spec_potential(ctx, ids, rank, n) <= n * height,
    decreases n,
{
    if n > 0 {
        lemma_potential_bounded(ctx, ids, rank, height, n - 1);
        assert(rank(ctx.bindings[ids[n - 1]].value) <= height);
        assert((n - 1) * height + height == n * height) by (nonlinear_arith);
    }
}

/// Binding one of distinct names anew changes the sum of the ranks by the
/// change of the rank of that name.
pub proof fn lemma_potential_rebind<Domain>(
    ctx: ContextView<Domain>,
    ids: Seq<LocalId>,
    rank: spec_fn(Domain) -> nat,
    n: int,
    i: int,
    entry: ContextEntry<Domain>,
)
    requires
        spec_distinct(ids),
        0 <= i < ids.len(),
        0 <= n <= ids.len(),
    ensures
        spec_potential(ctx.bind(ids[i], entry), ids, rank, n) == spec_potential(ctx, ids, rank, n)
            + if i < n {
            rank(entry.value) - rank(ctx.bindings[ids[i]].value)
        } else {
            0
        },
    decreases n,
{
    if n > 0 {
        lemma_potential_rebind(ctx, ids, rank, n - 1, i, entry);
        if i != n - 1 {
            assert(ids[i] != ids[n - 1]);
        }
    }
}

/// A round that succeeds lowers the rank of no binding, and raises the sum
/// of the ranks where it changes a binding.
pub proof fn lemma_round_raises_potential<I, T>(
    interp: &I,
    ids: Seq<LocalId>,
    values: Seq<Plan<T>>,
    ctx: ContextView<I::Domain>,
    i: int,
    change: bool,
    depth: nat,
    limit: nat,
    rank: spec_fn(I::Domain) -> nat,
    height: nat,
) where I: Interpreter<T>, I::Domain: BoundedLattice
    requires
        spec_ranked(rank, height),
        spec_distinct(ids),
        forall|j: int| 0 <= j < ids.len() ==> ctx.bound().contains(#[trigger] ids[j]),
        forall|j: int| 0 <= j < values.len() ==> (#[trigger] values[j]).spec_scoped(ctx.bound()),
    ensures
        spec_round(interp, ids, values, ctx, i, change, depth, limit).result matches Ok(c) ==> {
            let after = spec_round(interp, ids, values, ctx, i, change, depth, limit).ctx;
            &&& spec_potential(after, ids, rank, ids.len() as int) >= spec_potential(
                ctx,
                ids,
                rank,
                ids.len() as int,
            )
            &&& c && !change ==> spec_potential(after, ids, rank, ids.len() as int)
                > spec_potential(ctx, ids, rank, ids.len() as int)
        },
    decreases limit - depth, 2nat, ids.len() - i,
{
    if 0 <= i < ids.len() && i < values.len() {
        lemma_fold_restores_context(interp, &values[i], ctx, depth, limit);
        let f = spec_fold(interp, &values[i], ctx, depth, limit);
        if let Ok(v) = f.result {
            let cur = f.ctx.bindings[ids[i]].value;
            let new = v.spec_join(&cur);
            if new == cur {
                lemma_round_raises_potential(
                    interp,
                    ids,
                    values,
                    f.ctx,
                    i + 1,
                    change,
                    depth,
                    limit,
                    rank,
                    height,
                );
            } else {
                let entry = ContextEntry::spec_of_let_rec(new);
                let next = f.ctx.bind(ids[i], entry);
                assert(next.bound() =~= ctx.bound());
                assert(rank(new) > rank(cur));
                lemma_potential_rebind(ctx, ids, rank, ids.len() as int, i, entry);
                lemma_round_raises_potential(
                    interp,
                    ids,
                    values,
                    next,
                    i + 1,
                    true,
                    depth,
                    limit,
                    rank,
                    height,
                );
            }
        }
    }
}

/// Each round that changes a binding raises the sum of the ranks, so the
/// iteration runs no more such rounds than the sum has room to grow.
pub proof fn lemma_rounds_fit_potential<I, T>(
    interp: &I,
    ids: Seq<LocalId>,
    values: Seq<Plan<T>>,
    bound: Option<u64>,
    ctx: ContextView<I::Domain>,
    iter: nat,
    depth: nat,
    limit: nat,
    rank: spec_fn(I::Domain) -> nat,
    height: nat,
) where I: Interpreter<T>, I::Domain: BoundedLattice
    requires
        spec_ranked(rank, height),
        spec_distinct(ids),
        forall|j: int| 0 <= j < ids.len() ==> ctx.bound().contains(#[trigger] ids[j]),
        forall|j: int| 0 <= j < values.len() ==> (#[trigger] values[j]).spec_scoped(ctx.bound()),
    ensures
        match spec_exit(interp, ids, values, bound, ctx, iter, depth, limit) {
            Exit::Failed => true,
            Exit::Converged { rounds } => rounds - iter <= ids.len() * height - spec_potential(
                ctx,
                ids,
                rank,
                ids.len() as int,
            ),
            Exit::CutShort { rounds } => rounds - iter <= ids.len() * height - spec_potential(
                ctx,
                ids,
                rank,
                ids.len() as int,
            ),
        },
    decreases MAX_LET_REC_ITERATIONS - iter,
{
    lemma_potential_bounded(ctx, ids, rank, height, ids.len() as int);
    if !spec_cut_short(bound, iter) {
        let r = spec_round(interp, ids, values, ctx, 0, false, depth, limit);
        if r.result == Ok::<bool, RecursionLimitError>(true) {
            lemma_round_raises_potential(
                interp,
                ids,
                values,
                ctx,
                0,
                false,
                depth,
                limit,
                rank,
                height,
            );
            lemma_round_restores_context(interp, ids, values, ctx, 0, false, depth, limit);
            lemma_rounds_fit_potential(
                interp,
                ids,
                values,
                bound,
                r.ctx,
                iter + 1,
                depth,
                limit,
                rank,
                height,
            );
        }
    }
}

/// In a lattice of finite height the iteration of a `LetRec` runs at most
/// as many rounds that change a binding as the `LetRec` has names, times
/// the height of the lattice. Where the bounds on the rounds leave room
/// for that many, the iteration is not cut short: unless a fold fails, it
/// ends in a fixpoint. In a lattice of height one, that is within as many
/// rounds as the `LetRec` has names.
pub proof fn lemma_converges_within_height<I, T>(
    interp: &I,
    ids: Seq<LocalId>,
    values: Seq<Plan<T>>,
    bound: Option<u64>,
    ctx: ContextView<I::Domain>,
    depth: nat,
    limit: nat,
    rank: spec_fn(I::Domain) -> nat,
    height: nat,
) where I: Interpreter<T>, I::Domain: BoundedLattice
    requires
        spec_ranked(rank, height),
        spec_distinct(ids),
        forall|j: int| 0 <= j < ids.len() ==> ctx.bound().contains(#[trigger] ids[j]),
        forall|j: int| 0 <= j < values.len() ==> (#[trigger] values[j]).spec_scoped(ctx.bound()),
    ensures
        match spec_exit(interp, ids, values, bound, ctx, 0, depth, limit) {
            Exit::Failed => true,
            Exit::Converged { rounds } => rounds <= ids.len() * height,
            Exit::CutShort { rounds } => rounds <= ids.len() * height,
        },
        ids.len() * height < MAX_LET_REC_ITERATIONS && (bound is Some ==> ids.len() * height
            < bound->Some_0) ==> !(spec_exit(interp, ids, values, bound, ctx, 0, depth, limit)
            is CutShort),
{
    lemma_rounds_fit_potential(interp, ids, values, bound, ctx, 0, depth, limit, rank, height);
    lemma_iteration_stops(interp, ids, values, bound, ctx, 0, depth, limit);
}

/// Whether `a` is below `b` in the order of the lattice: joining `a` into
/// `b` leaves `b` as it is.
pub open spec fn spec_below<Domain: BoundedLattice>(a: Domain, b: Domain) -> bool {
    a.spec_join(&b) == b
}

/// Whether the order of the lattice is transitive and `spec_join` gives an
/// upper bound that is below every other upper bound.
pub open spec fn spec_join_is_least<Domain: BoundedLattice>() -> bool {
    &&& forall|a: Domain, b: Domain, c: Domain|
        #[trigger] spec_below(a, b) && #[trigger] spec_below(b, c) ==> spec_below(a, c)
    &&& forall|a: Domain, b: Domain, z: Domain|
        spec_below(a, z) && spec_below(b, z) ==> #[trigger] spec_below(a.spec_join(&b), z)
}

/// Whether the context `low` is below the context `high`: they bind the
/// same names, agree on the flag and on every name that is not among
/// `ids`, and bind each of `ids` to recursive entries whose values are in
/// order.
pub open spec fn spec_ctx_below<Domain: BoundedLattice>(
    low: ContextView<Domain>,
    high: ContextView<Domain>,
    ids: Seq<LocalId>,
) -> bool {
    &&& spec_agree_outside(low, high, ids)
    &&& forall|j: int|
        0 <= j < ids.len() ==> low.bindings[#[trigger] ids[j]].is_rec
            && high.bindings[ids[j]].is_rec && spec_below(
            low.bindings[ids[j]].value,
            high.bindings[ids[j]].value,
        )
}

/// Whether the values of a `LetRec` are monotone at depth `depth`, in the
/// contexts that bind the names `bound`: folded in a context that is below
/// another, each gives a value that is below the value it gives in the
/// other.
pub open spec fn spec_monotone<I, T>(
    interp: &I,
    ids: Seq<LocalId>,
    values: Seq<Plan<T>>,
    bound: Set<LocalId>,
    depth: nat,
    limit: nat,
) -> bool where I: Interpreter<T>, I::Domain: BoundedLattice {
    forall|low: ContextView<I::Domain>, high: ContextView<I::Domain>, j: int|
        0 <= j < values.len() && low.bound() == bound && spec_ctx_below(low, high, ids) && (
        #[trigger] spec_fold(
            interp,
            &values[j],
            low,
            depth,
            limit,
        )).result is Ok && (#[trigger] spec_fold(interp, &values[j], high, depth, limit)).result is Ok
            ==> spec_below(
            spec_fold(interp, &values[j], low, depth, limit).result->Ok_0,
            spec_fold(interp, &values[j], high, depth, limit).result->Ok_0,
        )
}

/// Whether the context `fix` is closed under a round: each value of the
/// `LetRec` folds in it to a value that is below what its name is bound
/// to.
pub open spec fn spec_closed<I, T>(
    interp: &I,
    ids: Seq<LocalId>,
    values: Seq<Plan<T>>,
    fix: ContextView<I::Domain>,
    depth: nat,
    limit: nat,
) -> bool where I: Interpreter<T>, I::Domain: BoundedLattice {
    forall|j: int|
        0 <= j < ids.len() && j < values.len() ==> (#[trigger] spec_fold(
            interp,
            &values[j],
            fix,
            depth,
            limit,
        )).result is Ok && spec_below(
            spec_fold(interp, &values[j], fix, depth, limit).result->Ok_0,
            fix.bindings[ids[j]].value,
        )
}

/// A round that starts below a closed context ends below it.
pub proof fn lemma_round_stays_below<I, T>(
    interp: &I,
    ids: Seq<LocalId>,
    values: Seq<Plan<T>>,
    ctx: ContextView<I::Domain>,
    fix: ContextView<I::Domain>,
    i: int,
    change: bool,
    depth: nat,
    limit: nat,
) where I: Interpreter<T>, I::Domain: BoundedLattice
    requires
        spec_join_is_least::<I::Domain>(),
        spec_monotone(interp, ids, values, ctx.bound(), depth, limit),
        spec_closed(interp, ids, values, fix, depth, limit),
        spec_ctx_below(ctx, fix, ids),
        spec_distinct(ids),
        forall|j: int| 0 <= j < ids.len() ==> ctx.bound().contains(#[trigger] ids[j]),
        forall|j: int| 0 <= j < values.len() ==> (#[trigger] values[j]).spec_scoped(ctx.bound()),
    ensures
        spec_round(interp, ids, values, ctx, i, change, depth, limit).result is Ok
            ==> spec_ctx_below(
            spec_round(interp, ids, values, ctx, i, change, depth, limit).ctx,
            fix,
            ids,
        ),
    decreases limit - depth, 2nat, ids.len() - i,
{
    if 0 <= i < ids.len() && i < values.len() {
        lemma_fold_restores_context(interp, &values[i], ctx, depth, limit);
        let f = spec_fold(interp, &values[i], ctx, depth, limit);
        if let Ok(v) = f.result {
            let cur = ctx.bindings[ids[i]].value;
            let new = v.spec_join(&cur);
            let g = spec_fold(interp, &values[i], fix, depth, limit);
            assert(g.result is Ok);
            assert(spec_below(v, g.result->Ok_0));
            assert(spec_below(g.result->Ok_0, fix.bindings[ids[i]].value));
            assert(spec_below(v, fix.bindings[ids[i]].value));
            assert(spec_below(cur, fix.bindings[ids[i]].value));
            assert(spec_below(new, fix.bindings[ids[i]].value));
            if new == cur {
                lemma_round_stays_below(interp, ids, values, ctx, fix, i + 1, change, depth, limit);
            } else {
                let next = ctx.bind(ids[i], ContextEntry::spec_of_let_rec(new));
                assert(next.bound() =~= ctx.bound());
                assert(ids.contains(ids[i]));
                assert(spec_ctx_below(next, fix, ids)) by {
                    assert forall|j: int| 0 <= j < ids.len() implies next.bindings[
                        #[trigger] ids[j]].is_rec && fix.bindings[ids[j]].is_rec && spec_below(
                        next.bindings[ids[j]].value,
                        fix.bindings[ids[j]].value,
                    ) by {
                        if j != i {
                            assert(ids[j] != ids[i]);
                        }
                    }
                }
                lemma_round_stays_below(interp, ids, values, next, fix, i + 1, true, depth, limit);
            }
        }
    }
}

/// Where the iteration of a `LetRec` ends because a round changed no
/// binding, it ends in the least fixpoint: the context that it leaves is
/// below every context that is closed under a round and above the context
/// that the iteration started from. This holds where the order of the
/// lattice is transitive, joins are least upper bounds, and the values of
/// the `LetRec` are monotone.
pub proof fn lemma_converged_is_least<I, T>(
    interp: &I,
    ids: Seq<LocalId>,
    values: Seq<Plan<T>>,
    bound: Option<u64>,
    ctx: ContextView<I::Domain>,
    fix: ContextView<I::Domain>,
    iter: nat,
    depth: nat,
    limit: nat,
) where I: Interpreter<T>, I::Domain: BoundedLattice
    requires
        spec_join_is_least::<I::Domain>(),
        spec_monotone(interp, ids, values, ctx.bound(), depth, limit),
        spec_closed(interp, ids, values, fix, depth, limit),
        spec_ctx_below(ctx, fix, ids),
        spec_distinct(ids),
        forall|j: int| 0 <= j < ids.len() ==> ctx.bound().contains(#[trigger] ids[j]),
        forall|j: int| 0 <= j < values.len() ==> (#[trigger] values[j]).spec_scoped(ctx.bound()),
        spec_exit(interp, ids, values, bound, ctx, iter, depth, limit) is Converged,
    ensures
        spec_ctx_below(
            spec_iterate(interp, ids, values, bound, ctx, iter, depth, limit).ctx,
            fix,
            ids,
        ),
    decreases MAX_LET_REC_ITERATIONS - iter,
{
    let r = spec_round(interp, ids, values, ctx, 0, false, depth, limit);
    lemma_round_stays_below(interp, ids, values, ctx, fix, 0, false, depth, limit);
    lemma_round_restores_context(interp, ids, values, ctx, 0, false, depth, limit);
    if r.result == Ok::<bool, RecursionLimitError>(true) {
        lemma_converged_is_least(interp, ids, values, bound, r.ctx, fix, iter + 1, depth, limit);
    }
}

/// No plan from position `i` on nests deeper than the tallest of them.
pub proof fn lemma_tallest_bounds<T>(plans: Seq<Plan<T>>, i: int, j: int)
    requires
        0 <= i <= j < plans.len(),
    ensures
        plans[j].spec_height() <= spec_tallest(plans, i),
    decreases j - i,
{
    if i < j {
        lemma_tallest_bounds(plans, i + 1, j);
    }
}

/// Whether a state is that of a fold that did not fail, or failed for the
/// limit `limit`.
pub open spec fn spec_fails_for<V, Domain>(f: FoldState<V, Domain>, limit: nat) -> bool {
    f.result matches Err(e) ==> e == (RecursionLimitError { limit: limit as usize })
}

/// A fold succeeds where the plan, with the operators above it, nests no
/// deeper than the limit. Where it fails, it fails with the error that
/// names the limit.
pub proof fn lemma_fold_succeeds_within_limit<I, T>(
    interp: &I,
    expr: &Plan<T>,
    ctx: ContextView<I::Domain>,
    depth: nat,
    limit: nat,
) where I: Interpreter<T>, I::Domain: BoundedLattice
    ensures
        spec_fails_for(spec_fold(interp, expr, ctx, depth, limit), limit),
        depth + expr.spec_height() <= limit ==> spec_fold(
            interp,
            expr,
            ctx,
            depth,
            limit,
        ).result is Ok,
    decreases limit - depth, 0nat, 0nat,
{
    if depth < limit {
        lemma_node_succeeds_within_limit(interp, expr, ctx, depth + 1, limit);
    }
}

/// The law of [`lemma_fold_succeeds_within_limit`], for the operator at the
/// root of a plan, which stands at depth `depth`.
pub proof fn lemma_node_succeeds_within_limit<I, T>(
    interp: &I,
    expr: &Plan<T>,
    ctx: ContextView<I::Domain>,
    depth: nat,
    limit: nat,
) where I: Interpreter<T>, I::Domain: BoundedLattice
    requires
        depth >= 1,
    ensures
        spec_fails_for(spec_node(interp, expr, ctx, depth, limit), limit),
        depth - 1 + expr.spec_height() <= limit ==> spec_node(
            interp,
            expr,
            ctx,
            depth,
            limit,
        ).result is Ok,
    decreases limit - depth, 4nat, 0nat,
{
    match &expr.node {
        PlanNode::Constant { .. } => {},
        PlanNode::Get { .. } => {},
        PlanNode::Let { id, value, body } => {
            lemma_fold_succeeds_within_limit(interp, &**value, ctx, depth, limit);
            let v = spec_fold(interp, &**value, ctx, depth, limit);
            if let Ok(res_value) = v.result {
                lemma_fold_succeeds_within_limit(
                    interp,
                    &**body,
                    v.ctx.bind(*id, ContextEntry::spec_of_let(res_value)),
                    depth,
                    limit,
                );
            }
        },
        PlanNode::LetRec { ids, values, limits, body } => {
            let entered = ctx.with_rec(true).bind_all(
                ids@,
                ContextEntry::spec_of_let_rec(<I::Domain as BoundedLattice>::spec_bottom()),
            );
            let bound = spec_min_max_iter(limits@);
            lemma_iterate_succeeds_within_limit(
                interp,
                ids@,
                values@,
                bound,
                entered,
                0,
                depth,
                limit,
            );
            let it = spec_iterate(interp, ids@, values@, bound, entered, 0, depth, limit);
            if it.result is Ok {
                lemma_fold_succeeds_within_limit(
                    interp,
                    &**body,
                    it.ctx.with_rec(ctx.is_rec),
                    depth,
                    limit,
                );
            }
        },
        PlanNode::Mfp { input, .. } => {
            lemma_fold_succeeds_within_limit(interp, &**input, ctx, depth, limit);
        },
        PlanNode::FlatMap { input, .. } => {
            lemma_fold_succeeds_within_limit(interp, &**input, ctx, depth, limit);
        },
        PlanNode::Join { inputs, .. } => {
            lemma_fold_all_succeeds_within_limit(
                interp,
                inputs@,
                ctx,
                0,
                Seq::empty(),
                depth,
                limit,
            );
        },
        PlanNode::Reduce { input, .. } => {
            lemma_fold_succeeds_within_limit(interp, &**input, ctx, depth, limit);
        },
        PlanNode::TopK { input, .. } => {
            lemma_fold_succeeds_within_limit(interp, &**input, ctx, depth, limit);
        },
        PlanNode::Negate { input } => {
            lemma_fold_succeeds_within_limit(interp, &**input, ctx, depth, limit);
        },
        PlanNode::Threshold { input, .. } => {
            lemma_fold_succeeds_within_limit(interp, &**input, ctx, depth, limit);
        },
        PlanNode::Union { inputs, .. } => {
            lemma_fold_all_succeeds_within_limit(
                interp,
                inputs@,
                ctx,
                0,
                Seq::empty(),
                depth,
                limit,
            );
        },
        PlanNode::ArrangeBy { input, .. } => {
            lemma_fold_succeeds_within_limit(interp, &**input, ctx, depth, limit);
        },
    }
}

/// The law of [`lemma_fold_succeeds_within_limit`], for the inputs of an
/// operator from position `i` on.
pub proof fn lemma_fold_all_succeeds_within_limit<I, T>(
    interp: &I,
    plans: Seq<Plan<T>>,
    ctx: ContextView<I::Domain>,
    i: int,
    done: Seq<I::Domain>,
    depth: nat,
    limit: nat,
) where I: Interpreter<T>, I::Domain: BoundedLattice
    requires
        0 <= i,
    ensures
        spec_fails_for(spec_fold_all(interp, plans, ctx, i, done, depth, limit), limit),
        depth + spec_tallest(plans, i) <= limit ==> spec_fold_all(
            interp,
            plans,
            ctx,
            i,
            done,
            depth,
            limit,
        ).result is Ok,
    decreases limit - depth, 1nat, plans.len() - i,
{
    if 0 <= i < plans.len() {
        lemma_fold_succeeds_within_limit(interp, &plans[i], ctx, depth, limit);
        let f = spec_fold(interp, &plans[i], ctx, depth, limit);
        if let Ok(d) = f.result {
            lemma_fold_all_succeeds_within_limit(
                interp,
                plans,
                f.ctx,
                i + 1,
                done.push(d),
                depth,
                limit,
            );
        }
    }
}

/// The law of [`lemma_fold_succeeds_within_limit`], for one round of the
/// iteration of a `LetRec` from position `i` on.
pub proof fn lemma_round_succeeds_within_limit<I, T>(
    interp: &I,
    ids: Seq<LocalId>,
    values: Seq<Plan<T>>,
    ctx: ContextView<I::Domain>,
    i: int,
    change: bool,
    depth: nat,
    limit: nat,
) where I: Interpreter<T>, I::Domain: BoundedLattice
    requires
        0 <= i,
    ensures
        spec_fails_for(spec_round(interp, ids, values, ctx, i, change, depth, limit), limit),
        depth + spec_tallest(values, 0) <= limit ==> spec_round(
            interp,
            ids,
            values,
            ctx,
            i,
            change,
            depth,
            limit,
        ).result is Ok,
    decreases limit - depth, 2nat, ids.len() - i,
{
    if 0 <= i < ids.len() && i < values.len() {
        lemma_tallest_bounds(values, 0, i);
        lemma_fold_succeeds_within_limit(interp, &values[i], ctx, depth, limit);
        let f = spec_fold(interp, &values[i], ctx, depth, limit);
        if let Ok(v) = f.result {
            let cur = f.ctx.bindings[ids[i]].value;
            let new = v.spec_join(&cur);
            if new == cur {
                lemma_round_succeeds_within_limit(
                    interp,
                    ids,
                    values,
                    f.ctx,
                    i + 1,
                    change,
                    depth,
                    limit,
                );
            } else {
                lemma_round_succeeds_within_limit(
                    interp,
                    ids,
                    values,
                    f.ctx.bind(ids[i], ContextEntry::spec_of_let_rec(new)),
                    i + 1,
                    true,
                    depth,
                    limit,
                );
            }
        }
    }
}

/// The law of [`lemma_fold_succeeds_within_limit`], for the iteration of a
/// `LetRec` from round `iter` on.
pub proof fn lemma_iterate_succeeds_within_limit<I, T>(
    interp: &I,
    ids: Seq<LocalId>,
    values: Seq<Plan<T>>,
    bound: Option<u64>,
    ctx: ContextView<I::Domain>,
    iter: nat,
    depth: nat,
    limit: nat,
) where I: Interpreter<T>, I::Domain: BoundedLattice
    ensures
        spec_fails_for(spec_iterate(interp, ids, values, bound, ctx, iter, depth, limit), limit),
        depth + spec_tallest(values, 0) <= limit ==> spec_iterate(
            interp,
            ids,
            values,
            bound,
            ctx,
            iter,
            depth,
            limit,
        ).result is Ok,
    decreases limit - depth, 3nat, MAX_LET_REC_ITERATIONS - iter,
{
    if !spec_cut_short(bound, iter) {
        lemma_round_succeeds_within_limit(interp, ids, values, ctx, 0, false, depth, limit);
        let r = spec_round(interp, ids, values, ctx, 0, false, depth, limit);
        if r.result == Ok::<bool, RecursionLimitError>(true) {
            lemma_iterate_succeeds_within_limit(
                interp,
                ids,
                values,
                bound,
                r.ctx,
                iter + 1,
                depth,
                limit,
            );
        }
    }
}

/// Whether the lattice is bounded: the bottom element is below every
/// element, and every element is below the top element.
pub open spec fn spec_bounded<Domain: BoundedLattice>() -> bool {
    &&& forall|x: Domain| #[trigger] spec_below(Domain::spec_bottom(), x)
    &&& forall|x: Domain| #[trigger] spec_below(x, Domain::spec_top())
}

/// In a bounded lattice the context that the iteration of a `LetRec` starts
/// from is below every context that binds the same names, binds those of
/// the `LetRec` as recursive bindings, and agrees with it on the flag and on
/// the names that are not of the `LetRec`. So the
/// fixpoint that the iteration ends in is below every context that is
/// closed under a round: it is the least fixpoint.
pub proof fn lemma_start_is_below<Domain: BoundedLattice>(
    ctx: ContextView<Domain>,
    fix: ContextView<Domain>,
    ids: Seq<LocalId>,
)
    requires
        spec_bounded::<Domain>(),
        spec_agree_outside(
            ctx.bind_all(ids, ContextEntry::spec_of_let_rec(Domain::spec_bottom())),
            fix,
            ids,
        ),
        forall|j: int| 0 <= j < ids.len() ==> fix.bindings[#[trigger] ids[j]].is_rec,
    ensures
        spec_ctx_below(
            ctx.bind_all(ids, ContextEntry::spec_of_let_rec(Domain::spec_bottom())),
            fix,
            ids,
        ),
{
    let start = ctx.bind_all(ids, ContextEntry::spec_of_let_rec(Domain::spec_bottom()));
    assert forall|j: int| 0 <= j < ids.len() implies start.bindings[#[trigger] ids[j]].is_rec
        && fix.bindings[ids[j]].is_rec && spec_below(
        start.bindings[ids[j]].value,
        fix.bindings[ids[j]].value,
    ) by {
        assert(ids.contains(ids[j]));
        assert(start.bindings[ids[j]].value == Domain::spec_bottom());
    }
}

/// Whether the actions of the type `A` leave every operator as it is,
/// whatever they note for themselves.
pub open spec fn spec_leaves_nodes<T, Domain, A: Action<T, Domain>>() -> bool {
    forall|a: A, node: PlanView<T>, own: Domain, children: Seq<Domain>|
        #[trigger] a.spec_rewrite(node, own, children) == node
}

/// Whether a mutating fold did what a reading fold did, and left `plan` as
/// it was. Of the action nothing is said.
pub open spec fn spec_watched<V, P, Domain, A>(
    m: MutState<V, P, Domain, A>,
    f: FoldState<V, Domain>,
    plan: P,
) -> bool {
    m.result == f.result && m.ctx == f.ctx && m.plan == plan
}

/// With an action that only watches, the mutating fold computes what the
/// reading fold computes, in every plan, every context and at every depth,
/// and leaves the plan as it was. So the value that the action is handed
/// for an operator is the value of the reading fold for that operator, and
/// the values that it is handed for the inputs of the operator are the
/// values of the reading fold for those inputs.
pub proof fn lemma_watching_fold_is_fold<I, T, A>(
    interp: &I,
    action: A,
    expr: &Plan<T>,
    ctx: ContextView<I::Domain>,
    depth: nat,
    limit: nat,
) where I: Interpreter<T>, I::Domain: BoundedLattice, A: Action<T, I::Domain>
    requires
        spec_leaves_nodes::<T, I::Domain, A>(),
    ensures
        spec_watched(
            spec_fold_mut(interp, action, expr@, ctx, depth, limit),
            spec_fold(interp, expr, ctx, depth, limit),
            expr@,
        ),
    decreases limit - depth, 0nat, 0nat,
{
    if depth < limit {
        lemma_watching_node_is_node(interp, action, expr, ctx, depth + 1, limit);
    }
}

/// The law of [`lemma_watching_fold_is_fold`], for the operator at the root
/// of a plan.
pub proof fn lemma_watching_node_is_node<I, T, A>(
    interp: &I,
    action: A,
    expr: &Plan<T>,
    ctx: ContextView<I::Domain>,
    depth: nat,
    limit: nat,
) where I: Interpreter<T>, I::Domain: BoundedLattice, A: Action<T, I::Domain>
    requires
        spec_leaves_nodes::<T, I::Domain, A>(),
    ensures
        spec_watched(
            spec_node_mut(interp, action, expr@, ctx, depth, limit),
            spec_node(interp, expr, ctx, depth, limit),
            expr@,
        ),
    decreases limit - depth, 4nat, 0nat,
{
    match &expr.node {
        PlanNode::Constant { .. } => {},
        PlanNode::Get { .. } => {},
        PlanNode::Let { id, value, body } => {
            lemma_watching_fold_is_fold(interp, action, &**value, ctx, depth, limit);
            let v = spec_fold(interp, &**value, ctx, depth, limit);
            let vm = spec_fold_mut(interp, action, value@, ctx, depth, limit);
            if let Ok(res_value) = v.result {
                lemma_watching_fold_is_fold(
                    interp,
                    vm.action,
                    &**body,
                    v.ctx.bind(*id, ContextEntry::spec_of_let(res_value)),
                    depth,
                    limit,
                );
            }
        },
        PlanNode::LetRec { ids, values, limits, body } => {
            let entered = ctx.with_rec(true).bind_all(
                ids@,
                ContextEntry::spec_of_let_rec(<I::Domain as BoundedLattice>::spec_bottom()),
            );
            let bound = spec_min_max_iter(limits@);
            lemma_watching_iterate_is_iterate(
                interp,
                action,
                ids@,
                values@,
                bound,
                entered,
                0,
                depth,
                limit,
            );
            let it = spec_iterate(interp, ids@, values@, bound, entered, 0, depth, limit);
            let im = spec_iterate_mut(
                interp,
                action,
                ids@,
                spec_views(values@),
                bound,
                entered,
                0,
                depth,
                limit,
            );
            if it.result is Ok {
                lemma_watching_fold_is_fold(
                    interp,
                    im.action,
                    &**body,
                    it.ctx.with_rec(ctx.is_rec),
                    depth,
                    limit,
                );
            }
        },
        PlanNode::Mfp { input, .. } => {
            lemma_watching_fold_is_fold(interp, action, &**input, ctx, depth, limit);
        },
        PlanNode::FlatMap { input, .. } => {
            lemma_watching_fold_is_fold(interp, action, &**input, ctx, depth, limit);
        },
        PlanNode::Join { inputs, .. } => {
            lemma_watching_fold_all_is_fold_all(
                interp,
                action,
                inputs@,
                ctx,
                0,
                Seq::empty(),
                depth,
                limit,
            );
        },
        PlanNode::Reduce { input, .. } => {
            lemma_watching_fold_is_fold(interp, action, &**input, ctx, depth, limit);
        },
        PlanNode::TopK { input, .. } => {
            lemma_watching_fold_is_fold(interp, action, &**input, ctx, depth, limit);
        },
        PlanNode::Negate { input } => {
            lemma_watching_fold_is_fold(interp, action, &**input, ctx, depth, limit);
        },
        PlanNode::Threshold { input, .. } => {
            lemma_watching_fold_is_fold(interp, action, &**input, ctx, depth, limit);
        },
        PlanNode::Union { inputs, .. } => {
            lemma_watching_fold_all_is_fold_all(
                interp,
                action,
                inputs@,
                ctx,
                0,
                Seq::empty(),
                depth,
                limit,
            );
        },
        PlanNode::ArrangeBy { input, .. } => {
            lemma_watching_fold_is_fold(interp, action, &**input, ctx, depth, limit);
        },
    }
}

/// The law of [`lemma_watching_fold_is_fold`], for the inputs of an
/// operator from position `i` on.
pub proof fn lemma_watching_fold_all_is_fold_all<I, T, A>(
    interp: &I,
    action: A,
    plans: Seq<Plan<T>>,
    ctx: ContextView<I::Domain>,
    i: int,
    done: Seq<I::Domain>,
    depth: nat,
    limit: nat,
) where I: Interpreter<T>, I::Domain: BoundedLattice, A: Action<T, I::Domain>
    requires
        spec_leaves_nodes::<T, I::Domain, A>(),
    ensures
        spec_watched(
            spec_fold_all_mut(interp, action, spec_views(plans), ctx, i, done, depth, limit),
            spec_fold_all(interp, plans, ctx, i, done, depth, limit),
            spec_views(plans),
        ),
    decreases limit - depth, 1nat, plans.len() - i,
{
    if 0 <= i < plans.len() {
        lemma_watching_fold_is_fold(interp, action, &plans[i], ctx, depth, limit);
        let f = spec_fold(interp, &plans[i], ctx, depth, limit);
        let fm = spec_fold_mut(interp, action, plans[i]@, ctx, depth, limit);
        assert(spec_views(plans).update(i, plans[i]@) =~= spec_views(plans));
        if let Ok(d) = f.result {
            lemma_watching_fold_all_is_fold_all(
                interp,
                fm.action,
                plans,
                f.ctx,
                i + 1,
                done.push(d),
                depth,
                limit,
            );
        }
    }
}

/// The law of [`lemma_watching_fold_is_fold`], for one round of the
/// iteration of a `LetRec` from position `i` on.
pub proof fn lemma_watching_round_is_round<I, T, A>(
    interp: &I,
    action: A,
    ids: Seq<LocalId>,
    values: Seq<Plan<T>>,
    ctx: ContextView<I::Domain>,
    i: int,
    change: bool,
    depth: nat,
    limit: nat,
) where I: Interpreter<T>, I::Domain: BoundedLattice, A: Action<T, I::Domain>
    requires
        spec_leaves_nodes::<T, I::Domain, A>(),
    ensures
        spec_watched(
            spec_round_mut(interp, action, ids, spec_views(values), ctx, i, change, depth, limit),
            spec_round(interp, ids, values, ctx, i, change, depth, limit),
            spec_views(values),
        ),
    decreases limit - depth, 2nat, ids.len() - i,
{
    if 0 <= i < ids.len() && i < values.len() {
        lemma_watching_fold_is_fold(interp, action, &values[i], ctx, depth, limit);
        let f = spec_fold(interp, &values[i], ctx, depth, limit);
        let fm = spec_fold_mut(interp, action, values[i]@, ctx, depth, limit);
        assert(spec_views(values).update(i, values[i]@) =~= spec_views(values));
        if let Ok(v) = f.result {
            let cur = f.ctx.bindings[ids[i]].value;
            let new = v.spec_join(&cur);
            if new == cur {
                lemma_watching_round_is_round(
                    interp,
                    fm.action,
                    ids,
                    values,
                    f.ctx,
                    i + 1,
                    change,
                    depth,
                    limit,
                );
            } else {
                lemma_watching_round_is_round(
                    interp,
                    fm.action,
                    ids,
                    values,
                    f.ctx.bind(ids[i], ContextEntry::spec_of_let_rec(new)),
                    i + 1,
                    true,
                    depth,
                    limit,
                );
            }
        }
    }
}

/// The law of [`lemma_watching_fold_is_fold`], for the iteration of a
/// `LetRec` from round `iter` on.
pub proof fn lemma_watching_iterate_is_iterate<I, T, A>(
    interp: &I,
    action: A,
    ids: Seq<LocalId>,
    values: Seq<Plan<T>>,
    bound: Option<u64>,
    ctx: ContextView<I::Domain>,
    iter: nat,
    depth: nat,
    limit: nat,
) where I: Interpreter<T>, I::Domain: BoundedLattice, A: Action<T, I::Domain>
    requires
        spec_leaves_nodes::<T, I::Domain, A>(),
    ensures
        spec_watched(
            spec_iterate_mut(
                interp,
                action,
                ids,
                spec_views(values),
                bound,
                ctx,
                iter,
                depth,
                limit,
            ),
            spec_iterate(interp, ids, values, bound, ctx, iter, depth, limit),
            spec_views(values),
        ),
    decreases limit - depth, 3nat, MAX_LET_REC_ITERATIONS - iter,
{
    if !spec_cut_short(bound, iter) {
        lemma_watching_round_is_round(interp, action, ids, values, ctx, 0, false, depth, limit);
        let r = spec_round(interp, ids, values, ctx, 0, false, depth, limit);
        let rm = spec_round_mut(
            interp,
            action,
            ids,
            spec_views(values),
            ctx,
            0,
            false,
            depth,
            limit,
        );
        if r.result == Ok::<bool, RecursionLimitError>(true) {
            lemma_watching_iterate_is_iterate(
                interp,
                rm.action,
                ids,
                values,
                bound,
                r.ctx,
                iter + 1,
                depth,
                limit,
            );
        }
    }
}

} // verus!

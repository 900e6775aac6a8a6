//! Monotone interpreters and the least fixpoint of recursive bindings.
//!
//! An interpreter is monotone where each of its methods gives a value that
//! is not lower when the context and the values of the inputs are not
//! lower. For a monotone interpreter over a lattice of finite height, a
//! `LetRec` whose values hold no `LetRec` of their own binds its names to
//! the least fixpoint of its values, unless the bounds on the rounds cut
//! the iteration short.
use vstd::prelude::*;
use crate::expr::error::EvalError;
use crate::expr::linear::MapFilterProject;
use crate::expr::scalar::MirScalarExpr;
use crate::plan::interpret::api::{
    BoundedLattice, ContextEntry, ContextView, Interpreter, MAX_LET_REC_ITERATIONS,
};
use crate::plan::interpret::fold::{
    spec_agree_outside, spec_fold, spec_fold_all, spec_iterate, spec_round, FoldState,
};
use crate::plan::interpret::laws::{
    lemma_converged_is_fixpoint, lemma_converged_is_least, lemma_converges_within_height,
    lemma_fold_all_restores_context, lemma_fold_restores_context, lemma_iteration_stops,
    lemma_start_is_below, spec_below, spec_bounded, spec_closed, spec_ctx_below, spec_exit,
    spec_join_is_least, spec_monotone, spec_ranked,
};
use crate::plan::join::JoinPlan;
use crate::plan::tree::{
    spec_distinct, AvailableCollections, GetPlan, Id, KeyValPlan, LocalId, Plan, PlanNode,
    ReducePlan, TableFunc, ThresholdPlan, TopKPlan,
};
use crate::repr::datum::Diff;
use crate::repr::row::Row;

verus! {

/// Whether every element of the lattice is below itself.
pub open spec fn spec_reflexive<Domain: BoundedLattice>() -> bool {
    forall|a: Domain| #[trigger] spec_below(a, a)
}

/// Whether two sequences are as long as each other, and each element of
/// the first is below the element of the second at its position.
pub open spec fn spec_all_below<Domain: BoundedLattice>(low: Seq<Domain>, high: Seq<Domain>) -> bool {
    &&& low.len() == high.len()
    &&& forall|i: int| 0 <= i < low.len() ==> spec_below(#[trigger] low[i], high[i])
}

/// Whether the context `low` is nowhere above the context `high`: they
/// agree on the flag, bind the same names to entries of the same kind, and
/// the value of each name in `low` is below its value in `high`.
pub open spec fn spec_ctx_le<Domain: BoundedLattice>(
    low: ContextView<Domain>,
    high: ContextView<Domain>,
) -> bool {
    &&& low.is_rec == high.is_rec
    &&& low.bound() == high.bound()
    &&& forall|k: LocalId|
        low.bindings.contains_key(k) ==> (#[trigger] low.bindings[k]).is_rec
            == high.bindings[k].is_rec && spec_below(low.bindings[k].value, high.bindings[k].value)
}

/// Whether each method of the interpreter is monotone in the context and
/// in the values of the inputs.
pub open spec fn spec_monotone_methods<I, T>(interp: &I) -> bool where
    I: Interpreter<T>,
    I::Domain: BoundedLattice,
 {
    &&& forall|
        low: ContextView<I::Domain>,
        high: ContextView<I::Domain>,
        rows: &Result<Vec<(Row, T, Diff)>, EvalError>,
    |
        #![trigger interp.spec_constant(low, rows), interp.spec_constant(high, rows)]
        spec_ctx_le(low, high) ==> spec_below(
            interp.spec_constant(low, rows),
            interp.spec_constant(high, rows),
        )
    &&& forall|
        low: ContextView<I::Domain>,
        high: ContextView<I::Domain>,
        id: &Id,
        keys: &AvailableCollections,
        plan: &GetPlan,
    |
        #![trigger interp.spec_get(low, id, keys, plan), interp.spec_get(high, id, keys, plan)]
        spec_ctx_le(low, high) ==> spec_below(
            interp.spec_get(low, id, keys, plan),
            interp.spec_get(high, id, keys, plan),
        )
    &&& forall|
        low: ContextView<I::Domain>,
        high: ContextView<I::Domain>,
        a: I::Domain,
        b: I::Domain,
        mfp: &MapFilterProject,
        input_key_val: &Option<(Vec<MirScalarExpr>, Option<Row>)>,
    |
        #![trigger interp.spec_mfp(low, a, mfp, input_key_val), interp.spec_mfp(high, b, mfp, input_key_val)]
        spec_ctx_le(low, high) && spec_below(a, b) ==> spec_below(
            interp.spec_mfp(low, a, mfp, input_key_val),
            interp.spec_mfp(high, b, mfp, input_key_val),
        )
    &&& forall|
        low: ContextView<I::Domain>,
        high: ContextView<I::Domain>,
        a: I::Domain,
        b: I::Domain,
        func: &TableFunc,
        exprs: &Vec<MirScalarExpr>,
        mfp: &MapFilterProject,
        input_key: &Option<Vec<MirScalarExpr>>,
    |
        #![trigger interp.spec_flat_map(low, a, func, exprs, mfp, input_key), interp.spec_flat_map(high, b, func, exprs, mfp, input_key)]
        spec_ctx_le(low, high) && spec_below(a, b) ==> spec_below(
            interp.spec_flat_map(low, a, func, exprs, mfp, input_key),
            interp.spec_flat_map(high, b, func, exprs, mfp, input_key),
        )
    &&& forall|
        low: ContextView<I::Domain>,
        high: ContextView<I::Domain>,
        a: Seq<I::Domain>,
        b: Seq<I::Domain>,
        plan: &JoinPlan,
    |
        #![trigger interp.spec_join(low, a, plan), interp.spec_join(high, b, plan)]
        spec_ctx_le(low, high) && spec_all_below(a, b) ==> spec_below(
            interp.spec_join(low, a, plan),
            interp.spec_join(high, b, plan),
        )
    &&& forall|
        low: ContextView<I::Domain>,
        high: ContextView<I::Domain>,
        a: I::Domain,
        b: I::Domain,
        key_val_plan: &KeyValPlan,
        plan: &ReducePlan,
        input_key: &Option<Vec<MirScalarExpr>>,
        mfp_after: &MapFilterProject,
    |
        #![trigger interp.spec_reduce(low, a, key_val_plan, plan, input_key, mfp_after), interp.spec_reduce(high, b, key_val_plan, plan, input_key, mfp_after)]
        spec_ctx_le(low, high) && spec_below(a, b) ==> spec_below(
            interp.spec_reduce(low, a, key_val_plan, plan, input_key, mfp_after),
            interp.spec_reduce(high, b, key_val_plan, plan, input_key, mfp_after),
        )
    &&& forall|
        low: ContextView<I::Domain>,
        high: ContextView<I::Domain>,
        a: I::Domain,
        b: I::Domain,
        top_k_plan: &TopKPlan,
    |
        #![trigger interp.spec_top_k(low, a, top_k_plan), interp.spec_top_k(high, b, top_k_plan)]
        spec_ctx_le(low, high) && spec_below(a, b) ==> spec_below(
            interp.spec_top_k(low, a, top_k_plan),
            interp.spec_top_k(high, b, top_k_plan),
        )
    &&& forall|
        low: ContextView<I::Domain>,
        high: ContextView<I::Domain>,
        a: I::Domain,
        b: I::Domain,
    |
        #![trigger interp.spec_negate(low, a), interp.spec_negate(high, b)]
        spec_ctx_le(low, high) && spec_below(a, b) ==> spec_below(
            interp.spec_negate(low, a),
            interp.spec_negate(high, b),
        )
    &&& forall|
        low: ContextView<I::Domain>,
        high: ContextView<I::Domain>,
        a: I::Domain,
        b: I::Domain,
        threshold_plan: &ThresholdPlan,
    |
        #![trigger interp.spec_threshold(low, a, threshold_plan), interp.spec_threshold(high, b, threshold_plan)]
        spec_ctx_le(low, high) && spec_below(a, b) ==> spec_below(
            interp.spec_threshold(low, a, threshold_plan),
            interp.spec_threshold(high, b, threshold_plan),
        )
    &&& forall|
        low: ContextView<I::Domain>,
        high: ContextView<I::Domain>,
        a: Seq<I::Domain>,
        b: Seq<I::Domain>,
        consolidate_output: bool,
    |
        #![trigger interp.spec_union(low, a, consolidate_output), interp.spec_union(high, b, consolidate_output)]
        spec_ctx_le(low, high) && spec_all_below(a, b) ==> spec_below(
            interp.spec_union(low, a, consolidate_output),
            interp.spec_union(high, b, consolidate_output),
        )
    &&& forall|
        low: ContextView<I::Domain>,
        high: ContextView<I::Domain>,
        a: I::Domain,
        b: I::Domain,
        forms: &AvailableCollections,
        input_key: &Option<Vec<MirScalarExpr>>,
        input_mfp: &MapFilterProject,
    |
        #![trigger interp.spec_arrange_by(low, a, forms, input_key, input_mfp), interp.spec_arrange_by(high, b, forms, input_key, input_mfp)]
        spec_ctx_le(low, high) && spec_below(a, b) ==> spec_below(
            interp.spec_arrange_by(low, a, forms, input_key, input_mfp),
            interp.spec_arrange_by(high, b, forms, input_key, input_mfp),
        )
}

/// Whether none of the plans holds a `LetRec`.
pub open spec fn spec_none_rec<T>(plans: Seq<Plan<T>>) -> bool
    decreases plans,
{
    forall|i: int| 0 <= i < plans.len() ==> spec_no_rec(&#[trigger] plans[i])
}

/// Whether the plan holds no `LetRec`.
pub open spec fn spec_no_rec<T>(expr: &Plan<T>) -> bool
    decreases expr,
{
    match &expr.node {
        PlanNode::Constant { .. } => true,
        PlanNode::Get { .. } => true,
        PlanNode::Let { value, body, .. } => spec_no_rec(&**value) && spec_no_rec(&**body),
        PlanNode::LetRec { .. } => false,
        PlanNode::Mfp { input, .. } => spec_no_rec(&**input),
        PlanNode::FlatMap { input, .. } => spec_no_rec(&**input),
        PlanNode::Join { inputs, .. } => spec_none_rec(inputs@),
        PlanNode::Reduce { input, .. } => spec_no_rec(&**input),
        PlanNode::TopK { input, .. } => spec_no_rec(&**input),
        PlanNode::Negate { input } => spec_no_rec(&**input),
        PlanNode::Threshold { input, .. } => spec_no_rec(&**input),
        PlanNode::Union { inputs, .. } => spec_none_rec(inputs@),
        PlanNode::ArrangeBy { input, .. } => spec_no_rec(&**input),
    }
}

/// Whether two folds ended alike, the first below the second: both
/// succeeded or both failed, and where they succeeded the value of the
/// first is below the value of the second.
pub open spec fn spec_folded_below<Domain: BoundedLattice>(
    low: FoldState<Domain, Domain>,
    high: FoldState<Domain, Domain>,
) -> bool {
    &&& low.result is Ok <==> high.result is Ok
    &&& low.result is Ok ==> spec_below(low.result->Ok_0, high.result->Ok_0)
}

/// The fold of a monotone interpreter is monotone in the context, on plans
/// without a `LetRec`: folded in a context that is nowhere above another, a
/// plan succeeds exactly if it succeeds in the other, and gives a value
/// that is below the value it gives in the other.
pub proof fn lemma_fold_is_monotone<I, T>(
    interp: &I,
    expr: &Plan<T>,
    low: ContextView<I::Domain>,
    high: ContextView<I::Domain>,
    depth: nat,
    limit: nat,
) where I: Interpreter<T>, I::Domain: BoundedLattice
    requires
        spec_monotone_methods(interp),
        spec_ctx_le(low, high),
        spec_no_rec(expr),
        expr.spec_scoped(low.bound()),
    ensures
        spec_folded_below(
            spec_fold(interp, expr, low, depth, limit),
            spec_fold(interp, expr, high, depth, limit),
        ),
    decreases expr, 0nat,
{
    if depth < limit {
        let d = depth + 1;
        match &expr.node {
            PlanNode::Constant { .. } => {},
            PlanNode::Get { .. } => {},
            PlanNode::Let { id, value, body } => {
                lemma_fold_is_monotone(interp, &**value, low, high, d, limit);
                lemma_fold_restores_context(interp, &**value, low, d, limit);
                lemma_fold_restores_context(interp, &**value, high, d, limit);
                let vl = spec_fold(interp, &**value, low, d, limit);
                let vh = spec_fold(interp, &**value, high, d, limit);
                if vl.result is Ok {
                    let inner_low = low.bind(*id, ContextEntry::spec_of_let(vl.result->Ok_0));
                    let inner_high = high.bind(*id, ContextEntry::spec_of_let(vh.result->Ok_0));
                    assert(inner_low.bound() =~= low.bound().insert(*id));
                    assert(inner_high.bound() =~= inner_low.bound());
                    assert(spec_ctx_le(inner_low, inner_high));
                    lemma_fold_is_monotone(interp, &**body, inner_low, inner_high, d, limit);
                }
            },
            PlanNode::LetRec { .. } => {},
            PlanNode::Mfp { input, .. } => {
                lemma_unary_is_monotone(interp, &**input, low, high, d, limit);
            },
            PlanNode::FlatMap { input, .. } => {
                lemma_unary_is_monotone(interp, &**input, low, high, d, limit);
            },
            PlanNode::Join { inputs, .. } => {
                lemma_fold_all_is_monotone(
                    interp,
                    inputs@,
                    low,
                    high,
                    0,
                    Seq::empty(),
                    Seq::empty(),
                    d,
                    limit,
                );
                lemma_fold_all_restores_context(interp, inputs@, low, 0, Seq::empty(), d, limit);
                lemma_fold_all_restores_context(interp, inputs@, high, 0, Seq::empty(), d, limit);
            },
            PlanNode::Reduce { input, .. } => {
                lemma_unary_is_monotone(interp, &**input, low, high, d, limit);
            },
            PlanNode::TopK { input, .. } => {
                lemma_unary_is_monotone(interp, &**input, low, high, d, limit);
            },
            PlanNode::Negate { input } => {
                lemma_unary_is_monotone(interp, &**input, low, high, d, limit);
            },
            PlanNode::Threshold { input, .. } => {
                lemma_unary_is_monotone(interp, &**input, low, high, d, limit);
            },
            PlanNode::Union { inputs, .. } => {
                lemma_fold_all_is_monotone(
                    interp,
                    inputs@,
                    low,
                    high,
                    0,
                    Seq::empty(),
                    Seq::empty(),
                    d,
                    limit,
                );
                lemma_fold_all_restores_context(interp, inputs@, low, 0, Seq::empty(), d, limit);
                lemma_fold_all_restores_context(interp, inputs@, high, 0, Seq::empty(), d, limit);
            },
            PlanNode::ArrangeBy { input, .. } => {
                lemma_unary_is_monotone(interp, &**input, low, high, d, limit);
            },
        }
    }
}

/// The fold of the one input of an operator is monotone, and leaves both
/// contexts as they were.
pub proof fn lemma_unary_is_monotone<I, T>(
    interp: &I,
    input: &Plan<T>,
    low: ContextView<I::Domain>,
    high: ContextView<I::Domain>,
    depth: nat,
    limit: nat,
) where I: Interpreter<T>, I::Domain: BoundedLattice
    requires
        spec_monotone_methods(interp),
        spec_ctx_le(low, high),
        spec_no_rec(input),
        input.spec_scoped(low.bound()),
    ensures
        spec_folded_below(
            spec_fold(interp, input, low, depth, limit),
            spec_fold(interp, input, high, depth, limit),
        ),
        spec_fold(interp, input, low, depth, limit).ctx == low,
        spec_fold(interp, input, high, depth, limit).ctx == high,
    decreases input, 1nat,
{
    lemma_fold_is_monotone(interp, input, low, high, depth, limit);
    lemma_fold_restores_context(interp, input, low, depth, limit);
    lemma_fold_restores_context(interp, input, high, depth, limit);
}

/// The folds of the inputs of an operator are monotone: in a context that
/// is nowhere above another they succeed exactly if they succeed in the
/// other, and give values that are below those that they give in the other.
pub proof fn lemma_fold_all_is_monotone<I, T>(
    interp: &I,
    plans: Seq<Plan<T>>,
    low: ContextView<I::Domain>,
    high: ContextView<I::Domain>,
    i: int,
    done_low: Seq<I::Domain>,
    done_high: Seq<I::Domain>,
    depth: nat,
    limit: nat,
) where I: Interpreter<T>, I::Domain: BoundedLattice
    requires
        spec_monotone_methods(interp),
        spec_ctx_le(low, high),
        spec_none_rec(plans),
        forall|j: int| 0 <= j < plans.len() ==> (#[trigger] plans[j]).spec_scoped(low.bound()),
        spec_all_below(done_low, done_high),
        0 <= i,
    ensures
        spec_fold_all(interp, plans, low, i, done_low, depth, limit).result is Ok
            <==> spec_fold_all(interp, plans, high, i, done_high, depth, limit).result is Ok,
        spec_fold_all(interp, plans, low, i, done_low, depth, limit).result is Ok
            ==> spec_all_below(
            spec_fold_all(interp, plans, low, i, done_low, depth, limit).result->Ok_0,
            spec_fold_all(interp, plans, high, i, done_high, depth, limit).result->Ok_0,
        ),
    decreases plans, plans.len() - i,
{
    if 0 <= i < plans.len() {
        lemma_fold_is_monotone(interp, &plans[i], low, high, depth, limit);
        lemma_fold_restores_context(interp, &plans[i], low, depth, limit);
        lemma_fold_restores_context(interp, &plans[i], high, depth, limit);
        let fl = spec_fold(interp, &plans[i], low, depth, limit);
        let fh = spec_fold(interp, &plans[i], high, depth, limit);
        if fl.result is Ok {
            let next_low = done_low.push(fl.result->Ok_0);
            let next_high = done_high.push(fh.result->Ok_0);
            assert(spec_all_below(next_low, next_high)) by {
                assert forall|k: int| 0 <= k < next_low.len() implies spec_below(
                    #[trigger] next_low[k],
                    next_high[k],
                ) by {
                    if k < done_low.len() {
                        assert(next_low[k] == done_low[k] && next_high[k] == done_high[k]);
                    }
                }
            }
            lemma_fold_all_is_monotone(
                interp,
                plans,
                low,
                high,
                i + 1,
                next_low,
                next_high,
                depth,
                limit,
            );
        }
    }
}

/// The values of a `LetRec` that hold no `LetRec` of their own are
/// monotone where the interpreter is.
pub proof fn lemma_values_are_monotone<I, T>(
    interp: &I,
    ids: Seq<LocalId>,
    values: Seq<Plan<T>>,
    bound: Set<LocalId>,
    depth: nat,
    limit: nat,
) where I: Interpreter<T>, I::Domain: BoundedLattice
    requires
        spec_reflexive::<I::Domain>(),
        spec_monotone_methods(interp),
        spec_none_rec(values),
        forall|j: int| 0 <= j < values.len() ==> (#[trigger] values[j]).spec_scoped(bound),
    ensures
        spec_monotone(interp, ids, values, bound, depth, limit),
{
    assert forall|low: ContextView<I::Domain>, high: ContextView<I::Domain>, j: int|
        0 <= j < values.len() && low.bound() == bound && spec_ctx_below(low, high, ids) && (
        #[trigger] spec_fold(interp, &values[j], low, depth, limit)).result is Ok && (
        #[trigger] spec_fold(interp, &values[j], high, depth, limit)).result is Ok
        implies spec_below(
        spec_fold(interp, &values[j], low, depth, limit).result->Ok_0,
        spec_fold(interp, &values[j], high, depth, limit).result->Ok_0,
    ) by {
        assert(spec_ctx_le(low, high)) by {
            assert forall|k: LocalId| low.bindings.contains_key(k) implies (
            #[trigger] low.bindings[k]).is_rec == high.bindings[k].is_rec && spec_below(
                low.bindings[k].value,
                high.bindings[k].value,
            ) by {
                if ids.contains(k) {
                    let w = choose|w: int| 0 <= w < ids.len() && ids[w] == k;
                    assert(low.bindings[ids[w]].is_rec && high.bindings[ids[w]].is_rec);
                } else {
                    assert(low.bindings[k] == high.bindings[k]);
                    assert(spec_below(low.bindings[k].value, low.bindings[k].value));
                }
            }
        }
        assert(spec_no_rec(&values[j]));
        lemma_fold_is_monotone(interp, &values[j], low, high, depth, limit);
    }
}

/// A `LetRec` binds its names to the least fixpoint of its values, where
/// the interpreter is monotone, the lattice is bounded and of finite
/// height, the bounds on the rounds leave room for as many rounds as the
/// `LetRec` has names, times the height, and the values hold no `LetRec` of
/// their own.
///
/// If the iteration succeeds, the context that it leaves, in which the
/// body of the `LetRec` is then interpreted, is a fixpoint: one more round
/// changes no binding. And it is the least: it is below every context
/// `fix` that is closed under a round and agrees with it on all but the
/// names of the `LetRec`.
pub proof fn lemma_let_rec_binds_least_fixpoint<I, T>(
    interp: &I,
    ids: Seq<LocalId>,
    values: Seq<Plan<T>>,
    bound: Option<u64>,
    ctx: ContextView<I::Domain>,
    fix: ContextView<I::Domain>,
    depth: nat,
    limit: nat,
    rank: spec_fn(I::Domain) -> nat,
    height: nat,
) where I: Interpreter<T>, I::Domain: BoundedLattice
    requires
        spec_reflexive::<I::Domain>(),
        spec_join_is_least::<I::Domain>(),
        spec_bounded::<I::Domain>(),
        spec_ranked(rank, height),
        spec_monotone_methods(interp),
        ids.len() * height < MAX_LET_REC_ITERATIONS,
        bound is Some ==> ids.len() * height < bound->Some_0,
        spec_distinct(ids),
        forall|i: int| 0 <= i < ids.len() ==> !ctx.bound().contains(#[trigger] ids[i]),
        spec_none_rec(values),
        forall|j: int|
            0 <= j < values.len() ==> (#[trigger] values[j]).spec_scoped(
                ctx.bound().union(ids.to_set()),
            ),
        spec_closed(interp, ids, values, fix, depth, limit),
        spec_agree_outside(
            ctx.with_rec(true).bind_all(
                ids,
                ContextEntry::spec_of_let_rec(<I::Domain as BoundedLattice>::spec_bottom()),
            ),
            fix,
            ids,
        ),
        forall|j: int| 0 <= j < ids.len() ==> fix.bindings[#[trigger] ids[j]].is_rec,
    ensures
        ({
            let entered = ctx.with_rec(true).bind_all(
                ids,
                ContextEntry::spec_of_let_rec(<I::Domain as BoundedLattice>::spec_bottom()),
            );
            let it = spec_iterate(interp, ids, values, bound, entered, 0, depth, limit);
            it.result is Ok ==> {
                &&& spec_exit(interp, ids, values, bound, entered, 0, depth, limit) is Converged
                &&& spec_round(interp, ids, values, it.ctx, 0, false, depth, limit) == (FoldState {
                    result: Ok(false),
                    ctx: it.ctx,
                })
                &&& spec_ctx_below(it.ctx, fix, ids)
            }
        }),
{
    let entered = ctx.with_rec(true).bind_all(
        ids,
        ContextEntry::spec_of_let_rec(<I::Domain as BoundedLattice>::spec_bottom()),
    );
    assert(entered.bound() =~= ctx.bound().union(ids.to_set()));
    assert forall|i: int| 0 <= i < ids.len() implies entered.bound().contains(
        #[trigger] ids[i],
    ) by {
        assert(ids.contains(ids[i]));
    }
    lemma_converges_within_height(interp, ids, values, bound, entered, depth, limit, rank, height);
    lemma_iteration_stops(interp, ids, values, bound, entered, 0, depth, limit);
    let it = spec_iterate(interp, ids, values, bound, entered, 0, depth, limit);
    if it.result is Ok {
        lemma_converged_is_fixpoint(interp, ids, values, bound, entered, 0, depth, limit);
        lemma_values_are_monotone(interp, ids, values, entered.bound(), depth, limit);
        lemma_start_is_below(ctx.with_rec(true), fix, ids);
        lemma_converged_is_least(interp, ids, values, bound, entered, fix, 0, depth, limit);
    }
}

} // verus!

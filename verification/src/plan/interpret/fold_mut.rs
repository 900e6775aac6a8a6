//! The fold that may rewrite the plan it reads.
//!
//! The walk is that of the reading fold. In addition, once an operator is
//! interpreted, an action is handed the operator, its value and the values
//! of its inputs, and may rewrite the operator in place. A `LetRec`
//! interprets its values once per round, so it meets them as the action left
//! them in the round before.
use vstd::prelude::*;
use crate::plan::interpret::api::{
    spec_min_max_iter, BoundedLattice, Context, ContextEntry, ContextView, Interpreter,
    RecursionGuard, RecursionLimitError, MAX_LET_REC_ITERATIONS, RECURSION_LIMIT,
};
use crate::plan::interpret::fold::{
    not_converged, spec_agree_outside, spec_cut_short, spec_not_converged,
};
use crate::plan::tree::{
    spec_views, LetRecLimit, LocalId, Plan, PlanNode, PlanNodeView, PlanView,
};

verus! {

/// What a mutating fold does to one operator once the operator is
/// interpreted.
///
/// The action sees the operator, the value of the operator and the values
/// of its inputs, in order. It may rewrite the operator, and it may keep
/// notes of its own. It must leave the scoping of the plan intact: a plan
/// that binds no name twice in one scope is rewritten to one that still
/// does not.
pub trait Action<T, Domain>: Sized {
    /// The operator as the action leaves it.
    open spec fn spec_rewrite(&self, node: PlanView<T>, own: Domain, children: Seq<Domain>) -> PlanView<
        T,
    > {
        arbitrary()
    }

    /// The action after it has seen the operator.
    open spec fn spec_next(&self, node: PlanView<T>, own: Domain, children: Seq<Domain>) -> Self {
        arbitrary()
    }

    /// Sees one operator, and may rewrite it.
    fn act(&mut self, node: &mut Plan<T>, own: &Domain, children: &[Domain])
        ensures
            final(node)@ == old(self).spec_rewrite(old(node)@, *own, children@),
            *final(self) == old(self).spec_next(old(node)@, *own, children@),
            forall|bound: Set<LocalId>|
                old(node).spec_scoped(bound) ==> final(node).spec_scoped(bound),
    ;
}

/// The action that leaves every operator as it is.
#[derive(Clone, Copy, Debug, PartialEq, Eq, Structural)]
pub struct NoAction;

impl<T, Domain> Action<T, Domain> for NoAction {
    open spec fn spec_rewrite(&self, node: PlanView<T>, own: Domain, children: Seq<Domain>) -> PlanView<
        T,
    > {
        node
    }

    open spec fn spec_next(&self, node: PlanView<T>, own: Domain, children: Seq<Domain>) -> Self {
        *self
    }

    fn act(&mut self, node: &mut Plan<T>, own: &Domain, children: &[Domain]) {
    }
}

/// Where a mutating fold stands after a step: what the step gave, the
/// context it left, the plan as rewritten so far, and the action.
#[verifier::ext_equal]
pub struct MutState<V, P, Domain, A> {
    /// The result of the step, or the failure that stopped it.
    pub result: Result<V, RecursionLimitError>,
    /// The context after the step.
    pub ctx: ContextView<Domain>,
    /// The plan, or the plans, after the step.
    pub plan: P,
    /// The action after the step.
    pub action: A,
}

/// The state after the action has seen the operator `node` with the value
/// `own`.
pub open spec fn spec_acted<T, Domain, A: Action<T, Domain>>(
    action: A,
    node: PlanView<T>,
    own: Domain,
    children: Seq<Domain>,
    ctx: ContextView<Domain>,
) -> MutState<Domain, PlanView<T>, Domain, A> {
    MutState {
        result: Ok(own),
        ctx,
        plan: action.spec_rewrite(node, own, children),
        action: action.spec_next(node, own, children),
    }
}

/// The mutating fold of `expr` in the context `ctx`, with `depth`
/// operators above it. It fails, and rewrites nothing, where the depth has
/// reached `limit`.
pub open spec fn spec_fold_mut<I, T, A>(
    interp: &I,
    action: A,
    expr: PlanView<T>,
    ctx: ContextView<I::Domain>,
    depth: nat,
    limit: nat,
) -> MutState<I::Domain, PlanView<T>, I::Domain, A> where
    I: Interpreter<T>,
    I::Domain: BoundedLattice,
    A: Action<T, I::Domain>,

    decreases limit - depth, 0nat, 0nat,
{
    if depth >= limit {
        MutState {
            result: Err(RecursionLimitError { limit: limit as usize }),
            ctx,
            plan: expr,
            action,
        }
    } else {
        spec_node_mut(interp, action, expr, ctx, depth + 1, limit)
    }
}

/// The mutating fold of the operator at the root of `expr`, which stands at
/// depth `depth`.
pub open spec fn spec_node_mut<I, T, A>(
    interp: &I,
    action: A,
    expr: PlanView<T>,
    ctx: ContextView<I::Domain>,
    depth: nat,
    limit: nat,
) -> MutState<I::Domain, PlanView<T>, I::Domain, A> where
    I: Interpreter<T>,
    I::Domain: BoundedLattice,
    A: Action<T, I::Domain>,

    decreases limit - depth, 4nat, 0nat,
{
    let lir_id = expr.lir_id;
    match expr.node {
        PlanNodeView::Constant { rows } => spec_acted(
            action,
            expr,
            interp.spec_constant(ctx, &rows),
            Seq::empty(),
            ctx,
        ),
        PlanNodeView::Get { id, keys, plan } => spec_acted(
            action,
            expr,
            interp.spec_get(ctx, &id, &keys, &plan),
            Seq::empty(),
            ctx,
        ),
        PlanNodeView::Let { id, value, body } => {
            let v = spec_fold_mut(interp, action, *value, ctx, depth, limit);
            match v.result {
                Err(e) => MutState {
                    result: Err(e),
                    ctx: v.ctx,
                    plan: PlanView {
                        node: PlanNodeView::Let { id, value: Box::new(v.plan), body },
                        lir_id,
                    },
                    action: v.action,
                },
                Ok(res_value) => {
                    let b = spec_fold_mut(
                        interp,
                        v.action,
                        *body,
                        v.ctx.bind(id, ContextEntry::spec_of_let(res_value)),
                        depth,
                        limit,
                    );
                    let node = PlanView {
                        node: PlanNodeView::Let {
                            id,
                            value: Box::new(v.plan),
                            body: Box::new(b.plan),
                        },
                        lir_id,
                    };
                    match b.result {
                        Err(e) => MutState {
                            result: Err(e),
                            ctx: b.ctx.unbind(id),
                            plan: node,
                            action: b.action,
                        },
                        Ok(res_body) => spec_acted(
                            b.action,
                            node,
                            res_body,
                            seq![res_value, res_body],
                            b.ctx.unbind(id),
                        ),
                    }
                },
            }
        },
        PlanNodeView::LetRec { ids, values, limits, body } => {
            let entered = ctx.with_rec(true).bind_all(
                ids@,
                ContextEntry::spec_of_let_rec(<I::Domain as BoundedLattice>::spec_bottom()),
            );
            let it = spec_iterate_mut(
                interp,
                action,
                ids@,
                values,
                spec_min_max_iter(limits@),
                entered,
                0,
                depth,
                limit,
            );
            match it.result {
                Err(e) => MutState {
                    result: Err(e),
                    ctx: it.ctx.with_rec(ctx.is_rec).unbind_all(ids@),
                    plan: PlanView {
                        node: PlanNodeView::LetRec { ids, values: it.plan, limits, body },
                        lir_id,
                    },
                    action: it.action,
                },
                Ok(_) => {
                    let b = spec_fold_mut(
                        interp,
                        it.action,
                        *body,
                        it.ctx.with_rec(ctx.is_rec),
                        depth,
                        limit,
                    );
                    let node = PlanView {
                        node: PlanNodeView::LetRec {
                            ids,
                            values: it.plan,
                            limits,
                            body: Box::new(b.plan),
                        },
                        lir_id,
                    };
                    match b.result {
                        Err(e) => MutState {
                            result: Err(e),
                            ctx: b.ctx.unbind_all(ids@),
                            plan: node,
                            action: b.action,
                        },
                        Ok(res_body) => spec_acted(
                            b.action,
                            node,
                            res_body,
                            it.ctx.values_of(ids@).push(res_body),
                            b.ctx.unbind_all(ids@),
                        ),
                    }
                },
            }
        },
        PlanNodeView::Mfp { input, mfp, input_key_val } => {
            let i = spec_fold_mut(interp, action, *input, ctx, depth, limit);
            let node = PlanView {
                node: PlanNodeView::Mfp { input: Box::new(i.plan), mfp, input_key_val },
                lir_id,
            };
            match i.result {
                Err(e) => MutState { result: Err(e), ctx: i.ctx, plan: node, action: i.action },
                Ok(d) => spec_acted(
                    i.action,
                    node,
                    interp.spec_mfp(i.ctx, d, &mfp, &input_key_val),
                    seq![d],
                    i.ctx,
                ),
            }
        },
        PlanNodeView::FlatMap { input, func, exprs, mfp_after, input_key } => {
            let i = spec_fold_mut(interp, action, *input, ctx, depth, limit);
            let node = PlanView {
                node: PlanNodeView::FlatMap {
                    input: Box::new(i.plan),
                    func,
                    exprs,
                    mfp_after,
                    input_key,
                },
                lir_id,
            };
            match i.result {
                Err(e) => MutState { result: Err(e), ctx: i.ctx, plan: node, action: i.action },
                Ok(d) => spec_acted(
                    i.action,
                    node,
                    interp.spec_flat_map(i.ctx, d, &func, &exprs, &mfp_after, &input_key),
                    seq![d],
                    i.ctx,
                ),
            }
        },
        PlanNodeView::Join { inputs, plan } => {
            let i = spec_fold_all_mut(interp, action, inputs, ctx, 0, Seq::empty(), depth, limit);
            let node = PlanView { node: PlanNodeView::Join { inputs: i.plan, plan }, lir_id };
            match i.result {
                Err(e) => MutState { result: Err(e), ctx: i.ctx, plan: node, action: i.action },
                Ok(ds) => spec_acted(i.action, node, interp.spec_join(i.ctx, ds, &plan), ds, i.ctx),
            }
        },
        PlanNodeView::Reduce { input, key_val_plan, plan, input_key, mfp_after } => {
            let i = spec_fold_mut(interp, action, *input, ctx, depth, limit);
            let node = PlanView {
                node: PlanNodeView::Reduce {
                    input: Box::new(i.plan),
                    key_val_plan,
                    plan,
                    input_key,
                    mfp_after,
                },
                lir_id,
            };
            match i.result {
                Err(e) => MutState { result: Err(e), ctx: i.ctx, plan: node, action: i.action },
                Ok(d) => spec_acted(
                    i.action,
                    node,
                    interp.spec_reduce(i.ctx, d, &key_val_plan, &plan, &input_key, &mfp_after),
                    seq![d],
                    i.ctx,
                ),
            }
        },
        PlanNodeView::TopK { input, top_k_plan } => {
            let i = spec_fold_mut(interp, action, *input, ctx, depth, limit);
            let node = PlanView {
                node: PlanNodeView::TopK { input: Box::new(i.plan), top_k_plan },
                lir_id,
            };
            match i.result {
                Err(e) => MutState { result: Err(e), ctx: i.ctx, plan: node, action: i.action },
                Ok(d) => spec_acted(
                    i.action,
                    node,
                    interp.spec_top_k(i.ctx, d, &top_k_plan),
                    seq![d],
                    i.ctx,
                ),
            }
        },
        PlanNodeView::Negate { input } => {
            let i = spec_fold_mut(interp, action, *input, ctx, depth, limit);
            let node = PlanView { node: PlanNodeView::Negate { input: Box::new(i.plan) }, lir_id };
            match i.result {
                Err(e) => MutState { result: Err(e), ctx: i.ctx, plan: node, action: i.action },
                Ok(d) => spec_acted(i.action, node, interp.spec_negate(i.ctx, d), seq![d], i.ctx),
            }
        },
        PlanNodeView::Threshold { input, threshold_plan } => {
            let i = spec_fold_mut(interp, action, *input, ctx, depth, limit);
            let node = PlanView {
                node: PlanNodeView::Threshold { input: Box::new(i.plan), threshold_plan },
                lir_id,
            };
            match i.result {
                Err(e) => MutState { result: Err(e), ctx: i.ctx, plan: node, action: i.action },
                Ok(d) => spec_acted(
                    i.action,
                    node,
                    interp.spec_threshold(i.ctx, d, &threshold_plan),
                    seq![d],
                    i.ctx,
                ),
            }
        },
        PlanNodeView::Union { inputs, consolidate_output } => {
            let i = spec_fold_all_mut(interp, action, inputs, ctx, 0, Seq::empty(), depth, limit);
            let node = PlanView {
                node: PlanNodeView::Union { inputs: i.plan, consolidate_output },
                lir_id,
            };
            match i.result {
                Err(e) => MutState { result: Err(e), ctx: i.ctx, plan: node, action: i.action },
                Ok(ds) => spec_acted(
                    i.action,
                    node,
                    interp.spec_union(i.ctx, ds, consolidate_output),
                    ds,
                    i.ctx,
                ),
            }
        },
        PlanNodeView::ArrangeBy { input, forms, input_key, input_mfp } => {
            let i = spec_fold_mut(interp, action, *input, ctx, depth, limit);
            let node = PlanView {
                node: PlanNodeView::ArrangeBy { input: Box::new(i.plan), forms, input_key, input_mfp },
                lir_id,
            };
            match i.result {
                Err(e) => MutState { result: Err(e), ctx: i.ctx, plan: node, action: i.action },
                Ok(d) => spec_acted(
                    i.action,
                    node,
                    interp.spec_arrange_by(i.ctx, d, &forms, &input_key, &input_mfp),
                    seq![d],
                    i.ctx,
                ),
            }
        },
    }
}

/// The mutating folds of the plans from position `i` on, one after the
/// other. The results are appended to `done`, and each plan is replaced by
/// what its fold left of it. The first failure stops the walk.
pub open spec fn spec_fold_all_mut<I, T, A>(
    interp: &I,
    action: A,
    plans: Seq<PlanView<T>>,
    ctx: ContextView<I::Domain>,
    i: int,
    done: Seq<I::Domain>,
    depth: nat,
    limit: nat,
) -> MutState<Seq<I::Domain>, Seq<PlanView<T>>, I::Domain, A> where
    I: Interpreter<T>,
    I::Domain: BoundedLattice,
    A: Action<T, I::Domain>,

    decreases limit - depth, 1nat, plans.len() - i,
{
    if 0 <= i < plans.len() {
        let f = spec_fold_mut(interp, action, plans[i], ctx, depth, limit);
        match f.result {
            Err(e) => MutState {
                result: Err(e),
                ctx: f.ctx,
                plan: plans.update(i, f.plan),
                action: f.action,
            },
            Ok(d) => spec_fold_all_mut(
                interp,
                f.action,
                plans.update(i, f.plan),
                f.ctx,
                i + 1,
                done.push(d),
                depth,
                limit,
            ),
        }
    } else {
        MutState { result: Ok(done), ctx, plan: plans, action }
    }
}

/// One round of the iteration of a `LetRec` in a mutating fold, from the
/// binding at position `i` on.
pub open spec fn spec_round_mut<I, T, A>(
    interp: &I,
    action: A,
    ids: Seq<LocalId>,
    values: Seq<PlanView<T>>,
    ctx: ContextView<I::Domain>,
    i: int,
    change: bool,
    depth: nat,
    limit: nat,
) -> MutState<bool, Seq<PlanView<T>>, I::Domain, A> where
    I: Interpreter<T>,
    I::Domain: BoundedLattice,
    A: Action<T, I::Domain>,

    decreases limit - depth, 2nat, ids.len() - i,
{
    if 0 <= i < ids.len() && i < values.len() {
        let f = spec_fold_mut(interp, action, values[i], ctx, depth, limit);
        let rewritten = values.update(i, f.plan);
        match f.result {
            Err(e) => MutState { result: Err(e), ctx: f.ctx, plan: rewritten, action: f.action },
            Ok(v) => {
                let cur = f.ctx.bindings[ids[i]].value;
                let new = v.spec_join(&cur);
                if new == cur {
                    spec_round_mut(
                        interp,
                        f.action,
                        ids,
                        rewritten,
                        f.ctx,
                        i + 1,
                        change,
                        depth,
                        limit,
                    )
                } else {
                    spec_round_mut(
                        interp,
                        f.action,
                        ids,
                        rewritten,
                        f.ctx.bind(ids[i], ContextEntry::spec_of_let_rec(new)),
                        i + 1,
                        true,
                        depth,
                        limit,
                    )
                }
            },
        }
    } else {
        MutState { result: Ok(change), ctx, plan: values, action }
    }
}

/// The iteration of a `LetRec` in a mutating fold, from round `iter` on.
pub open spec fn spec_iterate_mut<I, T, A>(
    interp: &I,
    action: A,
    ids: Seq<LocalId>,
    values: Seq<PlanView<T>>,
    bound: Option<u64>,
    ctx: ContextView<I::Domain>,
    iter: nat,
    depth: nat,
    limit: nat,
) -> MutState<bool, Seq<PlanView<T>>, I::Domain, A> where
    I: Interpreter<T>,
    I::Domain: BoundedLattice,
    A: Action<T, I::Domain>,

    decreases limit - depth, 3nat, MAX_LET_REC_ITERATIONS - iter,
{
    if spec_cut_short(bound, iter) {
        MutState {
            result: Ok(spec_not_converged(iter, ids.len())),
            ctx: ctx.bind_all(
                ids,
                ContextEntry::spec_of_let_rec(<I::Domain as BoundedLattice>::spec_top()),
            ),
            plan: values,
            action,
        }
    } else {
        let r = spec_round_mut(interp, action, ids, values, ctx, 0, false, depth, limit);
        match r.result {
            Err(e) => MutState { result: Err(e), ctx: r.ctx, plan: r.plan, action: r.action },
            Ok(false) => MutState { result: Ok(false), ctx: r.ctx, plan: r.plan, action: r.action },
            Ok(true) => spec_iterate_mut(
                interp,
                r.action,
                ids,
                r.plan,
                bound,
                r.ctx,
                iter + 1,
                depth,
                limit,
            ),
        }
    }
}

/// Replacing one plan of a sequence replaces its value in the sequence of
/// values.
pub proof fn lemma_views_update<T>(plans: Seq<Plan<T>>, i: int, p: Plan<T>)
    requires
        0 <= i < plans.len(),
    ensures
        spec_views(plans.update(i, p)) == spec_views(plans).update(i, p@),
        spec_views(plans).len() == plans.len(),
        spec_views(plans)[i] == plans[i]@,
{
    assert(spec_views(plans.update(i, p)) =~= spec_views(plans).update(i, p@));
}

/// Copies of the elements of `values`, in order.
fn duplicate_all<Domain: BoundedLattice>(values: &Vec<Domain>) -> (copies: Vec<Domain>)
    ensures
        copies@ == values@,
{
    let mut copies: Vec<Domain> = Vec::new();
    let mut i: usize = 0;
    while i < values.len()
        invariant
            i <= values.len(),
            copies@ == values@.take(i as int),
        decreases values.len() - i,
    {
        copies.push(values[i].duplicate());
        proof {
            assert(values@.take(i as int + 1) =~= values@.take(i as int).push(values@[i as int]));
        }
        i = i + 1;
    }
    proof {
        assert(values@.take(values@.len() as int) =~= values@);
    }
    copies
}

/// A fold over a plan that may rewrite the plan.
pub struct FoldMut<I, T, A> where I: Interpreter<T> {
    interpret: I,
    action: A,
    ctx: Context<I::Domain>,
}

impl<I, T, A> FoldMut<I, T, A> where
    I: Interpreter<T>,
    I::Domain: BoundedLattice,
    A: Action<T, I::Domain>,
 {
    /// The interpreter that the fold runs.
    pub closed spec fn interpreter(&self) -> I {
        self.interpret
    }

    /// The action that the fold hands each operator to.
    pub closed spec fn action(&self) -> A {
        self.action
    }

    /// The context that the fold keeps.
    pub closed spec fn context(&self) -> ContextView<I::Domain> {
        self.ctx@
    }

    /// The context that the fold keeps. Every fold leaves it as it was.
    pub fn ctx(&self) -> (c: &Context<I::Domain>)
        ensures
            c@ == self.context(),
    {
        &self.ctx
    }

    /// A fold that runs `interpreter` and hands each operator to `action`,
    /// with an empty context.
    pub fn new(interpreter: I, action: A) -> (f: Self)
        ensures
            f.interpreter() == interpreter,
            f.action() == action,
            f.context() == ContextView::<I::Domain>::spec_empty(),
    {
        Self { interpret: interpreter, action, ctx: Context::default() }
    }

    /// Runs the interpreter over `expr` bottom-up and returns the value of
    /// the whole plan. Each operator is handed to the action once it is
    /// interpreted, with its value and the values of its inputs. The inputs
    /// of a `Let` are its value and its body; those of a `LetRec` are its
    /// values, each with the value that its name is bound to when the body
    /// is interpreted, and its body.
    ///
    /// The plan must bind no name that is in sight where it is bound. The
    /// fold fails where the plan nests deeper than the recursion limit. The
    /// fold leaves the context as it found it, whether it succeeds or
    /// fails.
    pub fn apply(&mut self, expr: &mut Plan<T>) -> (r: Result<I::Domain, RecursionLimitError>)
        requires
            old(expr).spec_scoped(old(self).context().bound()),
        ensures
            final(self).interpreter() == old(self).interpreter(),
            (MutState {
                result: r,
                ctx: final(self).context(),
                plan: final(expr)@,
                action: final(self).action(),
            }) == spec_fold_mut(
                &old(self).interpreter(),
                old(self).action(),
                old(expr)@,
                old(self).context(),
                0,
                RECURSION_LIMIT as nat,
            ),
            final(self).context() == old(self).context(),
            final(expr).spec_scoped(old(self).context().bound()),
    {
        let mut rg = RecursionGuard::with_limit(RECURSION_LIMIT);
        self.apply_rec(expr, &mut rg)
    }

    fn apply_rec(&mut self, expr: &mut Plan<T>, rg: &mut RecursionGuard) -> (r: Result<
        I::Domain,
        RecursionLimitError,
    >)
        requires
            old(expr).spec_scoped(old(self).ctx@.bound()),
        ensures
            final(rg).depth() == old(rg).depth(),
            final(rg).limit() == old(rg).limit(),
            final(self).interpret == old(self).interpret,
            (MutState {
                result: r,
                ctx: final(self).ctx@,
                plan: final(expr)@,
                action: final(self).action,
            }) == spec_fold_mut(
                &old(self).interpret,
                old(self).action,
                old(expr)@,
                old(self).ctx@,
                old(rg).depth(),
                old(rg).limit(),
            ),
            final(self).ctx@ == old(self).ctx@,
            final(expr).spec_scoped(old(self).ctx@.bound()),
        decreases old(rg).limit() - old(rg).depth(), 0nat,
    {
        match rg.descend() {
            Err(e) => {
                return Err(e);
            },
            Ok(()) => {},
        }
        let out = self.apply_node(expr, rg);
        rg.ascend();
        out
    }

    fn apply_all(&mut self, plans: &mut Vec<Plan<T>>, rg: &mut RecursionGuard) -> (r: Result<
        Vec<I::Domain>,
        RecursionLimitError,
    >)
        requires
            forall|i: int|
                0 <= i < old(plans)@.len() ==> (#[trigger] old(plans)@[i]).spec_scoped(
                    old(self).ctx@.bound(),
                ),
        ensures
            final(rg).depth() == old(rg).depth(),
            final(rg).limit() == old(rg).limit(),
            final(self).interpret == old(self).interpret,
            (MutState {
                result: match r {
                    Ok(ds) => Ok(ds@),
                    Err(e) => Err(e),
                },
                ctx: final(self).ctx@,
                plan: spec_views(final(plans)@),
                action: final(self).action,
            }) == spec_fold_all_mut(
                &old(self).interpret,
                old(self).action,
                spec_views(old(plans)@),
                old(self).ctx@,
                0,
                Seq::empty(),
                old(rg).depth(),
                old(rg).limit(),
            ),
            final(self).ctx@ == old(self).ctx@,
            final(plans)@.len() == old(plans)@.len(),
            forall|i: int|
                0 <= i < final(plans)@.len() ==> (#[trigger] final(plans)@[i]).spec_scoped(
                    old(self).ctx@.bound(),
                ),
        decreases old(rg).limit() - old(rg).depth(), 1nat,
    {
        let mut done: Vec<I::Domain> = Vec::new();
        let mut i: usize = 0;
        while i < plans.len()
            invariant
                i <= plans.len(),
                plans@.len() == old(plans)@.len(),
                rg.depth() == old(rg).depth(),
                rg.limit() == old(rg).limit(),
                self.interpret == old(self).interpret,
                self.ctx@ == old(self).ctx@,
                forall|i: int|
                    0 <= i < plans@.len() ==> (#[trigger] plans@[i]).spec_scoped(
                        old(self).ctx@.bound(),
                    ),
                spec_fold_all_mut(
                    &self.interpret,
                    self.action,
                    spec_views(plans@),
                    self.ctx@,
                    i as int,
                    done@,
                    rg.depth(),
                    rg.limit(),
                ) == spec_fold_all_mut(
                    &old(self).interpret,
                    old(self).action,
                    spec_views(old(plans)@),
                    old(self).ctx@,
                    0,
                    Seq::empty(),
                    old(rg).depth(),
                    old(rg).limit(),
                ),
            decreases plans.len() - i,
        {
            let ghost before = plans@;
            let res = self.apply_rec(&mut plans[i], rg);
            proof {
                lemma_views_update(before, i as int, plans@[i as int]);
            }
            match res {
                Ok(d) => {
                    done.push(d);
                },
                Err(e) => {
                    return Err(e);
                },
            }
            i = i + 1;
        }
        Ok(done)
    }

    fn round(&mut self, ids: &Vec<LocalId>, values: &mut Vec<Plan<T>>, rg: &mut RecursionGuard) -> (r:
        Result<bool, RecursionLimitError>)
        requires
            ids@.len() == old(values)@.len(),
            forall|i: int|
                0 <= i < ids@.len() ==> old(self).ctx@.bound().contains(#[trigger] ids@[i]),
            forall|i: int|
                0 <= i < old(values)@.len() ==> (#[trigger] old(values)@[i]).spec_scoped(
                    old(self).ctx@.bound(),
                ),
        ensures
            final(rg).depth() == old(rg).depth(),
            final(rg).limit() == old(rg).limit(),
            final(self).interpret == old(self).interpret,
            (MutState {
                result: r,
                ctx: final(self).ctx@,
                plan: spec_views(final(values)@),
                action: final(self).action,
            }) == spec_round_mut(
                &old(self).interpret,
                old(self).action,
                ids@,
                spec_views(old(values)@),
                old(self).ctx@,
                0,
                false,
                old(rg).depth(),
                old(rg).limit(),
            ),
            spec_agree_outside(final(self).ctx@, old(self).ctx@, ids@),
            final(values)@.len() == old(values)@.len(),
            forall|i: int|
                0 <= i < final(values)@.len() ==> (#[trigger] final(values)@[i]).spec_scoped(
                    old(self).ctx@.bound(),
                ),
        decreases old(rg).limit() - old(rg).depth(), 2nat,
    {
        let mut change = false;
        let mut i: usize = 0;
        while i < ids.len()
            invariant
                i <= ids.len(),
                ids@.len() == values@.len(),
                values@.len() == old(values)@.len(),
                rg.depth() == old(rg).depth(),
                rg.limit() == old(rg).limit(),
                self.interpret == old(self).interpret,
                spec_agree_outside(self.ctx@, old(self).ctx@, ids@),
                forall|i: int|
                    0 <= i < ids@.len() ==> old(self).ctx@.bound().contains(#[trigger] ids@[i]),
                forall|i: int|
                    0 <= i < values@.len() ==> (#[trigger] values@[i]).spec_scoped(
                        old(self).ctx@.bound(),
                    ),
                spec_round_mut(
                    &self.interpret,
                    self.action,
                    ids@,
                    spec_views(values@),
                    self.ctx@,
                    i as int,
                    change,
                    rg.depth(),
                    rg.limit(),
                ) == spec_round_mut(
                    &old(self).interpret,
                    old(self).action,
                    ids@,
                    spec_views(old(values)@),
                    old(self).ctx@,
                    0,
                    false,
                    old(rg).depth(),
                    old(rg).limit(),
                ),
            decreases ids.len() - i,
        {
            let id = ids[i];
            let ghost before = self.ctx@;
            let ghost plans_before = values@;
            // Compute and join new with the current estimate.
            let res = self.apply_rec(&mut values[i], rg);
            proof {
                lemma_views_update(plans_before, i as int, values@[i as int]);
            }
            let mut res_value_new = match res {
                Ok(v) => v,
                Err(e) => {
                    return Err(e);
                },
            };
            res_value_new.join_assign(self.ctx.value_of(&id));
            // If the estimate has changed, update the context entry.
            if !res_value_new.same(self.ctx.value_of(&id)) {
                change = true;
                self.ctx.rebind(id, ContextEntry::of_let_rec(res_value_new));
                proof {
                    assert(self.ctx@.bound() =~= before.bound());
                    assert(ids@.contains(ids@[i as int]));
                }
            }
            i = i + 1;
        }
        Ok(change)
    }

    fn iterate(
        &mut self,
        ids: &Vec<LocalId>,
        values: &mut Vec<Plan<T>>,
        min_max_iter: Option<u64>,
        rg: &mut RecursionGuard,
    ) -> (r: Result<bool, RecursionLimitError>)
        requires
            ids@.len() == old(values)@.len(),
            forall|i: int|
                0 <= i < ids@.len() ==> old(self).ctx@.bound().contains(#[trigger] ids@[i]),
            forall|i: int|
                0 <= i < old(values)@.len() ==> (#[trigger] old(values)@[i]).spec_scoped(
                    old(self).ctx@.bound(),
                ),
        ensures
            final(rg).depth() == old(rg).depth(),
            final(rg).limit() == old(rg).limit(),
            final(self).interpret == old(self).interpret,
            (MutState {
                result: r,
                ctx: final(self).ctx@,
                plan: spec_views(final(values)@),
                action: final(self).action,
            }) == spec_iterate_mut(
                &old(self).interpret,
                old(self).action,
                ids@,
                spec_views(old(values)@),
                min_max_iter,
                old(self).ctx@,
                0,
                old(rg).depth(),
                old(rg).limit(),
            ),
            spec_agree_outside(final(self).ctx@, old(self).ctx@, ids@),
            final(values)@.len() == old(values)@.len(),
            forall|i: int|
                0 <= i < final(values)@.len() ==> (#[trigger] final(values)@[i]).spec_scoped(
                    old(self).ctx@.bound(),
                ),
        decreases old(rg).limit() - old(rg).depth(), 3nat,
    {
        let mut curr_iteration: u64 = 0;
        loop
            invariant
                curr_iteration <= MAX_LET_REC_ITERATIONS,
                ids@.len() == values@.len(),
                values@.len() == old(values)@.len(),
                rg.depth() == old(rg).depth(),
                rg.limit() == old(rg).limit(),
                self.interpret == old(self).interpret,
                spec_agree_outside(self.ctx@, old(self).ctx@, ids@),
                forall|i: int|
                    0 <= i < ids@.len() ==> old(self).ctx@.bound().contains(#[trigger] ids@[i]),
                forall|i: int|
                    0 <= i < values@.len() ==> (#[trigger] values@[i]).spec_scoped(
                        old(self).ctx@.bound(),
                    ),
                spec_iterate_mut(
                    &self.interpret,
                    self.action,
                    ids@,
                    spec_views(values@),
                    min_max_iter,
                    self.ctx@,
                    curr_iteration as nat,
                    rg.depth(),
                    rg.limit(),
                ) == spec_iterate_mut(
                    &old(self).interpret,
                    old(self).action,
                    ids@,
                    spec_views(old(values)@),
                    min_max_iter,
                    old(self).ctx@,
                    0,
                    old(rg).depth(),
                    old(rg).limit(),
                ),
            decreases MAX_LET_REC_ITERATIONS - curr_iteration,
        {
            let at_bound = match min_max_iter {
                Some(m) => curr_iteration >= m,
                None => false,
            };
            if curr_iteration >= MAX_LET_REC_ITERATIONS || at_bound {
                // Reset all ids to `top` (a conservative value).
                let ghost before = self.ctx@;
                self.ctx.reset_tops(ids);
                proof {
                    assert(self.ctx@.bound() =~= before.bound()) by {
                        assert forall|k: LocalId| ids@.contains(k) implies before.bound().contains(
                            k,
                        ) by {
                            let j = choose|j: int| 0 <= j < ids@.len() && ids@[j] == k;
                            assert(old(self).ctx@.bound().contains(ids@[j]));
                        }
                    }
                }
                return Ok(not_converged(curr_iteration, ids.len()));
            }
            let change = match self.round(ids, values, rg) {
                Ok(c) => c,
                Err(e) => {
                    return Err(e);
                },
            };
            if !change {
                return Ok(false);
            }
            curr_iteration = curr_iteration + 1;
        }
    }

    fn apply_node(&mut self, expr: &mut Plan<T>, rg: &mut RecursionGuard) -> (r: Result<
        I::Domain,
        RecursionLimitError,
    >)
        requires
            old(expr).spec_scoped(old(self).ctx@.bound()),
        ensures
            final(rg).depth() == old(rg).depth(),
            final(rg).limit() == old(rg).limit(),
            final(self).interpret == old(self).interpret,
            (MutState {
                result: r,
                ctx: final(self).ctx@,
                plan: final(expr)@,
                action: final(self).action,
            }) == spec_node_mut(
                &old(self).interpret,
                old(self).action,
                old(expr)@,
                old(self).ctx@,
                old(rg).depth(),
                old(rg).limit(),
            ),
            final(self).ctx@ == old(self).ctx@,
            final(expr).spec_scoped(old(self).ctx@.bound()),
        decreases old(rg).limit() - old(rg).depth(), 4nat,
    {
        match &mut expr.node {
            PlanNode::Constant { rows } => {
                // Interpret the current node.
                let result = self.interpret.constant(&self.ctx, rows);
                // Mutate the current node using the given `action`.
                let children: Vec<I::Domain> = Vec::new();
                self.action.act(expr, &result, children.as_slice());
                // Pass the interpretation result up.
                Ok(result)
            },
            PlanNode::Get { id, keys, plan } => {
                // Interpret the current node.
                let result = self.interpret.get(&self.ctx, id, keys, plan);
                // Mutate the current node using the given `action`.
                let children: Vec<I::Domain> = Vec::new();
                self.action.act(expr, &result, children.as_slice());
                // Pass the interpretation result up.
                Ok(result)
            },
            PlanNode::Let { id, value, body } => {
                // Extend context with the `value` result.
                let res_value = match self.apply_rec(value, rg) {
                    Ok(v) => v,
                    Err(e) => {
                        return Err(e);
                    },
                };
                self.ctx.bind(*id, ContextEntry::of_let(res_value.duplicate()));
                proof {
                    assert(self.ctx@.bound() =~= old(self).ctx@.bound().insert(*id));
                }
                // Descend into `body` with the extended context.
                let res_body = self.apply_rec(body, rg);
                // Revert the context.
                self.ctx.unbind(id);
                proof {
                    assert(self.ctx@.bindings =~= old(self).ctx@.bindings);
                }
                let result = match res_body {
                    Ok(v) => v,
                    Err(e) => {
                        return Err(e);
                    },
                };
                // Mutate the current node using the given `action`.
                let mut children: Vec<I::Domain> = Vec::new();
                children.push(res_value);
                children.push(result.duplicate());
                proof {
                    assert(children@ =~= seq![res_value, result]);
                }
                self.action.act(expr, &result, children.as_slice());
                // Pass the interpretation result up.
                Ok(result)
            },
            PlanNode::LetRec { ids, values, limits, body } => {
                // Make context recursive and extend it with `bottom` for each
                // recursive binding. This corresponds to starting with the
                // most optimistic value.
                let previous_is_rec = self.ctx.is_rec;
                self.ctx.is_rec = true;
                self.ctx.bind_bottoms(ids);
                let ghost entered = self.ctx@;
                proof {
                    assert(entered.bound() =~= old(self).ctx@.bound().union(ids@.to_set()));
                    assert forall|i: int| 0 <= i < ids@.len() implies entered.bound().contains(
                        #[trigger] ids@[i],
                    ) by {
                        assert(ids@.contains(ids@[i]));
                    }
                }
                let min_max_iter = LetRecLimit::min_max_iter(limits);
                let iterated = self.iterate(ids, values, min_max_iter, rg);
                // While the body uses bindings that are recursive, its
                // recursiveness is given by the previous context.
                self.ctx.is_rec = previous_is_rec;
                proof {
                    crate::plan::interpret::fold::lemma_unbind_restores(
                        old(self).ctx@,
                        self.ctx@,
                        ids@,
                    );
                }
                match iterated {
                    Ok(_) => {},
                    Err(e) => {
                        // Revert the context.
                        self.ctx.unbind_all(ids);
                        return Err(e);
                    },
                }
                // The values of the bindings, as the body meets them.
                let mut children = self.ctx.values_of(ids);
                // Descend into `body` with the extended context.
                let res_body = self.apply_rec(body, rg);
                // Revert the context.
                self.ctx.unbind_all(ids);
                let result = match res_body {
                    Ok(v) => v,
                    Err(e) => {
                        return Err(e);
                    },
                };
                // Mutate the current node using the given `action`.
                children.push(result.duplicate());
                self.action.act(expr, &result, children.as_slice());
                // Pass the interpretation result up.
                Ok(result)
            },
            PlanNode::Mfp { input, mfp, input_key_val } => {
                // Descend recursively into all children.
                let input = match self.apply_rec(input, rg) {
                    Ok(v) => v,
                    Err(e) => {
                        return Err(e);
                    },
                };
                // Interpret the current node.
                let result = self.interpret.mfp(&self.ctx, input.duplicate(), mfp, input_key_val);
                // Mutate the current node using the given `action`.
                let mut children: Vec<I::Domain> = Vec::new();
                children.push(input);
                self.action.act(expr, &result, children.as_slice());
                // Pass the interpretation result up.
                Ok(result)
            },
            PlanNode::FlatMap { input, func, exprs, mfp_after, input_key } => {
                // Descend recursively into all children.
                let input = match self.apply_rec(input, rg) {
                    Ok(v) => v,
                    Err(e) => {
                        return Err(e);
                    },
                };
                // Interpret the current node.
                let result = self.interpret.flat_map(
                    &self.ctx,
                    input.duplicate(),
                    func,
                    exprs,
                    mfp_after,
                    input_key,
                );
                // Mutate the current node using the given `action`.
                let mut children: Vec<I::Domain> = Vec::new();
                children.push(input);
                self.action.act(expr, &result, children.as_slice());
                // Pass the interpretation result up.
                Ok(result)
            },
            PlanNode::Join { inputs, plan } => {
                // Descend recursively into all children.
                let inputs = match self.apply_all(inputs, rg) {
                    Ok(v) => v,
                    Err(e) => {
                        return Err(e);
                    },
                };
                // Interpret the current node.
                let result = self.interpret.join(&self.ctx, duplicate_all(&inputs), plan);
                // Mutate the current node using the given `action`.
                self.action.act(expr, &result, inputs.as_slice());
                // Pass the interpretation result up.
                Ok(result)
            },
            PlanNode::Reduce { input, key_val_plan, plan, input_key, mfp_after } => {
                // Descend recursively into all children.
                let input = match self.apply_rec(input, rg) {
                    Ok(v) => v,
                    Err(e) => {
                        return Err(e);
                    },
                };
                // Interpret the current node.
                let result = self.interpret.reduce(
                    &self.ctx,
                    input.duplicate(),
                    key_val_plan,
                    plan,
                    input_key,
                    mfp_after,
                );
                // Mutate the current node using the given `action`.
                let mut children: Vec<I::Domain> = Vec::new();
                children.push(input);
                self.action.act(expr, &result, children.as_slice());
                // Pass the interpretation result up.
                Ok(result)
            },
            PlanNode::TopK { input, top_k_plan } => {
                // Descend recursively into all children.
                let input = match self.apply_rec(input, rg) {
                    Ok(v) => v,
                    Err(e) => {
                        return Err(e);
                    },
                };
                // Interpret the current node.
                let result = self.interpret.top_k(&self.ctx, input.duplicate(), top_k_plan);
                // Mutate the current node using the given `action`.
                let mut children: Vec<I::Domain> = Vec::new();
                children.push(input);
                self.action.act(expr, &result, children.as_slice());
                // Pass the interpretation result up.
                Ok(result)
            },
            PlanNode::Negate { input } => {
                // Descend recursively into all children.
                let input = match self.apply_rec(input, rg) {
                    Ok(v) => v,
                    Err(e) => {
                        return Err(e);
                    },
                };
                // Interpret the current node.
                let result = self.interpret.negate(&self.ctx, input.duplicate());
                // Mutate the current node using the given `action`.
                let mut children: Vec<I::Domain> = Vec::new();
                children.push(input);
                self.action.act(expr, &result, children.as_slice());
                // Pass the interpretation result up.
                Ok(result)
            },
            PlanNode::Threshold { input, threshold_plan } => {
                // Descend recursively into all children.
                let input = match self.apply_rec(input, rg) {
                    Ok(v) => v,
                    Err(e) => {
                        return Err(e);
                    },
                };
                // Interpret the current node.
                let result = self.interpret.threshold(&self.ctx, input.duplicate(), threshold_plan);
                // Mutate the current node using the given `action`.
                let mut children: Vec<I::Domain> = Vec::new();
                children.push(input);
                self.action.act(expr, &result, children.as_slice());
                // Pass the interpretation result up.
                Ok(result)
            },
            PlanNode::Union { inputs, consolidate_output } => {
                // Descend recursively into all children.
                let inputs = match self.apply_all(inputs, rg) {
                    Ok(v) => v,
                    Err(e) => {
                        return Err(e);
                    },
                };
                // Interpret the current node.
                let result = self.interpret.union(
                    &self.ctx,
                    duplicate_all(&inputs),
                    *consolidate_output,
                );
                // Mutate the current node using the given `action`.
                self.action.act(expr, &result, inputs.as_slice());
                // Pass the interpretation result up.
                Ok(result)
            },
            PlanNode::ArrangeBy { input, forms, input_key, input_mfp } => {
                // Descend recursively into all children.
                let input = match self.apply_rec(input, rg) {
                    Ok(v) => v,
                    Err(e) => {
                        return Err(e);
                    },
                };
                // Interpret the current node.
                let result = self.interpret.arrange_by(
                    &self.ctx,
                    input.duplicate(),
                    forms,
                    input_key,
                    input_mfp,
                );
                // Mutate the current node using the given `action`.
                let mut children: Vec<I::Domain> = Vec::new();
                children.push(input);
                self.action.act(expr, &result, children.as_slice());
                // Pass the interpretation result up.
                Ok(result)
            },
        }
    }
}

} // verus!

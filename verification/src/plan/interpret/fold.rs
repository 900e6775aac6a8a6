//! The fold that reads a plan.
//!
//! The fold walks the plan bottom-up and depth first. A `Let` interprets its
//! value, binds it, interprets its body with the binding in sight, and takes
//! the binding out again. A `LetRec` binds all its names to the bottom
//! element and interprets its values round after round, merging each result
//! into the binding it belongs to, until a round changes nothing or the
//! bound on the rounds is reached; in the second case all its names are
//! bound to the top element. Every other operator is handed to the
//! interpreter once its inputs are interpreted.
use vstd::prelude::*;
use crate::plan::interpret::api::{
    BoundedLattice, Context, ContextEntry, ContextView, Interpreter, RecursionGuard,
    RecursionLimitError, MAX_LET_REC_ITERATIONS, RECURSION_LIMIT,
};
use crate::plan::tree::{LetRecLimit, LocalId, Plan, PlanNode};

verus! {

/// Where a fold stands after a step: what the step gave, and the context it
/// left.
#[verifier::ext_equal]
pub struct FoldState<V, Domain> {
    /// The result of the step, or the failure that stopped it.
    pub result: Result<V, RecursionLimitError>,
    /// The context after the step.
    pub ctx: ContextView<Domain>,
}

/// Whether the iteration of a `LetRec` is cut short before round `iter`:
/// the round is beyond the general bound or beyond the bound of the plan.
pub open spec fn spec_cut_short(bound: Option<u64>, iter: nat) -> bool {
    iter >= MAX_LET_REC_ITERATIONS || (bound is Some && iter >= bound->Some_0)
}

/// Whether an iteration that is cut short after `rounds` rounds that changed
/// a binding has likely not converged: it ran more such rounds than the
/// `LetRec` has names.
pub open spec fn spec_not_converged(rounds: nat, names: nat) -> bool {
    rounds > names
}

/// Reports whether an iteration that is cut short after `rounds` rounds
/// that changed a binding has likely not converged. Such a cut is worth a
/// warning: it binds the names to the top element, which is safe, but it
/// points to values that never settle.
pub fn not_converged(rounds: u64, names: usize) -> (b: bool)
    ensures
        b == spec_not_converged(rounds as nat, names as nat),
{
    rounds as u128 > names as u128
}

/// The fold of `expr` in the context `ctx`, with `depth` operators above
/// it. It fails where the depth has reached `limit`.
pub open spec fn spec_fold<I, T>(
    interp: &I,
    expr: &Plan<T>,
    ctx: ContextView<I::Domain>,
    depth: nat,
    limit: nat,
) -> FoldState<I::Domain, I::Domain> where I: Interpreter<T>, I::Domain: BoundedLattice
    decreases limit - depth, 0nat, 0nat,
{
    if depth >= limit {
        FoldState { result: Err(RecursionLimitError { limit: limit as usize }), ctx }
    } else {
        spec_node(interp, expr, ctx, depth + 1, limit)
    }
}

/// The fold of the operator at the root of `expr`, which stands at depth
/// `depth`.
pub open spec fn spec_node<I, T>(
    interp: &I,
    expr: &Plan<T>,
    ctx: ContextView<I::Domain>,
    depth: nat,
    limit: nat,
) -> FoldState<I::Domain, I::Domain> where I: Interpreter<T>, I::Domain: BoundedLattice
    decreases limit - depth, 4nat, 0nat,
{
    match &expr.node {
        PlanNode::Constant { rows } => FoldState {
            result: Ok(interp.spec_constant(ctx, rows)),
            ctx,
        },
        PlanNode::Get { id, keys, plan } => FoldState {
            result: Ok(interp.spec_get(ctx, id, keys, plan)),
            ctx,
        },
        PlanNode::Let { id, value, body } => {
            let v = spec_fold(interp, &**value, ctx, depth, limit);
            match v.result {
                Err(e) => FoldState { result: Err(e), ctx: v.ctx },
                Ok(res_value) => {
                    let b = spec_fold(
                        interp,
                        &**body,
                        v.ctx.bind(*id, ContextEntry::spec_of_let(res_value)),
                        depth,
                        limit,
                    );
                    FoldState { result: b.result, ctx: b.ctx.unbind(*id) }
                },
            }
        },
        PlanNode::LetRec { ids, values, limits, body } => {
            let entered = ctx.with_rec(true).bind_all(
                ids@,
                ContextEntry::spec_of_let_rec(<I::Domain as BoundedLattice>::spec_bottom()),
            );
            let it = spec_iterate(
                interp,
                ids@,
                values@,
                crate::plan::interpret::api::spec_min_max_iter(limits@),
                entered,
                0,
                depth,
                limit,
            );
            match it.result {
                Err(e) => FoldState {
                    result: Err(e),
                    ctx: it.ctx.with_rec(ctx.is_rec).unbind_all(ids@),
                },
                Ok(_) => {
                    let b = spec_fold(interp, &**body, it.ctx.with_rec(ctx.is_rec), depth, limit);
                    FoldState { result: b.result, ctx: b.ctx.unbind_all(ids@) }
                },
            }
        },
        PlanNode::Mfp { input, mfp, input_key_val } => {
            let i = spec_fold(interp, &**input, ctx, depth, limit);
            match i.result {
                Err(e) => FoldState { result: Err(e), ctx: i.ctx },
                Ok(d) => FoldState {
                    result: Ok(interp.spec_mfp(i.ctx, d, mfp, input_key_val)),
                    ctx: i.ctx,
                },
            }
        },
        PlanNode::FlatMap { input, func, exprs, mfp_after, input_key } => {
            let i = spec_fold(interp, &**input, ctx, depth, limit);
            match i.result {
                Err(e) => FoldState { result: Err(e), ctx: i.ctx },
                Ok(d) => FoldState {
                    result: Ok(interp.spec_flat_map(i.ctx, d, func, exprs, mfp_after, input_key)),
                    ctx: i.ctx,
                },
            }
        },
        PlanNode::Join { inputs, plan } => {
            let i = spec_fold_all(interp, inputs@, ctx, 0, Seq::empty(), depth, limit);
            match i.result {
                Err(e) => FoldState { result: Err(e), ctx: i.ctx },
                Ok(ds) => FoldState { result: Ok(interp.spec_join(i.ctx, ds, plan)), ctx: i.ctx },
            }
        },
        PlanNode::Reduce { input, key_val_plan, plan, input_key, mfp_after } => {
            let i = spec_fold(interp, &**input, ctx, depth, limit);
            match i.result {
                Err(e) => FoldState { result: Err(e), ctx: i.ctx },
                Ok(d) => FoldState {
                    result: Ok(
                        interp.spec_reduce(i.ctx, d, key_val_plan, plan, input_key, mfp_after),
                    ),
                    ctx: i.ctx,
                },
            }
        },
        PlanNode::TopK { input, top_k_plan } => {
            let i = spec_fold(interp, &**input, ctx, depth, limit);
            match i.result {
                Err(e) => FoldState { result: Err(e), ctx: i.ctx },
                Ok(d) => FoldState { result: Ok(interp.spec_top_k(i.ctx, d, top_k_plan)), ctx: i.ctx },
            }
        },
        PlanNode::Negate { input } => {
            let i = spec_fold(interp, &**input, ctx, depth, limit);
            match i.result {
                Err(e) => FoldState { result: Err(e), ctx: i.ctx },
                Ok(d) => FoldState { result: Ok(interp.spec_negate(i.ctx, d)), ctx: i.ctx },
            }
        },
        PlanNode::Threshold { input, threshold_plan } => {
            let i = spec_fold(interp, &**input, ctx, depth, limit);
            match i.result {
                Err(e) => FoldState { result: Err(e), ctx: i.ctx },
                Ok(d) => FoldState {
                    result: Ok(interp.spec_threshold(i.ctx, d, threshold_plan)),
                    ctx: i.ctx,
                },
            }
        },
        PlanNode::Union { inputs, consolidate_output } => {
            let i = spec_fold_all(interp, inputs@, ctx, 0, Seq::empty(), depth, limit);
            match i.result {
                Err(e) => FoldState { result: Err(e), ctx: i.ctx },
                Ok(ds) => FoldState {
                    result: Ok(interp.spec_union(i.ctx, ds, *consolidate_output)),
                    ctx: i.ctx,
                },
            }
        },
        PlanNode::ArrangeBy { input, forms, input_key, input_mfp } => {
            let i = spec_fold(interp, &**input, ctx, depth, limit);
            match i.result {
                Err(e) => FoldState { result: Err(e), ctx: i.ctx },
                Ok(d) => FoldState {
                    result: Ok(interp.spec_arrange_by(i.ctx, d, forms, input_key, input_mfp)),
                    ctx: i.ctx,
                },
            }
        },
    }
}

/// The folds of the plans from position `i` on, one after the other, each
/// in the context that the one before it left. The results are appended to
/// `done`. The first failure stops the walk.
pub open spec fn spec_fold_all<I, T>(
    interp: &I,
    plans: Seq<Plan<T>>,
    ctx: ContextView<I::Domain>,
    i: int,
    done: Seq<I::Domain>,
    depth: nat,
    limit: nat,
) -> FoldState<Seq<I::Domain>, I::Domain> where I: Interpreter<T>, I::Domain: BoundedLattice
    decreases limit - depth, 1nat, plans.len() - i,
{
    if 0 <= i < plans.len() {
        let f = spec_fold(interp, &plans[i], ctx, depth, limit);
        match f.result {
            Err(e) => FoldState { result: Err(e), ctx: f.ctx },
            Ok(d) => spec_fold_all(interp, plans, f.ctx, i + 1, done.push(d), depth, limit),
        }
    } else {
        FoldState { result: Ok(done), ctx }
    }
}

/// One round of the iteration of a `LetRec`, from the binding at position
/// `i` on. Each value is folded in the context as it stands, its result is
/// joined with what its name is bound to, and the name is bound anew where
/// that changes it. The result says whether this round changed a binding,
/// given that `change` says so of the bindings before `i`.
pub open spec fn spec_round<I, T>(
    interp: &I,
    ids: Seq<LocalId>,
    values: Seq<Plan<T>>,
    ctx: ContextView<I::Domain>,
    i: int,
    change: bool,
    depth: nat,
    limit: nat,
) -> FoldState<bool, I::Domain> where I: Interpreter<T>, I::Domain: BoundedLattice
    decreases limit - depth, 2nat, ids.len() - i,
{
    if 0 <= i < ids.len() && i < values.len() {
        let f = spec_fold(interp, &values[i], ctx, depth, limit);
        match f.result {
            Err(e) => FoldState { result: Err(e), ctx: f.ctx },
            Ok(v) => {
                let cur = f.ctx.bindings[ids[i]].value;
                let new = v.spec_join(&cur);
                if new == cur {
                    spec_round(interp, ids, values, f.ctx, i + 1, change, depth, limit)
                } else {
                    spec_round(
                        interp,
                        ids,
                        values,
                        f.ctx.bind(ids[i], ContextEntry::spec_of_let_rec(new)),
                        i + 1,
                        true,
                        depth,
                        limit,
                    )
                }
            },
        }
    } else {
        FoldState { result: Ok(change), ctx }
    }
}

/// The iteration of a `LetRec` from round `iter` on. Where the round is cut
/// short, all names are bound to the top element. Else a round is run; the
/// iteration ends with the first round that changes no binding. The result
/// says whether the iteration was cut short and has likely not converged.
pub open spec fn spec_iterate<I, T>(
    interp: &I,
    ids: Seq<LocalId>,
    values: Seq<Plan<T>>,
    bound: Option<u64>,
    ctx: ContextView<I::Domain>,
    iter: nat,
    depth: nat,
    limit: nat,
) -> FoldState<bool, I::Domain> where I: Interpreter<T>, I::Domain: BoundedLattice
    decreases limit - depth, 3nat, MAX_LET_REC_ITERATIONS - iter,
{
    if spec_cut_short(bound, iter) {
        FoldState {
            result: Ok(spec_not_converged(iter, ids.len())),
            ctx: ctx.bind_all(
                ids,
                ContextEntry::spec_of_let_rec(<I::Domain as BoundedLattice>::spec_top()),
            ),
        }
    } else {
        let r = spec_round(interp, ids, values, ctx, 0, false, depth, limit);
        match r.result {
            Err(e) => FoldState { result: Err(e), ctx: r.ctx },
            Ok(false) => FoldState { result: Ok(false), ctx: r.ctx },
            Ok(true) => spec_iterate(interp, ids, values, bound, r.ctx, iter + 1, depth, limit),
        }
    }
}

/// Whether two contexts have the same flag and bind the same names, and
/// bind each name that is not among `ids` to the same entry.
pub open spec fn spec_agree_outside<Domain>(
    a: ContextView<Domain>,
    b: ContextView<Domain>,
    ids: Seq<LocalId>,
) -> bool {
    &&& a.is_rec == b.is_rec
    &&& a.bound() == b.bound()
    &&& forall|k: LocalId|
        a.bindings.contains_key(k) && !ids.contains(k) ==> #[trigger] a.bindings[k] == b.bindings[k]
}

/// Taking the names of a `LetRec` out of a context that binds them beside
/// what was bound before gives back the bindings that were there before.
pub proof fn lemma_unbind_restores<Domain>(
    before: ContextView<Domain>,
    inside: ContextView<Domain>,
    ids: Seq<LocalId>,
)
    requires
        forall|i: int| 0 <= i < ids.len() ==> !before.bound().contains(#[trigger] ids[i]),
        inside.bound() == before.bound().union(ids.to_set()),
        forall|k: LocalId|
            before.bindings.contains_key(k) ==> #[trigger] inside.bindings[k] == before.bindings[k],
    ensures
        inside.unbind_all(ids).bindings == before.bindings,
{
    assert forall|k: LocalId| before.bindings.contains_key(k) implies !ids.contains(k) by {
        if ids.contains(k) {
            let j = choose|j: int| 0 <= j < ids.len() && ids[j] == k;
            assert(!before.bound().contains(ids[j]));
        }
    }
    assert(inside.unbind_all(ids).bindings =~= before.bindings);
}

/// `itertools::zip_eq` on the names and the values of a `LetRec`, with its
/// pairs collected. The iterator it returns hands out the elements of both
/// sides in lockstep and panics where one side ends before the other; on
/// sides of one length it hands out, at each position, the pair of the two
/// elements at that position.
#[verifier::external_body]
fn zip_eq<'a, T>(ids: &'a Vec<LocalId>, values: &'a Vec<Plan<T>>) -> (pairs: Vec<
    (&'a LocalId, &'a Plan<T>),
>)
    requires
        ids@.len() == values@.len(),
    ensures
        pairs@.len() == ids@.len(),
        forall|i: int| 0 <= i < pairs@.len() ==> #[trigger] pairs@[i] == (&ids@[i], &values@[i]),
{
    itertools::zip_eq(ids.iter(), values.iter()).collect()
}

/// A fold over a plan that does not change the plan.
pub struct Fold<I, T> where I: Interpreter<T> {
    interpret: I,
    ctx: Context<I::Domain>,
}

impl<I, T> Fold<I, T> where I: Interpreter<T>, I::Domain: BoundedLattice {
    /// The interpreter that the fold runs.
    pub closed spec fn interpreter(&self) -> I {
        self.interpret
    }

    /// The context that the fold keeps.
    pub closed spec fn context(&self) -> ContextView<I::Domain> {
        self.ctx@
    }

    /// The context that the fold keeps. Every fold leaves it as it was.
    pub fn ctx(&self) -> (c: &Context<I::Domain>)
        ensures
            c@ == self.context(),
    {
        &self.ctx
    }

    /// A fold that runs `interpreter`, with an empty context.
    pub fn new(interpreter: I) -> (f: Self)
        ensures
            f.interpreter() == interpreter,
            f.context() == ContextView::<I::Domain>::spec_empty(),
    {
        Self { interpret: interpreter, ctx: Context::default() }
    }

    /// Runs the interpreter over `expr` bottom-up and returns the value of
    /// the whole plan.
    ///
    /// The plan must bind no name that is in sight where it is bound. The
    /// fold fails where the plan nests deeper than the recursion limit. The
    /// fold leaves the context as it found it, whether it succeeds or
    /// fails.
    pub fn apply(&mut self, expr: &Plan<T>) -> (r: Result<I::Domain, RecursionLimitError>)
        requires
            expr.spec_scoped(old(self).context().bound()),
        ensures
            final(self).interpreter() == old(self).interpreter(),
            (FoldState { result: r, ctx: final(self).context() }) == spec_fold(
                &old(self).interpreter(),
                expr,
                old(self).context(),
                0,
                RECURSION_LIMIT as nat,
            ),
            final(self).context() == old(self).context(),
            expr.spec_height() <= RECURSION_LIMIT ==> r is Ok,
            r is Err ==> r == Err::<I::Domain, RecursionLimitError>(
                RecursionLimitError { limit: RECURSION_LIMIT },
            ),
    {
        proof {
            crate::plan::interpret::laws::lemma_fold_succeeds_within_limit(
                &self.interpret,
                expr,
                self.ctx@,
                0,
                RECURSION_LIMIT as nat,
            );
        }
        let mut rg = RecursionGuard::with_limit(RECURSION_LIMIT);
        self.apply_rec(expr, &mut rg)
    }

    fn apply_rec(&mut self, expr: &Plan<T>, rg: &mut RecursionGuard) -> (r: Result<
        I::Domain,
        RecursionLimitError,
    >)
        requires
            expr.spec_scoped(old(self).ctx@.bound()),
        ensures
            final(rg).depth() == old(rg).depth(),
            final(rg).limit() == old(rg).limit(),
            final(self).interpret == old(self).interpret,
            (FoldState { result: r, ctx: final(self).ctx@ }) == spec_fold(
                &old(self).interpret,
                expr,
                old(self).ctx@,
                old(rg).depth(),
                old(rg).limit(),
            ),
            final(self).ctx@ == old(self).ctx@,
        decreases old(rg).limit() - old(rg).depth(), 0nat,
    {
        match rg.descend() {
            Err(e) => {
                return Err(e);
            },
            Ok(()) => {},
        }
        let out = self.apply_node(expr, rg);
        rg.ascend();
        out
    }

    fn apply_all(&mut self, plans: &Vec<Plan<T>>, rg: &mut RecursionGuard) -> (r: Result<
        Vec<I::Domain>,
        RecursionLimitError,
    >)
        requires
            forall|i: int|
                0 <= i < plans@.len() ==> (#[trigger] plans@[i]).spec_scoped(
                    old(self).ctx@.bound(),
                ),
        ensures
            final(rg).depth() == old(rg).depth(),
            final(rg).limit() == old(rg).limit(),
            final(self).interpret == old(self).interpret,
            (FoldState {
                result: match r {
                    Ok(ds) => Ok(ds@),
                    Err(e) => Err(e),
                },
                ctx: final(self).ctx@,
            }) == spec_fold_all(
                &old(self).interpret,
                plans@,
                old(self).ctx@,
                0,
                Seq::empty(),
                old(rg).depth(),
                old(rg).limit(),
            ),
            final(self).ctx@ == old(self).ctx@,
        decreases old(rg).limit() - old(rg).depth(), 1nat,
    {
        let mut done: Vec<I::Domain> = Vec::new();
        let mut i: usize = 0;
        while i < plans.len()
            invariant
                i <= plans.len(),
                rg.depth() == old(rg).depth(),
                rg.limit() == old(rg).limit(),
                self.interpret == old(self).interpret,
                self.ctx@ == old(self).ctx@,
                forall|i: int|
                    0 <= i < plans@.len() ==> (#[trigger] plans@[i]).spec_scoped(
                        old(self).ctx@.bound(),
                    ),
                spec_fold_all(
                    &self.interpret,
                    plans@,
                    self.ctx@,
                    i as int,
                    done@,
                    rg.depth(),
                    rg.limit(),
                ) == spec_fold_all(
                    &old(self).interpret,
                    plans@,
                    old(self).ctx@,
                    0,
                    Seq::empty(),
                    old(rg).depth(),
                    old(rg).limit(),
                ),
            decreases plans.len() - i,
        {
            match self.apply_rec(&plans[i], rg) {
                Ok(d) => {
                    done.push(d);
                },
                Err(e) => {
                    return Err(e);
                },
            }
            i = i + 1;
        }
        Ok(done)
    }

    fn round(&mut self, ids: &Vec<LocalId>, values: &Vec<Plan<T>>, rg: &mut RecursionGuard) -> (r:
        Result<bool, RecursionLimitError>)
        requires
            ids@.len() == values@.len(),
            forall|i: int|
                0 <= i < ids@.len() ==> old(self).ctx@.bound().contains(#[trigger] ids@[i]),
            forall|i: int|
                0 <= i < values@.len() ==> (#[trigger] values@[i]).spec_scoped(
                    old(self).ctx@.bound(),
                ),
        ensures
            final(rg).depth() == old(rg).depth(),
            final(rg).limit() == old(rg).limit(),
            final(self).interpret == old(self).interpret,
            (FoldState { result: r, ctx: final(self).ctx@ }) == spec_round(
                &old(self).interpret,
                ids@,
                values@,
                old(self).ctx@,
                0,
                false,
                old(rg).depth(),
                old(rg).limit(),
            ),
            spec_agree_outside(final(self).ctx@, old(self).ctx@, ids@),
        decreases old(rg).limit() - old(rg).depth(), 2nat,
    {
        let pairs = zip_eq(ids, values);
        let mut change = false;
        let mut i: usize = 0;
        while i < pairs.len()
            invariant
                i <= pairs.len(),
                pairs@.len() == ids@.len(),
                ids@.len() == values@.len(),
                forall|j: int|
                    0 <= j < pairs@.len() ==> #[trigger] pairs@[j] == (&ids@[j], &values@[j]),
                rg.depth() == old(rg).depth(),
                rg.limit() == old(rg).limit(),
                self.interpret == old(self).interpret,
                spec_agree_outside(self.ctx@, old(self).ctx@, ids@),
                forall|i: int|
                    0 <= i < ids@.len() ==> old(self).ctx@.bound().contains(#[trigger] ids@[i]),
                forall|i: int|
                    0 <= i < values@.len() ==> (#[trigger] values@[i]).spec_scoped(
                        old(self).ctx@.bound(),
                    ),
                spec_round(
                    &self.interpret,
                    ids@,
                    values@,
                    self.ctx@,
                    i as int,
                    change,
                    rg.depth(),
                    rg.limit(),
                ) == spec_round(
                    &old(self).interpret,
                    ids@,
                    values@,
                    old(self).ctx@,
                    0,
                    false,
                    old(rg).depth(),
                    old(rg).limit(),
                ),
            decreases pairs.len() - i,
        {
            let (id, value) = pairs[i];
            assert(pairs@[i as int] == (&ids@[i as int], &values@[i as int]));
            let ghost before = self.ctx@;
            // Compute and join new with the current estimate.
            let mut res_value_new = match self.apply_rec(value, rg) {
                Ok(v) => v,
                Err(e) => {
                    return Err(e);
                },
            };
            res_value_new.join_assign(self.ctx.value_of(id));
            // If the estimate has changed, update the context entry.
            if !res_value_new.same(self.ctx.value_of(id)) {
                change = true;
                self.ctx.rebind(*id, ContextEntry::of_let_rec(res_value_new));
                proof {
                    assert(self.ctx@.bound() =~= before.bound());
                    assert(ids@.contains(ids@[i as int]));
                }
            }
            i = i + 1;
        }
        Ok(change)
    }

    fn iterate(
        &mut self,
        ids: &Vec<LocalId>,
        values: &Vec<Plan<T>>,
        min_max_iter: Option<u64>,
        rg: &mut RecursionGuard,
    ) -> (r: Result<bool, RecursionLimitError>)
        requires
            ids@.len() == values@.len(),
            forall|i: int|
                0 <= i < ids@.len() ==> old(self).ctx@.bound().contains(#[trigger] ids@[i]),
            forall|i: int|
                0 <= i < values@.len() ==> (#[trigger] values@[i]).spec_scoped(
                    old(self).ctx@.bound(),
                ),
        ensures
            final(rg).depth() == old(rg).depth(),
            final(rg).limit() == old(rg).limit(),
            final(self).interpret == old(self).interpret,
            (FoldState { result: r, ctx: final(self).ctx@ }) == spec_iterate(
                &old(self).interpret,
                ids@,
                values@,
                min_max_iter,
                old(self).ctx@,
                0,
                old(rg).depth(),
                old(rg).limit(),
            ),
            spec_agree_outside(final(self).ctx@, old(self).ctx@, ids@),
        decreases old(rg).limit() - old(rg).depth(), 3nat,
    {
        let mut curr_iteration: u64 = 0;
        loop
            invariant
                curr_iteration <= MAX_LET_REC_ITERATIONS,
                ids@.len() == values@.len(),
                rg.depth() == old(rg).depth(),
                rg.limit() == old(rg).limit(),
                self.interpret == old(self).interpret,
                spec_agree_outside(self.ctx@, old(self).ctx@, ids@),
                forall|i: int|
                    0 <= i < ids@.len() ==> old(self).ctx@.bound().contains(#[trigger] ids@[i]),
                forall|i: int|
                    0 <= i < values@.len() ==> (#[trigger] values@[i]).spec_scoped(
                        old(self).ctx@.bound(),
                    ),
                spec_iterate(
                    &self.interpret,
                    ids@,
                    values@,
                    min_max_iter,
                    self.ctx@,
                    curr_iteration as nat,
                    rg.depth(),
                    rg.limit(),
                ) == spec_iterate(
                    &old(self).interpret,
                    ids@,
                    values@,
                    min_max_iter,
                    old(self).ctx@,
                    0,
                    old(rg).depth(),
                    old(rg).limit(),
                ),
            decreases MAX_LET_REC_ITERATIONS - curr_iteration,
        {
            let at_bound = match min_max_iter {
                Some(m) => curr_iteration >= m,
                None => false,
            };
            if curr_iteration >= MAX_LET_REC_ITERATIONS || at_bound {
                // Reset all ids to `top` (a conservative value).
                let ghost before = self.ctx@;
                self.ctx.reset_tops(ids);
                proof {
                    assert(self.ctx@.bound() =~= before.bound()) by {
                        assert forall|k: LocalId| ids@.contains(k) implies before.bound().contains(
                            k,
                        ) by {
                            let j = choose|j: int| 0 <= j < ids@.len() && ids@[j] == k;
                            assert(old(self).ctx@.bound().contains(ids@[j]));
                        }
                    }
                }
                return Ok(not_converged(curr_iteration, ids.len()));
            }
            let change = match self.round(ids, values, rg) {
                Ok(c) => c,
                Err(e) => {
                    return Err(e);
                },
            };
            if !change {
                return Ok(false);
            }
            curr_iteration = curr_iteration + 1;
        }
    }

    fn apply_node(&mut self, expr: &Plan<T>, rg: &mut RecursionGuard) -> (r: Result<
        I::Domain,
        RecursionLimitError,
    >)
        requires
            expr.spec_scoped(old(self).ctx@.bound()),
        ensures
            final(rg).depth() == old(rg).depth(),
            final(rg).limit() == old(rg).limit(),
            final(self).interpret == old(self).interpret,
            (FoldState { result: r, ctx: final(self).ctx@ }) == spec_node(
                &old(self).interpret,
                expr,
                old(self).ctx@,
                old(rg).depth(),
                old(rg).limit(),
            ),
            final(self).ctx@ == old(self).ctx@,
        decreases old(rg).limit() - old(rg).depth(), 4nat,
    {
        match &expr.node {
            PlanNode::Constant { rows } => {
                // Interpret the current node.
                Ok(self.interpret.constant(&self.ctx, rows))
            },
            PlanNode::Get { id, keys, plan } => {
                // Interpret the current node.
                Ok(self.interpret.get(&self.ctx, id, keys, plan))
            },
            PlanNode::Let { id, value, body } => {
                // Extend context with the `value` result.
                let res_value = match self.apply_rec(value, rg) {
                    Ok(v) => v,
                    Err(e) => {
                        return Err(e);
                    },
                };
                self.ctx.bind(*id, ContextEntry::of_let(res_value));
                proof {
                    assert(self.ctx@.bound() =~= old(self).ctx@.bound().insert(*id));
                }
                // Descend into `body` with the extended context.
                let res_body = self.apply_rec(body, rg);
                // Revert the context.
                self.ctx.unbind(id);
                proof {
                    assert(self.ctx@.bindings =~= old(self).ctx@.bindings);
                }
                // Return result from `body`.
                res_body
            },
            PlanNode::LetRec { ids, values, limits, body } => {
                // Make context recursive and extend it with `bottom` for each
                // recursive binding. This corresponds to starting with the
                // most optimistic value.
                let previous_is_rec = self.ctx.is_rec;
                self.ctx.is_rec = true;
                self.ctx.bind_bottoms(ids);
                let ghost entered = self.ctx@;
                proof {
                    assert(entered.bound() =~= old(self).ctx@.bound().union(ids@.to_set()));
                    assert forall|i: int| 0 <= i < ids@.len() implies entered.bound().contains(
                        #[trigger] ids@[i],
                    ) by {
                        assert(ids@.contains(ids@[i]));
                    }
                }
                let min_max_iter = LetRecLimit::min_max_iter(limits);
                let iterated = self.iterate(ids, values, min_max_iter, rg);
                // While the body uses bindings that are recursive, its
                // recursiveness is given by the previous context.
                self.ctx.is_rec = previous_is_rec;
                proof {
                    lemma_unbind_restores(old(self).ctx@, self.ctx@, ids@);
                }
                match iterated {
                    Ok(_) => {},
                    Err(e) => {
                        // Revert the context.
                        self.ctx.unbind_all(ids);
                        return Err(e);
                    },
                }
                // Descend into `body` with the extended context.
                let res_body = self.apply_rec(body, rg);
                // Revert the context.
                self.ctx.unbind_all(ids);
                // Return result from `body`.
                res_body
            },
            PlanNode::Mfp { input, mfp, input_key_val } => {
                // Descend recursively into all children.
                let input = match self.apply_rec(input, rg) {
                    Ok(v) => v,
                    Err(e) => {
                        return Err(e);
                    },
                };
                // Interpret the current node.
                Ok(self.interpret.mfp(&self.ctx, input, mfp, input_key_val))
            },
            PlanNode::FlatMap { input, func, exprs, mfp_after, input_key } => {
                // Descend recursively into all children.
                let input = match self.apply_rec(input, rg) {
                    Ok(v) => v,
                    Err(e) => {
                        return Err(e);
                    },
                };
                // Interpret the current node.
                Ok(self.interpret.flat_map(&self.ctx, input, func, exprs, mfp_after, input_key))
            },
            PlanNode::Join { inputs, plan } => {
                // Descend recursively into all children.
                let inputs = match self.apply_all(inputs, rg) {
                    Ok(v) => v,
                    Err(e) => {
                        return Err(e);
                    },
                };
                // Interpret the current node.
                Ok(self.interpret.join(&self.ctx, inputs, plan))
            },
            PlanNode::Reduce { input, key_val_plan, plan, input_key, mfp_after } => {
                // Descend recursively into all children.
                let input = match self.apply_rec(input, rg) {
                    Ok(v) => v,
                    Err(e) => {
                        return Err(e);
                    },
                };
                // Interpret the current node.
                Ok(
                    self.interpret.reduce(
                        &self.ctx,
                        input,
                        key_val_plan,
                        plan,
                        input_key,
                        mfp_after,
                    ),
                )
            },
            PlanNode::TopK { input, top_k_plan } => {
                // Descend recursively into all children.
                let input = match self.apply_rec(input, rg) {
                    Ok(v) => v,
                    Err(e) => {
                        return Err(e);
                    },
                };
                // Interpret the current node.
                Ok(self.interpret.top_k(&self.ctx, input, top_k_plan))
            },
            PlanNode::Negate { input } => {
                // Descend recursively into all children.
                let input = match self.apply_rec(input, rg) {
                    Ok(v) => v,
                    Err(e) => {
                        return Err(e);
                    },
                };
                // Interpret the current node.
                Ok(self.interpret.negate(&self.ctx, input))
            },
            PlanNode::Threshold { input, threshold_plan } => {
                // Descend recursively into all children.
                let input = match self.apply_rec(input, rg) {
                    Ok(v) => v,
                    Err(e) => {
                        return Err(e);
                    },
                };
                // Interpret the current node.
                Ok(self.interpret.threshold(&self.ctx, input, threshold_plan))
            },
            PlanNode::Union { inputs, consolidate_output } => {
                // Descend recursively into all children.
                let inputs = match self.apply_all(inputs, rg) {
                    Ok(v) => v,
                    Err(e) => {
                        return Err(e);
                    },
                };
                // Interpret the current node.
                Ok(self.interpret.union(&self.ctx, inputs, *consolidate_output))
            },
            PlanNode::ArrangeBy { input, forms, input_key, input_mfp } => {
                // Descend recursively into all children.
                let input = match self.apply_rec(input, rg) {
                    Ok(v) => v,
                    Err(e) => {
                        return Err(e);
                    },
                };
                // Interpret the current node.
                Ok(self.interpret.arrange_by(&self.ctx, input, forms, input_key, input_mfp))
            },
        }
    }
}

} // verus!

use std::collections::BTreeSet;

use delta_render::expr::error::EvalError;
use delta_render::expr::linear::MapFilterProject;
use delta_render::expr::scalar::MirScalarExpr;
use delta_render::plan::interpret::api::{
    BoundedLattice, Context, ContextEntry, Interpreter, RecursionLimitError, RECURSION_LIMIT,
};
use delta_render::plan::interpret::fold::{not_converged, Fold};
use delta_render::plan::interpret::fold_mut::{Action, FoldMut, NoAction};
use delta_render::plan::join::{DeltaJoinPlan, JoinPlan};
use delta_render::plan::tree::{
    AvailableCollections, GetPlan, GlobalId, Id, KeyValPlan, LetRecLimit, LocalId, Plan, PlanNode,
    ReducePlan, TableFunc, ThresholdPlan, TopKPlan,
};
use delta_render::repr::datum::Diff;
use delta_render::repr::row::Row;

/// A chain of four levels: 0 is the bottom, 3 is the top.
#[derive(Clone, Copy, Debug, PartialEq, Eq)]
struct Level(u8);

impl BoundedLattice for Level {
    fn top() -> Self {
        Level(3)
    }

    fn bottom() -> Self {
        Level(0)
    }

    fn join_assign(&mut self, other: &Self) {
        if other.0 > self.0 {
            self.0 = other.0;
        }
    }

    fn same(&self, other: &Self) -> bool {
        self.0 == other.0
    }

    fn duplicate(&self) -> Self {
        *self
    }
}

/// An interpreter whose values are levels: a constant is at level 1, a
/// reference to a local name is at the level that the name is bound to, a
/// negation is one level above its input, and every other operator is at
/// the highest level among its inputs.
struct Levels;

fn highest(inputs: &[Level]) -> Level {
    let mut out = Level(0);
    for l in inputs {
        if l.0 > out.0 {
            out = *l;
        }
    }
    out
}

impl Interpreter<u64> for Levels {
    type Domain = Level;

    fn constant(
        &self,
        _ctx: &Context<Level>,
        _rows: &Result<Vec<(Row, u64, Diff)>, EvalError>,
    ) -> Level {
        Level(1)
    }

    fn get(&self, ctx: &Context<Level>, id: &Id, _keys: &AvailableCollections, _plan: &GetPlan) -> Level {
        match id {
            Id::Local(id) => ctx.bindings.get(id).map(|e| e.value).unwrap_or(Level(3)),
            Id::Global(_) => Level(2),
        }
    }

    fn mfp(
        &self,
        _ctx: &Context<Level>,
        input: Level,
        _mfp: &MapFilterProject,
        _input_key_val: &Option<(Vec<MirScalarExpr>, Option<Row>)>,
    ) -> Level {
        input
    }

    fn flat_map(
        &self,
        _ctx: &Context<Level>,
        input: Level,
        _func: &TableFunc,
        _exprs: &Vec<MirScalarExpr>,
        _mfp: &MapFilterProject,
        _input_key: &Option<Vec<MirScalarExpr>>,
    ) -> Level {
        input
    }

    fn join(&self, _ctx: &Context<Level>, inputs: Vec<Level>, _plan: &JoinPlan) -> Level {
        highest(&inputs)
    }

    fn reduce(
        &self,
        _ctx: &Context<Level>,
        input: Level,
        _key_val_plan: &KeyValPlan,
        _plan: &ReducePlan,
        _input_key: &Option<Vec<MirScalarExpr>>,
        _mfp_after: &MapFilterProject,
    ) -> Level {
        input
    }

    fn top_k(&self, _ctx: &Context<Level>, input: Level, _top_k_plan: &TopKPlan) -> Level {
        input
    }

    fn negate(&self, _ctx: &Context<Level>, input: Level) -> Level {
        Level(if input.0 < 3 { input.0 + 1 } else { 3 })
    }

    fn threshold(&self, _ctx: &Context<Level>, input: Level, _threshold_plan: &ThresholdPlan) -> Level {
        input
    }

    fn union(&self, _ctx: &Context<Level>, inputs: Vec<Level>, _consolidate_output: bool) -> Level {
        highest(&inputs)
    }

    fn arrange_by(
        &self,
        _ctx: &Context<Level>,
        input: Level,
        _forms: &AvailableCollections,
        _input_key: &Option<Vec<MirScalarExpr>>,
        _input_mfp: &MapFilterProject,
    ) -> Level {
        input
    }
}

fn plan(node: PlanNode<u64>) -> Plan<u64> {
    Plan { node, lir_id: 0 }
}

fn constant() -> Plan<u64> {
    plan(PlanNode::Constant { rows: Ok(vec![]) })
}

fn get_local(id: LocalId) -> Plan<u64> {
    plan(PlanNode::Get {
        id: Id::Local(id),
        keys: AvailableCollections { raw: true, arranged: vec![] },
        plan: GetPlan::PassArrangements,
    })
}

fn get_global(id: u64) -> Plan<u64> {
    plan(PlanNode::Get {
        id: Id::Global(GlobalId::User(id)),
        keys: AvailableCollections { raw: true, arranged: vec![] },
        plan: GetPlan::PassArrangements,
    })
}

fn negate(input: Plan<u64>) -> Plan<u64> {
    plan(PlanNode::Negate { input: Box::new(input) })
}

fn union(inputs: Vec<Plan<u64>>) -> Plan<u64> {
    plan(PlanNode::Union { inputs, consolidate_output: false })
}

fn let_in(id: LocalId, value: Plan<u64>, body: Plan<u64>) -> Plan<u64> {
    plan(PlanNode::Let { id, value: Box::new(value), body: Box::new(body) })
}

fn let_rec(ids: Vec<LocalId>, values: Vec<Plan<u64>>, limits: Vec<Option<LetRecLimit>>, body: Plan<u64>) -> Plan<u64> {
    plan(PlanNode::LetRec { ids, values, limits, body: Box::new(body) })
}

fn scoped(p: &Plan<u64>) -> bool {
    let mut bound = BTreeSet::new();
    p.is_scoped(&mut bound)
}

#[test]
fn fold_interprets_leaves_and_operators() {
    let mut fold = Fold::new(Levels);
    assert_eq!(fold.apply(&constant()), Ok(Level(1)));
    assert_eq!(fold.apply(&get_global(7)), Ok(Level(2)));
    assert_eq!(fold.apply(&negate(constant())), Ok(Level(2)));
    assert_eq!(fold.apply(&union(vec![constant(), get_global(1), negate(get_global(1))])), Ok(Level(3)));
    assert_eq!(fold.apply(&union(vec![])), Ok(Level(0)));
}

#[test]
fn fold_binds_let_in_the_body_only() {
    let mut fold = Fold::new(Levels);
    // let 1 = negate(constant) in union(get 1, constant)
    let p = let_in(1, negate(constant()), union(vec![get_local(1), constant()]));
    assert!(scoped(&p));
    assert_eq!(fold.apply(&p), Ok(Level(2)));
    // The binding is gone after the fold: an unbound name reads as the top.
    assert_eq!(fold.apply(&get_local(1)), Ok(Level(3)));
    // The same name can be bound again by a plan that comes after.
    assert_eq!(fold.apply(&p), Ok(Level(2)));
}

#[test]
fn fold_let_rec_reaches_the_fixpoint() {
    let mut fold = Fold::new(Levels);
    // x = union(constant, x): the first round lifts x from 0 to 1, the
    // second round changes nothing.
    let p = let_rec(vec![5], vec![union(vec![constant(), get_local(5)])], vec![None], get_local(5));
    assert!(scoped(&p));
    assert_eq!(fold.apply(&p), Ok(Level(1)));
}

#[test]
fn fold_let_rec_climbs_one_level_per_round() {
    let mut fold = Fold::new(Levels);
    // x = negate(x): rounds give 1, 2, 3, and then nothing changes.
    let p = let_rec(vec![5], vec![negate(get_local(5))], vec![None], get_local(5));
    assert_eq!(fold.apply(&p), Ok(Level(3)));
}

#[test]
fn fold_let_rec_two_names_see_each_other() {
    let mut fold = Fold::new(Levels);
    // x = y, y = union(constant, x): x is 0 after the first round and 1
    // after the second.
    let p = let_rec(
        vec![1, 2],
        vec![get_local(2), union(vec![constant(), get_local(1)])],
        vec![None, None],
        union(vec![get_local(1)]),
    );
    assert_eq!(fold.apply(&p), Ok(Level(1)));
}

#[test]
fn fold_let_rec_cut_short_binds_top() {
    let mut fold = Fold::new(Levels);
    // x = union(constant, x) would settle at 1 after one changing round.
    // With room for one round only, the iteration is cut short after that
    // round, and x is bound to the top.
    let limit = LetRecLimit { max_iters: 1, return_at_limit: false };
    let p = let_rec(
        vec![5],
        vec![union(vec![constant(), get_local(5)])],
        vec![Some(limit)],
        get_local(5),
    );
    assert_eq!(fold.apply(&p), Ok(Level(3)));
    // With room for two rounds the second round finds the fixpoint.
    let limit = LetRecLimit { max_iters: 2, return_at_limit: false };
    let p = let_rec(
        vec![5],
        vec![union(vec![constant(), get_local(5)])],
        vec![Some(limit)],
        get_local(5),
    );
    assert_eq!(fold.apply(&p), Ok(Level(1)));
}

#[test]
fn fold_let_rec_without_rounds_binds_top() {
    let mut fold = Fold::new(Levels);
    let limit = LetRecLimit { max_iters: 0, return_at_limit: false };
    let p = let_rec(vec![5], vec![constant()], vec![Some(limit)], get_local(5));
    assert_eq!(fold.apply(&p), Ok(Level(3)));
}

#[test]
fn min_max_iter_is_the_least_bound() {
    let l = |n| Some(LetRecLimit { max_iters: n, return_at_limit: true });
    assert_eq!(LetRecLimit::min_max_iter(&vec![]), None);
    assert_eq!(LetRecLimit::min_max_iter(&vec![None, None]), None);
    assert_eq!(LetRecLimit::min_max_iter(&vec![None, l(7), None]), Some(7));
    assert_eq!(LetRecLimit::min_max_iter(&vec![l(9), l(3), None, l(5)]), Some(3));
}

fn nested(depth: usize) -> Plan<u64> {
    let mut p = get_global(0);
    for _ in 1..depth {
        p = plan(PlanNode::Threshold {
            input: Box::new(p),
            threshold_plan: ThresholdPlan::Basic { ensure_arrangement: (vec![], vec![], vec![]) },
        });
    }
    p
}

#[test]
fn fold_fails_beyond_the_recursion_limit() {
    let mut fold = Fold::new(Levels);
    let at_limit = fold.apply(&nested(RECURSION_LIMIT));
    let beyond = fold.apply(&nested(RECURSION_LIMIT + 1));
    assert_eq!(at_limit, Ok(Level(2)));
    assert_eq!(beyond, Err(RecursionLimitError { limit: RECURSION_LIMIT }));
}

#[test]
fn shadowing_is_refused_by_the_scope_check() {
    // A `Let` that binds a name that is in sight.
    let p = let_in(1, constant(), let_in(1, constant(), get_local(1)));
    assert!(!scoped(&p));
    // A `LetRec` that binds a name of an enclosing `Let`.
    let p = let_in(1, constant(), let_rec(vec![1], vec![constant()], vec![None], get_local(1)));
    assert!(!scoped(&p));
    // A `LetRec` that binds one name twice.
    let p = let_rec(vec![4, 4], vec![constant(), constant()], vec![None, None], constant());
    assert!(!scoped(&p));
    // A `LetRec` with a value too few.
    let p = let_rec(vec![4, 5], vec![constant()], vec![None, None], constant());
    assert!(!scoped(&p));
    // A name that is bound outside the plan.
    let p = let_in(1, constant(), get_local(1));
    let mut bound = BTreeSet::new();
    bound.insert(1);
    assert!(!p.is_scoped(&mut bound));
    assert_eq!(bound.len(), 1);
    // Two scopes side by side may bind the same name.
    let p = union(vec![let_in(1, constant(), get_local(1)), let_in(1, constant(), get_local(1))]);
    assert!(scoped(&p));
    // A name may be bound in the value of a `Let` and again in its body.
    let p = let_in(2, let_in(1, constant(), get_local(1)), let_in(1, constant(), get_local(2)));
    assert!(scoped(&p));
}

#[test]
fn context_tells_bound_names() {
    let mut ctx: Context<Level> = Context::default();
    assert!(!ctx.is_bound(&3));
    ctx.bind(3, ContextEntry::of_let(Level(2)));
    assert!(ctx.is_bound(&3));
    assert_eq!(*ctx.value_of(&3), Level(2));
    assert!(!ctx.bindings.get(&3).unwrap().is_rec);
    ctx.rebind(3, ContextEntry::of_let_rec(Level(1)));
    assert_eq!(*ctx.value_of(&3), Level(1));
    assert!(ctx.bindings.get(&3).unwrap().is_rec);
    ctx.bind_bottoms(&vec![7, 8]);
    assert_eq!(*ctx.value_of(&8), Level(0));
    ctx.reset_tops(&vec![7, 8]);
    assert_eq!(*ctx.value_of(&7), Level(3));
    ctx.unbind_all(&vec![7, 8]);
    assert!(!ctx.is_bound(&7));
    ctx.unbind(&3);
    assert!(!ctx.is_bound(&3));
    assert!(!ctx.is_rec);
}

/// An action that counts the operators it sees and notes their values.
struct Notes {
    seen: Vec<(u64, Level, Vec<Level>)>,
}

impl Action<u64, Level> for Notes {
    fn act(&mut self, node: &mut Plan<u64>, own: &Level, children: &[Level]) {
        self.seen.push((node.lir_id, *own, children.to_vec()));
    }
}

/// An action that replaces every negation by its input.
struct DropNegations;

impl Action<u64, Level> for DropNegations {
    fn act(&mut self, node: &mut Plan<u64>, _own: &Level, _children: &[Level]) {
        if let PlanNode::Negate { input } = &mut node.node {
            let inner = std::mem::replace(&mut **input, constant());
            *node = inner;
        }
    }
}

fn sample_plans() -> Vec<Plan<u64>> {
    vec![
        constant(),
        negate(negate(get_global(3))),
        union(vec![constant(), negate(constant()), get_global(1)]),
        let_in(1, negate(constant()), union(vec![get_local(1), constant()])),
        let_rec(vec![5], vec![negate(get_local(5))], vec![None], get_local(5)),
        let_rec(
            vec![1, 2],
            vec![get_local(2), union(vec![constant(), get_local(1)])],
            vec![None, Some(LetRecLimit { max_iters: 1, return_at_limit: false })],
            union(vec![get_local(1), get_local(2)]),
        ),
    ]
}

#[test]
fn fold_mut_without_action_computes_what_fold_computes() {
    for p in sample_plans() {
        let mut q = p;
        let mut fold = Fold::new(Levels);
        let mut fold_mut = FoldMut::new(Levels, NoAction);
        let read = fold.apply(&q);
        let before = format!("{:?}", q);
        let written = fold_mut.apply(&mut q);
        assert_eq!(read, written);
        assert_eq!(before, format!("{:?}", q));
    }
}

#[test]
fn fold_mut_hands_each_operator_its_value_and_those_of_its_inputs() {
    let mut p = Plan {
        node: PlanNode::Union {
            inputs: vec![
                Plan { node: PlanNode::Constant { rows: Ok(vec![]) }, lir_id: 1 },
                Plan {
                    node: PlanNode::Negate {
                        input: Box::new(Plan { node: PlanNode::Constant { rows: Ok(vec![]) }, lir_id: 2 }),
                    },
                    lir_id: 3,
                },
            ],
            consolidate_output: true,
        },
        lir_id: 4,
    };
    let mut notes = Notes { seen: vec![] };
    let result = {
        let mut fold = FoldMut::new(Levels, &mut notes);
        fold.apply(&mut p)
    };
    assert_eq!(result, Ok(Level(2)));
    assert_eq!(
        notes.seen,
        vec![
            (1, Level(1), vec![]),
            (2, Level(1), vec![]),
            (3, Level(2), vec![Level(1)]),
            (4, Level(2), vec![Level(1), Level(2)]),
        ]
    );
}

impl<'a> Action<u64, Level> for &'a mut Notes {
    fn act(&mut self, node: &mut Plan<u64>, own: &Level, children: &[Level]) {
        (**self).act(node, own, children)
    }
}

#[test]
fn fold_mut_hands_a_let_its_value_and_its_body() {
    let mut p = Plan {
        node: PlanNode::Let {
            id: 1,
            value: Box::new(Plan {
                node: PlanNode::Negate {
                    input: Box::new(Plan { node: PlanNode::Constant { rows: Ok(vec![]) }, lir_id: 10 }),
                },
                lir_id: 11,
            }),
            body: Box::new(Plan { node: PlanNode::Constant { rows: Ok(vec![]) }, lir_id: 12 }),
        },
        lir_id: 13,
    };
    let mut notes = Notes { seen: vec![] };
    {
        let mut fold = FoldMut::new(Levels, &mut notes);
        assert_eq!(fold.apply(&mut p), Ok(Level(1)));
    }
    // Every operator is seen once, the `Let` last, with the value of its
    // value and the value of its body.
    assert_eq!(
        notes.seen,
        vec![
            (10, Level(1), vec![]),
            (11, Level(2), vec![Level(1)]),
            (12, Level(1), vec![]),
            (13, Level(1), vec![Level(2), Level(1)]),
        ]
    );
}

#[test]
fn fold_mut_hands_a_let_rec_its_bindings_and_its_body() {
    // x = union(constant, x), in a body that negates x.
    let mut p = Plan {
        node: PlanNode::LetRec {
            ids: vec![5],
            values: vec![Plan {
                node: PlanNode::Union {
                    inputs: vec![
                        Plan { node: PlanNode::Constant { rows: Ok(vec![]) }, lir_id: 20 },
                        get_local(5),
                    ],
                    consolidate_output: false,
                },
                lir_id: 21,
            }],
            limits: vec![None],
            body: Box::new(Plan { node: PlanNode::Negate { input: Box::new(get_local(5)) }, lir_id: 22 }),
        },
        lir_id: 23,
    };
    let mut notes = Notes { seen: vec![] };
    {
        let mut fold = FoldMut::new(Levels, &mut notes);
        assert_eq!(fold.apply(&mut p), Ok(Level(2)));
    }
    // The `LetRec` is seen last, with the value that its name is bound to
    // and the value of its body.
    assert_eq!(notes.seen.last(), Some(&(23, Level(2), vec![Level(1), Level(2)])));
    // The value is seen once in each of the two rounds.
    assert_eq!(notes.seen.iter().filter(|(id, _, _)| *id == 21).count(), 2);
    assert_eq!(notes.seen.iter().filter(|(id, _, _)| *id == 23).count(), 1);
}

#[test]
fn fold_mut_does_not_hand_a_failed_operator_to_the_action() {
    let mut p = let_in(1, constant(), nested(RECURSION_LIMIT));
    let mut notes = Notes { seen: vec![] };
    {
        let mut fold = FoldMut::new(Levels, &mut notes);
        assert_eq!(fold.apply(&mut p), Err(RecursionLimitError { limit: RECURSION_LIMIT }));
        assert!(fold.ctx().bindings.is_empty());
    }
    // The constant is seen; the body fails at its deepest operator, so
    // neither an operator of the body nor the `Let` is seen.
    assert_eq!(notes.seen.len(), 1);
}

#[test]
fn fold_mut_rewrites_the_plan_in_place() {
    let mut p = union(vec![negate(get_global(1)), constant()]);
    let mut fold = FoldMut::new(Levels, DropNegations);
    // The value is that of the plan as it was: the negation lifts the
    // reference from 2 to 3.
    assert_eq!(fold.apply(&mut p), Ok(Level(3)));
    // The negation is gone from the plan.
    let mut again = Fold::new(Levels);
    assert_eq!(again.apply(&p), Ok(Level(2)));
}

#[test]
fn fold_mut_let_rec_meets_the_rewritten_values() {
    // x = negate(x). The first round folds the negation, binds x to 1, and
    // the action replaces the value by `x`. The second round folds `x`,
    // which is 1, and changes nothing.
    let mut p = let_rec(vec![5], vec![negate(get_local(5))], vec![None], get_local(5));
    let mut fold = FoldMut::new(Levels, DropNegations);
    assert_eq!(fold.apply(&mut p), Ok(Level(1)));
    // The reading fold climbs to the top on the plan as it was.
    let mut read = Fold::new(Levels);
    let q = let_rec(vec![5], vec![negate(get_local(5))], vec![None], get_local(5));
    assert_eq!(read.apply(&q), Ok(Level(3)));
}

#[test]
fn fold_mut_fails_beyond_the_recursion_limit() {
    let mut fold = FoldMut::new(Levels, NoAction);
    let mut a = nested(RECURSION_LIMIT);
    let mut b = nested(RECURSION_LIMIT + 1);
    let at_limit = fold.apply(&mut a);
    let beyond = fold.apply(&mut b);
    assert_eq!(at_limit, Ok(Level(2)));
    assert_eq!(beyond, Err(RecursionLimitError { limit: RECURSION_LIMIT }));
}

#[test]
fn fold_hands_a_join_the_values_of_its_inputs() {
    // The join plan of a `Join` is handed to the interpreter as it is.
    let mut fold = Fold::new(Levels);
    let p = plan(PlanNode::Join {
        inputs: vec![constant(), get_global(1)],
        plan: JoinPlan::Delta(DeltaJoinPlan { path_plans: vec![] }),
    });
    assert_eq!(fold.apply(&p), Ok(Level(2)));
}

#[test]
fn a_fold_that_succeeds_leaves_its_context_empty() {
    let mut fold = Fold::new(Levels);
    assert!(fold.ctx().bindings.is_empty());
    let p = let_rec(vec![1, 2], vec![constant(), get_local(1)], vec![None, None], get_local(2));
    assert_eq!(fold.apply(&p), Ok(Level(1)));
    assert!(fold.ctx().bindings.is_empty());
    assert!(!fold.ctx().is_rec);
    let mut fold = FoldMut::new(Levels, NoAction);
    let mut p = let_in(1, constant(), get_local(1));
    assert_eq!(fold.apply(&mut p), Ok(Level(1)));
    assert!(fold.ctx().bindings.is_empty());
}

#[test]
fn a_fold_that_fails_leaves_its_context_as_it_was() {
    // The value nests deeper than the limit allows below the `LetRec`.
    let mut fold = Fold::new(Levels);
    let p = let_rec(vec![9], vec![nested(RECURSION_LIMIT)], vec![None], constant());
    assert_eq!(fold.apply(&p), Err(RecursionLimitError { limit: RECURSION_LIMIT }));
    assert!(!fold.ctx().is_bound(&9));
    assert!(fold.ctx().bindings.is_empty());
    assert!(!fold.ctx().is_rec);
    // The same plan can be folded again: its names are free.
    assert_eq!(fold.apply(&p), Err(RecursionLimitError { limit: RECURSION_LIMIT }));
    // A failure in the second round, after a binding was changed.
    let mut fold = Fold::new(Levels);
    let p = let_in(
        3,
        constant(),
        let_rec(
            vec![9, 8],
            vec![union(vec![constant(), get_local(9)]), nested(RECURSION_LIMIT)],
            vec![None, None],
            constant(),
        ),
    );
    assert_eq!(fold.apply(&p), Err(RecursionLimitError { limit: RECURSION_LIMIT }));
    assert!(fold.ctx().bindings.is_empty());
    assert!(!fold.ctx().is_rec);
    // A failure in the body of a `Let` takes the binding out again.
    let mut fold = Fold::new(Levels);
    let p = let_in(9, constant(), nested(RECURSION_LIMIT));
    assert_eq!(fold.apply(&p), Err(RecursionLimitError { limit: RECURSION_LIMIT }));
    assert!(!fold.ctx().is_bound(&9));
    // The mutating fold does the same.
    let mut fold = FoldMut::new(Levels, NoAction);
    let mut p = let_rec(vec![9], vec![nested(RECURSION_LIMIT)], vec![None], constant());
    assert_eq!(fold.apply(&mut p), Err(RecursionLimitError { limit: RECURSION_LIMIT }));
    assert!(fold.ctx().bindings.is_empty());
    assert!(!fold.ctx().is_rec);
}

#[test]
fn a_cut_after_more_rounds_than_names_has_not_converged() {
    assert!(!not_converged(0, 0));
    assert!(not_converged(1, 0));
    assert!(!not_converged(2, 2));
    assert!(not_converged(3, 2));
    assert!(not_converged(100, 99));
    assert!(!not_converged(100, 100));
}

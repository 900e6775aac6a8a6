use delta_render::expr::error::{DataflowError, EvalError};
use delta_render::expr::linear::MapFilterProject;
use delta_render::expr::scalar::{MirScalarExpr, UnaryFunc};
use delta_render::plan::join::{DeltaJoinPlan, DeltaPathPlan, DeltaStagePlan, JoinClosure};
use delta_render::plan::tree::GlobalId;
use delta_render::render::context::{
    ArrangedUpdate, ArrangementFlavor, CollectionBundle, Context, ErrUpdate, ShutdownProbe,
    StreamUpdate, Update,
};
use delta_render::render::delta_join::{
    build_update_stream, find_resolved, finish, promote, resolve_arrangements, restore,
};
use delta_render::render::frontier::{beyond, inner_as_of};
use delta_render::render::half_join::{
    build_halfjoin, half_join, is_stage_ready, join_match, prepare_key, rows_of as matched_rows,
    split_ok_err, TimeComparison,
};
use delta_render::repr::datum::Datum;
use delta_render::repr::datum_vec::DatumVec;
use delta_render::repr::row::Row;
use timely::progress::Antichain;

fn row(datums: &[Datum]) -> Row {
    Row::pack_slice(datums)
}

fn i32d(i: i32) -> Datum {
    Datum::Int32(i)
}

fn ch(c: u8) -> Datum {
    Datum::UInt8(c)
}

fn col(i: usize) -> MirScalarExpr {
    MirScalarExpr::Column(i)
}

fn call(func: UnaryFunc, expr: MirScalarExpr) -> MirScalarExpr {
    MirScalarExpr::CallUnary { func, expr: Box::new(expr) }
}

/// A closure that only projects.
fn project(input_arity: usize, projection: Vec<usize>) -> JoinClosure {
    JoinClosure {
        ready_equivalences: vec![],
        before: MapFilterProject { expressions: vec![], predicates: vec![], projection, input_arity },
    }
}

/// A closure that appends the negation of a column.
fn negating(input_arity: usize, column: usize) -> JoinClosure {
    JoinClosure {
        ready_equivalences: vec![],
        before: MapFilterProject {
            expressions: vec![call(UnaryFunc::NegInt32, col(column))],
            predicates: vec![],
            projection: (0..=input_arity).collect(),
            input_arity,
        },
    }
}

fn rows_of(updates: &[Update]) -> Vec<(Vec<Datum>, u64, i64)> {
    updates.iter().map(|(r, t, d)| (r.unpack(), *t, *d)).collect()
}

fn stream_of(updates: &[StreamUpdate]) -> Vec<((Vec<Datum>, u64), u64, i64)> {
    updates.iter().map(|((r, t), i, d)| ((r.unpack(), *t), *i, *d)).collect()
}

fn stream(updates: &[(&[Datum], u64, u64, i64)]) -> Vec<StreamUpdate> {
    updates.iter().map(|(r, t, i, d)| ((row(r), *t), *i, *d)).collect()
}

fn arranged(updates: &[(&[Datum], &[Datum], u64, i64)]) -> Vec<ArrangedUpdate> {
    updates.iter().map(|(k, v, t, d)| (row(k), row(v), *t, *d)).collect()
}

fn by_first_column(oks: Vec<ArrangedUpdate>, errs: Vec<ErrUpdate>) -> CollectionBundle {
    CollectionBundle { collection: None, arranged: vec![(vec![col(0)], ArrangementFlavor::Local(oks, errs))] }
}

fn context(as_of: Antichain<u64>) -> Context {
    Context { as_of_frontier: as_of, shutdown_probe: ShutdownProbe::new(false) }
}

/// The plan of `R join S on R.0 = S.0` with the columns of `R` before
/// those of `S` in the result.
fn two_way_plan() -> DeltaJoinPlan {
    DeltaJoinPlan {
        path_plans: vec![
            DeltaPathPlan {
                source_relation: 0,
                source_key: vec![col(0)],
                initial_closure: None,
                stage_plans: vec![DeltaStagePlan {
                    lookup_relation: 1,
                    stream_key: vec![col(0)],
                    stream_thinning: vec![1],
                    lookup_key: vec![col(0)],
                    // key, R.1, S.1
                    closure: project(3, vec![0, 1, 0, 2]),
                }],
                final_closure: None,
            },
            DeltaPathPlan {
                source_relation: 1,
                source_key: vec![col(0)],
                initial_closure: None,
                stage_plans: vec![DeltaStagePlan {
                    lookup_relation: 0,
                    stream_key: vec![col(0)],
                    stream_thinning: vec![1],
                    lookup_key: vec![col(0)],
                    // key, S.1, R.1
                    closure: project(3, vec![0, 2, 0, 1]),
                }],
                final_closure: None,
            },
        ],
    }
}

fn path_alone(
    ctx: &Context,
    source: &Vec<ArrangedUpdate>,
    lookup: &Vec<ArrangedUpdate>,
    path: &DeltaPathPlan,
) -> Vec<(Vec<Datum>, u64, i64)> {
    let (updates, errs) =
        build_update_stream(source, &ctx.as_of_frontier, path.source_relation, &path.initial_closure);
    assert!(errs.is_empty());
    let stage = &path.stage_plans[0];
    let (oks, errs) = build_halfjoin(
        promote(updates),
        lookup,
        &stage.stream_key,
        &stage.stream_thinning,
        TimeComparison::between(path.source_relation, stage.lookup_relation),
        &stage.closure,
        ctx.shutdown_probe,
    );
    assert!(errs.is_empty());
    rows_of(&restore(oks))
}

#[test]
fn delta_join_finds_a_pair_exactly_once() {
    // R = {(1, 'a')} at time 0, S = {(1, 'x')} at time 1.
    let r = arranged(&[(&[i32d(1)], &[ch(b'a')], 0, 1)]);
    let s = arranged(&[(&[i32d(1)], &[ch(b'x')], 1, 1)]);
    let ctx = context(Antichain::from_elem(0));
    let plan = two_way_plan();

    let expected = vec![(vec![i32d(1), ch(b'a'), i32d(1), ch(b'x')], 1, 1)];

    // Through the whole join.
    let inputs = vec![by_first_column(r.clone(), vec![]), by_first_column(s.clone(), vec![])];
    let bundle = ctx.render_delta_join(inputs, two_way_plan());
    let (oks, errs) = bundle.collection.unwrap();
    assert_eq!(rows_of(&oks), expected);
    assert!(errs.is_empty());
    assert!(bundle.arranged.is_empty());

    // Through exactly one of the two paths: that of S, which comes later.
    assert_eq!(path_alone(&ctx, &r, &s, &plan.path_plans[0]), vec![]);
    assert_eq!(path_alone(&ctx, &s, &r, &plan.path_plans[1]), expected);
}

#[test]
fn delta_join_breaks_ties_by_the_order_of_the_relations() {
    // Both updates at time 5, after the start of the dataflow: the path of
    // the first relation finds the pair, the path of the second does not.
    let r = arranged(&[(&[i32d(1)], &[ch(b'a')], 5, 1)]);
    let s = arranged(&[(&[i32d(1)], &[ch(b'x')], 5, 1)]);
    let ctx = context(Antichain::from_elem(0));
    let plan = two_way_plan();
    let expected = vec![(vec![i32d(1), ch(b'a'), i32d(1), ch(b'x')], 5, 1)];
    assert_eq!(path_alone(&ctx, &r, &s, &plan.path_plans[0]), expected);
    assert_eq!(path_alone(&ctx, &s, &r, &plan.path_plans[1]), vec![]);
    let inputs = vec![by_first_column(r, vec![]), by_first_column(s, vec![])];
    let (oks, _) = ctx.render_delta_join(inputs, two_way_plan()).collection.unwrap();
    assert_eq!(rows_of(&oks), expected);
}

#[test]
fn delta_join_equals_the_join_of_the_accumulated_inputs() {
    // Interleaved insertions into both relations, with two keys.
    let r = arranged(&[
        (&[i32d(1)], &[ch(b'a')], 0, 1),
        (&[i32d(2)], &[ch(b'b')], 2, 1),
        (&[i32d(1)], &[ch(b'c')], 4, 1),
    ]);
    let s = arranged(&[
        (&[i32d(1)], &[ch(b'x')], 1, 1),
        (&[i32d(2)], &[ch(b'y')], 2, 1),
        (&[i32d(3)], &[ch(b'z')], 3, 1),
        (&[i32d(1)], &[ch(b'w')], 4, 1),
    ]);
    let ctx = context(Antichain::from_elem(0));
    let inputs = vec![by_first_column(r, vec![]), by_first_column(s, vec![])];
    let (oks, errs) = ctx.render_delta_join(inputs, two_way_plan()).collection.unwrap();
    assert!(errs.is_empty());
    let mut got = rows_of(&oks);
    got.sort_by(|a, b| format!("{:?}", a).cmp(&format!("{:?}", b)));
    // Each pair with the same key, once, at the later of its two times.
    let mut want = vec![
        (vec![i32d(1), ch(b'a'), i32d(1), ch(b'x')], 1, 1),
        (vec![i32d(1), ch(b'a'), i32d(1), ch(b'w')], 4, 1),
        (vec![i32d(1), ch(b'c'), i32d(1), ch(b'x')], 4, 1),
        (vec![i32d(1), ch(b'c'), i32d(1), ch(b'w')], 4, 1),
        (vec![i32d(2), ch(b'b'), i32d(2), ch(b'y')], 2, 1),
    ];
    want.sort_by(|a, b| format!("{:?}", a).cmp(&format!("{:?}", b)));
    assert_eq!(got, want);
}

#[test]
fn only_the_first_path_sees_what_was_there_at_the_start() {
    let trace = arranged(&[
        (&[i32d(1)], &[ch(b'a')], 3, 1),
        (&[i32d(2)], &[ch(b'b')], 4, 1),
        (&[i32d(3)], &[ch(b'c')], 5, -1),
    ]);
    let as_of = Antichain::from_elem(3);
    let (first, _) = build_update_stream(&trace, &as_of, 0, &None);
    assert_eq!(
        rows_of(&first),
        vec![
            (vec![i32d(1), ch(b'a')], 3, 1),
            (vec![i32d(2), ch(b'b')], 4, 1),
            (vec![i32d(3), ch(b'c')], 5, -1),
        ]
    );
    let (second, _) = build_update_stream(&trace, &as_of, 1, &None);
    assert_eq!(
        rows_of(&second),
        vec![(vec![i32d(2), ch(b'b')], 4, 1), (vec![i32d(3), ch(b'c')], 5, -1)]
    );
    // Without an as-of frontier every path sees everything.
    let (all, _) = build_update_stream(&trace, &Antichain::new(), 2, &None);
    assert_eq!(all.len(), 3);
}

#[test]
fn the_as_of_frontier_is_reduced_to_its_least_element() {
    let mut as_of = Antichain::new();
    as_of.insert(7u64);
    let inner = inner_as_of(&as_of);
    assert_eq!(inner.elements(), &[7]);
    assert!(!beyond(&inner, 7));
    assert!(beyond(&inner, 8));
    assert!(beyond(&inner, 6));
    let inner = inner_as_of(&Antichain::new());
    assert!(inner.elements().is_empty());
    assert!(beyond(&inner, 0));
}

#[test]
fn the_initial_closure_filters_and_fails_row_by_row() {
    let trace = arranged(&[
        (&[i32d(1)], &[i32d(10)], 1, 1),
        (&[i32d(2)], &[i32d(i32::MIN)], 1, 2),
        (&[i32d(3)], &[i32d(30)], 2, -1),
    ]);
    let closure = Some(negating(2, 1));
    let (oks, errs) = build_update_stream(&trace, &Antichain::new(), 0, &closure);
    assert_eq!(
        rows_of(&oks),
        vec![
            (vec![i32d(1), i32d(10), i32d(-10)], 1, 1),
            (vec![i32d(3), i32d(30), i32d(-30)], 2, -1),
        ]
    );
    assert_eq!(
        errs,
        vec![(DataflowError::EvalError(EvalError::Int32OutOfRange(i32::MIN)), 1, 2)]
    );
    // A closure that is the identity is not applied.
    let identity = Some(project(2, vec![0, 1]));
    let (oks, errs) = build_update_stream(&trace, &Antichain::new(), 0, &identity);
    assert_eq!(oks.len(), 3);
    assert!(errs.is_empty());
}

#[test]
fn half_join_multiplies_multiplicities_and_takes_the_later_time() {
    let updates = stream(&[(&[i32d(1), i32d(7)], 4, 2, 3)]);
    let trace = arranged(&[
        (&[i32d(1)], &[i32d(100)], 1, 5),
        (&[i32d(1)], &[i32d(200)], 6, -2),
        (&[i32d(2)], &[i32d(300)], 1, 1),
    ]);
    let closure = project(3, vec![0, 1, 2]);
    // With `LessEqual` and the initial time 2, only the lookup at time 1
    // is met. The time of the pair is the later of 4 and 1.
    let (oks, errs) = build_halfjoin(
        updates,
        &trace,
        &vec![col(0)],
        &vec![1],
        TimeComparison::LessEqual,
        &closure,
        ShutdownProbe::new(false),
    );
    assert!(errs.is_empty());
    assert_eq!(stream_of(&oks), vec![((vec![i32d(1), i32d(7), i32d(100)], 4), 2, 15)]);
    // With a later initial time both are met; the time of the second pair
    // is that of the lookup.
    let updates = stream(&[(&[i32d(1), i32d(7)], 4, 6, 3)]);
    let (oks, _) = build_halfjoin(
        updates,
        &trace,
        &vec![col(0)],
        &vec![1],
        TimeComparison::LessEqual,
        &closure,
        ShutdownProbe::new(false),
    );
    assert_eq!(
        stream_of(&oks),
        vec![
            ((vec![i32d(1), i32d(7), i32d(100)], 4), 6, 15),
            ((vec![i32d(1), i32d(7), i32d(200)], 6), 6, -6),
        ]
    );
    // `LessThan` leaves out the lookup at the initial time itself.
    let updates = stream(&[(&[i32d(1), i32d(7)], 4, 6, 3)]);
    let (oks, _) = build_halfjoin(
        updates,
        &trace,
        &vec![col(0)],
        &vec![1],
        TimeComparison::LessThan,
        &closure,
        ShutdownProbe::new(false),
    );
    assert_eq!(stream_of(&oks), vec![((vec![i32d(1), i32d(7), i32d(100)], 4), 6, 15)]);
}

#[test]
fn time_comparison_follows_the_order_of_the_relations() {
    assert_eq!(TimeComparison::between(0, 1), TimeComparison::LessEqual);
    assert_eq!(TimeComparison::between(1, 0), TimeComparison::LessThan);
    assert_eq!(TimeComparison::between(2, 2), TimeComparison::LessThan);
    assert!(TimeComparison::LessEqual.holds(&3, &3));
    assert!(!TimeComparison::LessThan.holds(&3, &3));
    assert!(TimeComparison::LessThan.holds(&2, &3));
    assert!(!TimeComparison::LessEqual.holds(&4, &3));
}

#[test]
fn retraction_cancels_the_matched_rows() {
    // An insertion with multiplicity 2 and its retraction.
    let updates =
        stream(&[(&[i32d(1), i32d(7)], 3, 3, 2), (&[i32d(1), i32d(7)], 3, 3, -2)]);
    let trace = arranged(&[(&[i32d(1)], &[i32d(100)], 1, 5), (&[i32d(1)], &[i32d(200)], 2, 1)]);
    let closure = project(3, vec![0, 1, 2]);
    let (oks, errs) = build_halfjoin(
        updates,
        &trace,
        &vec![col(0)],
        &vec![1],
        TimeComparison::LessEqual,
        &closure,
        ShutdownProbe::new(false),
    );
    assert!(errs.is_empty());
    let out = stream_of(&oks);
    assert_eq!(
        out,
        vec![
            ((vec![i32d(1), i32d(7), i32d(100)], 3), 3, 10),
            ((vec![i32d(1), i32d(7), i32d(200)], 3), 3, 2),
            ((vec![i32d(1), i32d(7), i32d(100)], 3), 3, -10),
            ((vec![i32d(1), i32d(7), i32d(200)], 3), 3, -2),
        ]
    );
    // The net multiplicity of each row is zero.
    for (data, initial, _) in out.iter() {
        let net: i64 =
            out.iter().filter(|(d, i, _)| d == data && i == initial).map(|(_, _, diff)| diff).sum();
        assert_eq!(net, 0);
    }
}

#[test]
fn retracting_the_lookup_side_cancels_too() {
    let updates = stream(&[(&[i32d(1), i32d(7)], 3, 3, 2)]);
    let trace = arranged(&[(&[i32d(1)], &[i32d(100)], 1, 5), (&[i32d(1)], &[i32d(100)], 2, -5)]);
    let closure = project(3, vec![0, 1, 2]);
    let (oks, _) = build_halfjoin(
        updates,
        &trace,
        &vec![col(0)],
        &vec![1],
        TimeComparison::LessEqual,
        &closure,
        ShutdownProbe::new(false),
    );
    let out = stream_of(&oks);
    assert_eq!(out.len(), 2);
    assert_eq!(out[0].0, out[1].0);
    assert_eq!(out[0].2 + out[1].2, 0);
}

#[test]
fn a_failing_closure_does_not_hold_back_other_rows() {
    // The closure negates the second column; the least integer has no
    // negation.
    let updates = stream(&[
        (&[i32d(1), i32d(7)], 3, 3, 1),
        (&[i32d(1), i32d(i32::MIN)], 3, 3, 4),
        (&[i32d(1), i32d(9)], 3, 3, 1),
    ]);
    let trace = arranged(&[(&[i32d(1)], &[i32d(100)], 1, 1)]);
    let closure = negating(3, 1);
    let (oks, errs) = build_halfjoin(
        updates,
        &trace,
        &vec![col(0)],
        &vec![1],
        TimeComparison::LessEqual,
        &closure,
        ShutdownProbe::new(false),
    );
    assert_eq!(
        stream_of(&oks),
        vec![
            ((vec![i32d(1), i32d(7), i32d(100), i32d(-7)], 3), 3, 1),
            ((vec![i32d(1), i32d(9), i32d(100), i32d(-9)], 3), 3, 1),
        ]
    );
    // The failing row is in the errors exactly once, with its multiplicity.
    assert_eq!(
        errs,
        vec![(DataflowError::EvalError(EvalError::Int32OutOfRange(i32::MIN)), 3, 4)]
    );
}

#[test]
fn a_failing_key_goes_to_the_errors_and_nowhere_else() {
    let updates = stream(&[
        (&[i32d(i32::MIN), i32d(7)], 3, 2, 6),
        (&[i32d(-1), i32d(9)], 5, 4, 1),
    ]);
    let trace = arranged(&[(&[i32d(1)], &[i32d(100)], 1, 1), (&[i32d(i32::MIN)], &[i32d(0)], 1, 1)]);
    let closure = project(3, vec![0, 1, 2]);
    let (oks, errs) = build_halfjoin(
        updates,
        &trace,
        &vec![call(UnaryFunc::NegInt32, col(0))],
        &vec![1],
        TimeComparison::LessEqual,
        &closure,
        ShutdownProbe::new(false),
    );
    assert_eq!(stream_of(&oks), vec![((vec![i32d(1), i32d(9), i32d(100)], 5), 4, 1)]);
    // The error is at the initial time of the update, with its multiplicity.
    assert_eq!(
        errs,
        vec![(DataflowError::EvalError(EvalError::Int32OutOfRange(i32::MIN)), 2, 6)]
    );
}

#[test]
fn a_dataflow_that_shuts_down_hands_on_nothing() {
    let updates = stream(&[(&[i32d(1), i32d(7)], 3, 3, 1), (&[i32d(i32::MIN), i32d(7)], 3, 3, 1)]);
    let trace = arranged(&[(&[i32d(-1)], &[i32d(100)], 1, 1)]);
    let closure = project(3, vec![0, 1, 2]);
    let (oks, errs) = build_halfjoin(
        updates,
        &trace,
        &vec![call(UnaryFunc::NegInt32, col(0))],
        &vec![1],
        TimeComparison::LessEqual,
        &closure,
        ShutdownProbe::new(true),
    );
    assert!(oks.is_empty());
    // The key is prepared before the probe is asked.
    assert_eq!(errs.len(), 1);
    assert_eq!(ShutdownProbe::new(true).probe(), None);
    assert_eq!(ShutdownProbe::new(false).probe(), Some(()));
}

#[test]
fn the_parts_of_a_stage_fit_together() {
    let mut datums = DatumVec::new();
    let keyed = prepare_key(&mut datums, &row(&[i32d(4), i32d(5), i32d(6)]), 9, &vec![col(2), col(0)], &vec![1, 1])
        .unwrap();
    assert_eq!(keyed.0.unpack(), vec![i32d(6), i32d(4)]);
    assert_eq!(keyed.1.unpack(), vec![i32d(5), i32d(5)]);
    assert_eq!(keyed.2, 9);
    assert_eq!(
        prepare_key(&mut datums, &row(&[i32d(4)]), 9, &vec![col(0), col(3)], &vec![]),
        Err(EvalError::Internal)
    );

    let closure = project(3, vec![2, 1, 0]);
    let alive = ShutdownProbe::new(false);
    let m = join_match(&mut datums, &closure, &alive, &row(&[i32d(1)]), &row(&[i32d(2)]), &row(&[i32d(3)]), 5, 8, -3, 4)
        .unwrap();
    assert_eq!((m.0).0.as_ref().unwrap().as_ref().unwrap().unpack(), vec![i32d(3), i32d(2), i32d(1)]);
    assert_eq!(((m.0).1, m.1, m.2), (8, 5, -12));
    assert!(join_match(
        &mut datums,
        &closure,
        &ShutdownProbe::new(true),
        &row(&[i32d(1)]),
        &row(&[i32d(2)]),
        &row(&[i32d(3)]),
        5,
        8,
        -3,
        4
    )
    .is_none());

    let prepared = vec![((row(&[i32d(1)]), row(&[i32d(2)]), 4), 4, 1)];
    let trace = arranged(&[(&[i32d(1)], &[i32d(3)], 9, 1), (&[i32d(1)], &[i32d(30)], 2, 1)]);
    let matched = half_join(&prepared, &trace, TimeComparison::LessEqual, &closure, &alive);
    assert_eq!(matched.len(), 1);
    let (oks, errs) = split_ok_err(&matched);
    assert_eq!(stream_of(&oks), vec![((vec![i32d(30), i32d(2), i32d(1)], 4), 4, 1)]);
    assert!(errs.is_empty());
}

#[test]
fn the_final_closure_fails_with_the_multiplicity_of_its_row() {
    let updates: Vec<Update> = vec![
        (row(&[i32d(1)]), 3, 2),
        (row(&[i32d(i32::MIN)]), 4, -7),
        (row(&[i32d(0)]), 5, 1),
    ];
    // Keep the rows whose column is not zero, and append its negation.
    let closure = JoinClosure {
        ready_equivalences: vec![],
        before: MapFilterProject {
            expressions: vec![call(UnaryFunc::NegInt32, col(0))],
            predicates: vec![call(UnaryFunc::CastInt32ToBool, col(0))],
            projection: vec![1, 0],
            input_arity: 1,
        },
    };
    let (oks, errs) = finish(&updates, &closure);
    assert_eq!(rows_of(&oks), vec![(vec![i32d(-1), i32d(1)], 3, 2)]);
    assert_eq!(
        errs,
        vec![(DataflowError::EvalError(EvalError::Int32OutOfRange(i32::MIN)), 4, -7)]
    );
}

#[test]
fn promote_and_restore_move_the_time() {
    let updates: Vec<Update> = vec![(row(&[i32d(1)]), 3, 2)];
    let promoted = promote(updates);
    assert_eq!(stream_of(&promoted), vec![((vec![i32d(1)], 3), 3, 2)]);
    let advanced: Vec<StreamUpdate> = vec![((row(&[i32d(1)]), 9), 3, 2)];
    assert_eq!(rows_of(&restore(advanced)), vec![(vec![i32d(1)], 9, 2)]);
}

fn err(code: i32, time: u64) -> ErrUpdate {
    (DataflowError::EvalError(EvalError::Int16OutOfRange(code)), time, 1)
}

#[test]
fn an_arrangement_is_resolved_once_and_shared() {
    // Three relations; two paths look up relation 2 by the same key.
    let stage = |lookup: usize| DeltaStagePlan {
        lookup_relation: lookup,
        stream_key: vec![col(0)],
        stream_thinning: vec![],
        lookup_key: vec![col(0)],
        closure: project(1, vec![0]),
    };
    let path = |source: usize, lookups: Vec<usize>| DeltaPathPlan {
        source_relation: source,
        source_key: vec![col(0)],
        initial_closure: None,
        stage_plans: lookups.into_iter().map(stage).collect(),
        final_closure: None,
    };
    let plan = DeltaJoinPlan {
        path_plans: vec![path(0, vec![1, 2]), path(1, vec![0, 2]), path(2, vec![0, 1])],
    };
    let bundle = |key: i32, time: u64| {
        CollectionBundle {
            collection: None,
            arranged: vec![(
                vec![col(0)],
                ArrangementFlavor::Trace(
                    GlobalId::User(time),
                    arranged(&[(&[i32d(key)], &[], time, 1)]),
                    vec![err(key, time)],
                ),
            )],
        }
    };
    let inputs = vec![bundle(1, 0), bundle(1, 1), bundle(1, 2)];

    let (arrangements, errs) = resolve_arrangements(&inputs, &plan);
    // Three sources and six stages ask for three arrangements, each where
    // it is named first.
    assert_eq!(arrangements.iter().map(|a| a.0).collect::<Vec<_>>(), vec![0, 1, 2]);
    // Two stages that ask for the same relation by the same key are
    // answered from the same place, with the same arrangement.
    let first = find_resolved(&arrangements, 2, &plan.path_plans[0].stage_plans[1].lookup_key);
    let second = find_resolved(&arrangements, 2, &plan.path_plans[1].stage_plans[1].lookup_key);
    let source = find_resolved(&arrangements, 2, &plan.path_plans[2].source_key);
    assert_eq!(first, Some(2));
    assert_eq!(first, second);
    assert_eq!(first, source);
    assert!(std::ptr::eq(arrangements[2].2, &inputs[2].arranged[0].1));
    assert_eq!(find_resolved(&arrangements, 2, &vec![col(1)]), None);
    assert_eq!(find_resolved(&arrangements, 3, &vec![col(0)]), None);
    // The errors of each arrangement are taken once.
    assert_eq!(errs, vec![err(1, 0), err(1, 1), err(1, 2)]);

    // The whole join carries them once, too.
    let ctx = context(Antichain::from_elem(0));
    assert!(ctx.is_join_ready(&inputs, &plan));
    let (oks, errs) = ctx.render_delta_join(inputs, plan).collection.unwrap();
    assert_eq!(errs, vec![err(1, 0), err(1, 1), err(1, 2)]);
    // The one triple of matching rows is found once, by the path of the
    // relation whose update is the latest.
    assert_eq!(rows_of(&oks), vec![(vec![i32d(1)], 2, 1)]);
}

#[test]
fn a_source_that_no_stage_looks_up_is_resolved_too() {
    // Relation 0 is arranged by its first column, which the path reads, and
    // relation 1 by its second column, which the stage looks up. No stage
    // looks up relation 0.
    let plan = || DeltaJoinPlan {
        path_plans: vec![DeltaPathPlan {
            source_relation: 0,
            source_key: vec![col(0)],
            initial_closure: None,
            stage_plans: vec![DeltaStagePlan {
                lookup_relation: 1,
                stream_key: vec![col(0)],
                stream_thinning: vec![1],
                lookup_key: vec![col(1)],
                closure: project(3, vec![0, 1, 2]),
            }],
            final_closure: None,
        }],
    };
    let inputs = || {
        vec![
            CollectionBundle {
                collection: None,
                arranged: vec![(
                    vec![col(0)],
                    ArrangementFlavor::Local(arranged(&[(&[i32d(1)], &[i32d(7)], 1, 1)]), vec![err(5, 0)]),
                )],
            },
            CollectionBundle {
                collection: None,
                arranged: vec![(
                    vec![col(1)],
                    ArrangementFlavor::Local(arranged(&[(&[i32d(1)], &[i32d(9)], 1, 2)]), vec![err(6, 0)]),
                )],
            },
        ]
    };
    let ctx = context(Antichain::new());
    assert!(ctx.is_join_ready(&inputs(), &plan()));
    let (oks, errs) = ctx.render_delta_join(inputs(), plan()).collection.unwrap();
    assert_eq!(rows_of(&oks), vec![(vec![i32d(1), i32d(7), i32d(9)], 1, 2)]);
    // The failures of the source arrangement are carried as well.
    assert_eq!(errs, vec![err(5, 0), err(6, 0)]);
}

#[test]
fn a_join_that_cannot_be_rendered_is_told_apart() {
    let r = arranged(&[(&[i32d(1)], &[ch(b'a')], 0, i64::MAX)]);
    let s = arranged(&[(&[i32d(1)], &[ch(b'x')], 1, 2)]);
    let ctx = context(Antichain::from_elem(0));
    // The product of the multiplicities does not fit.
    let inputs = vec![by_first_column(r.clone(), vec![]), by_first_column(s.clone(), vec![])];
    assert!(!ctx.is_join_ready(&inputs, &two_way_plan()));
    assert!(ctx.try_render_delta_join(inputs, two_way_plan()).is_none());
    // In a dataflow that shuts down nothing is multiplied.
    let stopped = Context { as_of_frontier: Antichain::from_elem(0), shutdown_probe: ShutdownProbe::new(true) };
    let inputs = vec![by_first_column(r.clone(), vec![]), by_first_column(s.clone(), vec![])];
    assert!(stopped.is_join_ready(&inputs, &two_way_plan()));
    let (oks, _) = stopped.try_render_delta_join(inputs, two_way_plan()).unwrap().collection.unwrap();
    assert!(oks.is_empty());
    // An arrangement is missing.
    let inputs = vec![by_first_column(r.clone(), vec![])];
    assert!(!ctx.is_join_ready(&inputs, &two_way_plan()));
    // A stage keeps a column that the rows do not have.
    let mut plan = two_way_plan();
    plan.path_plans[0].stage_plans[0].stream_thinning = vec![5];
    let small = arranged(&[(&[i32d(1)], &[ch(b'a')], 0, 1)]);
    let inputs = vec![by_first_column(small.clone(), vec![]), by_first_column(s.clone(), vec![])];
    assert!(!ctx.is_join_ready(&inputs, &plan));
    // A closure that says it cannot fail, and fails: it projects a column
    // that is not there.
    let mut plan = two_way_plan();
    plan.path_plans[1].stage_plans[0].closure = project(3, vec![0, 7]);
    let inputs = vec![by_first_column(small.clone(), vec![]), by_first_column(s.clone(), vec![])];
    assert!(!ctx.is_join_ready(&inputs, &plan));
    // The join that can be rendered is rendered.
    let inputs = vec![by_first_column(small, vec![]), by_first_column(s, vec![])];
    let bundle = ctx.try_render_delta_join(inputs, two_way_plan()).unwrap();
    assert_eq!(bundle.collection.unwrap().0.len(), 1);
}

#[test]
fn a_stage_says_whether_it_can_run() {
    let trace = arranged(&[(&[i32d(1)], &[i32d(100)], 1, 5)]);
    let closure = project(3, vec![0, 1, 2]);
    let alive = ShutdownProbe::new(false);
    let ready = |updates: &Vec<StreamUpdate>, thinning: &Vec<usize>, probe| {
        is_stage_ready(updates, &trace, &vec![col(0)], thinning, TimeComparison::LessEqual, &closure, probe)
    };
    let updates = stream(&[(&[i32d(1), i32d(7)], 4, 2, 3)]);
    assert!(ready(&updates, &vec![1], alive));
    assert!(!ready(&updates, &vec![2], alive));
    assert!(!ready(&updates, &vec![2], ShutdownProbe::new(true)));
    let large = stream(&[(&[i32d(1), i32d(7)], 4, 2, i64::MAX)]);
    assert!(!ready(&large, &vec![1], alive));
    assert!(ready(&large, &vec![1], ShutdownProbe::new(true)));
    // A pair that is not made is not multiplied.
    let unmatched = stream(&[(&[i32d(2), i32d(7)], 4, 2, i64::MAX), (&[i32d(1), i32d(7)], 4, 0, i64::MAX)]);
    assert!(ready(&unmatched, &vec![1], alive));
}

#[test]
fn a_bundle_hands_out_its_arrangement_by_key() {
    let b = CollectionBundle {
        collection: None,
        arranged: vec![
            (vec![col(0)], ArrangementFlavor::Local(arranged(&[(&[i32d(1)], &[], 0, 1)]), vec![])),
            (vec![col(1), col(0)], ArrangementFlavor::Local(vec![], vec![err(3, 3)])),
        ],
    };
    assert_eq!(b.arrangement(&vec![col(0)]).unwrap().oks().len(), 1);
    assert_eq!(b.arrangement(&vec![col(1), col(0)]).unwrap().errs(), &vec![err(3, 3)]);
    assert!(b.arrangement(&vec![col(1)]).is_none());
    assert!(b.arrangement(&vec![]).is_none());
    let c = CollectionBundle::from_collections(vec![(row(&[i32d(1)]), 0, 1)], vec![]);
    assert!(c.arranged.is_empty());
    assert_eq!(c.collection.unwrap().0.len(), 1);
}

#[test]
fn an_infallible_closure_hands_on_rows_only() {
    let prepared = vec![((row(&[i32d(1)]), row(&[i32d(2)]), 4), 4, 2)];
    let trace = arranged(&[(&[i32d(1)], &[i32d(3)], 1, 3), (&[i32d(1)], &[i32d(0)], 2, 1)]);
    // Keep the pairs whose lookup column is not zero.
    let closure = JoinClosure {
        ready_equivalences: vec![],
        before: MapFilterProject {
            expressions: vec![],
            predicates: vec![call(UnaryFunc::CastInt32ToBool, col(2))],
            projection: vec![0, 1, 2],
            input_arity: 3,
        },
    };
    assert!(!closure.could_error());
    let matched = half_join(&prepared, &trace, TimeComparison::LessEqual, &closure, &ShutdownProbe::new(false));
    assert_eq!(matched.len(), 2);
    assert_eq!(stream_of(&matched_rows(&matched)), vec![((vec![i32d(1), i32d(2), i32d(3)], 4), 4, 6)]);
}

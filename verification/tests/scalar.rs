use delta_render::expr::error::{DataflowError, EvalError};
use delta_render::expr::int32::{
    abs_int32, bit_not_int32, cast_int32_to_bool, cast_int32_to_int16, cast_int32_to_int64,
    cast_int32_to_oid, cast_int32_to_pg_legacy_char, cast_int32_to_string, cast_int32_to_uint16,
    cast_int32_to_uint32, cast_int32_to_uint64, chr, neg_int32, CastInt32ToNumeric,
    NumericMaxScale, Oid, PgLegacyChar,
};
use delta_render::expr::linear::{project, MapFilterProject};
use delta_render::expr::scalar::{any_could_error, clone_exprs, same_exprs, MirScalarExpr, UnaryFunc};
use delta_render::plan::join::JoinClosure;
use delta_render::repr::datum::Datum;
use delta_render::repr::row::Row;

fn col(i: usize) -> MirScalarExpr {
    MirScalarExpr::Column(i)
}

fn lit(d: Datum) -> MirScalarExpr {
    MirScalarExpr::Literal(Ok(d))
}

fn call(func: UnaryFunc, expr: MirScalarExpr) -> MirScalarExpr {
    MirScalarExpr::CallUnary { func, expr: Box::new(expr) }
}

#[test]
fn neg_int32_fails_on_the_least_integer_only() {
    assert_eq!(neg_int32(5), Ok(-5));
    assert_eq!(neg_int32(-5), Ok(5));
    assert_eq!(neg_int32(0), Ok(0));
    assert_eq!(neg_int32(i32::MAX), Ok(i32::MIN + 1));
    assert_eq!(neg_int32(i32::MIN), Err(EvalError::Int32OutOfRange(i32::MIN)));
}

#[test]
fn bit_not_int32_flips_every_bit() {
    assert_eq!(bit_not_int32(0), -1);
    assert_eq!(bit_not_int32(-1), 0);
    assert_eq!(bit_not_int32(5), -6);
    assert_eq!(bit_not_int32(i32::MIN), i32::MAX);
    assert_eq!(bit_not_int32(i32::MAX), i32::MIN);
}

#[test]
fn abs_int32_fails_on_the_least_integer_only() {
    assert_eq!(abs_int32(5), Ok(5));
    assert_eq!(abs_int32(-5), Ok(5));
    assert_eq!(abs_int32(0), Ok(0));
    assert_eq!(abs_int32(i32::MIN + 1), Ok(i32::MAX));
    assert_eq!(abs_int32(i32::MIN), Err(EvalError::Int32OutOfRange(i32::MIN)));
}

#[test]
fn casts_of_int32_keep_the_value_or_fail() {
    assert!(!cast_int32_to_bool(0));
    assert!(cast_int32_to_bool(1));
    assert!(cast_int32_to_bool(-7));

    assert_eq!(cast_int32_to_int16(32767), Ok(32767));
    assert_eq!(cast_int32_to_int16(-32768), Ok(-32768));
    assert_eq!(cast_int32_to_int16(32768), Err(EvalError::Int16OutOfRange(32768)));
    assert_eq!(cast_int32_to_int16(-32769), Err(EvalError::Int16OutOfRange(-32769)));

    assert_eq!(cast_int32_to_int64(i32::MIN), -2147483648i64);
    assert_eq!(cast_int32_to_int64(i32::MAX), 2147483647i64);

    assert_eq!(cast_int32_to_uint16(0), Ok(0));
    assert_eq!(cast_int32_to_uint16(65535), Ok(65535));
    assert_eq!(cast_int32_to_uint16(65536), Err(EvalError::UInt16OutOfRange(65536)));
    assert_eq!(cast_int32_to_uint16(-1), Err(EvalError::UInt16OutOfRange(-1)));

    assert_eq!(cast_int32_to_uint32(i32::MAX), Ok(2147483647));
    assert_eq!(cast_int32_to_uint32(-1), Err(EvalError::UInt32OutOfRange(-1)));

    assert_eq!(cast_int32_to_uint64(i32::MAX), Ok(2147483647));
    assert_eq!(cast_int32_to_uint64(i32::MIN), Err(EvalError::UInt64OutOfRange(i32::MIN)));
}

#[test]
fn cast_to_oid_keeps_the_bits() {
    assert_eq!(cast_int32_to_oid(0), Oid(0));
    assert_eq!(cast_int32_to_oid(7), Oid(7));
    assert_eq!(cast_int32_to_oid(-1), Oid(u32::MAX));
    assert_eq!(cast_int32_to_oid(i32::MIN), Oid(2147483648));
}

#[test]
fn cast_to_char_takes_the_byte_as_signed() {
    assert_eq!(cast_int32_to_pg_legacy_char(0), Ok(PgLegacyChar(0)));
    assert_eq!(cast_int32_to_pg_legacy_char(97), Ok(PgLegacyChar(97)));
    assert_eq!(cast_int32_to_pg_legacy_char(127), Ok(PgLegacyChar(127)));
    assert_eq!(cast_int32_to_pg_legacy_char(-1), Ok(PgLegacyChar(255)));
    assert_eq!(cast_int32_to_pg_legacy_char(-128), Ok(PgLegacyChar(128)));
    assert_eq!(cast_int32_to_pg_legacy_char(128), Err(EvalError::CharOutOfRange));
    assert_eq!(cast_int32_to_pg_legacy_char(-129), Err(EvalError::CharOutOfRange));
}

#[test]
fn chr_gives_the_character_or_says_why_not() {
    assert_eq!(chr(97), Ok("a".to_string()));
    assert_eq!(chr(0x20ac), Ok("\u{20ac}".to_string()));
    assert_eq!(chr(0xd7ff), Ok("\u{d7ff}".to_string()));
    assert_eq!(chr(0xe000), Ok("\u{e000}".to_string()));
    assert_eq!(chr(0x10ffff), Ok("\u{10ffff}".to_string()));
    assert_eq!(chr(0), Err(EvalError::NullCharacterNotPermitted));
    assert_eq!(chr(-1), Err(EvalError::CharacterTooLargeForEncoding(-1)));
    assert_eq!(chr(0xd800), Err(EvalError::CharacterNotValidForEncoding(0xd800)));
    assert_eq!(chr(0xdfff), Err(EvalError::CharacterNotValidForEncoding(0xdfff)));
    assert_eq!(chr(0x110000), Err(EvalError::CharacterTooLargeForEncoding(0x110000)));
    assert_eq!(chr(i32::MAX), Err(EvalError::CharacterTooLargeForEncoding(i32::MAX)));
}

#[test]
fn unary_functions_wrap_their_results() {
    assert_eq!(UnaryFunc::NegInt32.call(3), Ok(Datum::Int32(-3)));
    assert_eq!(UnaryFunc::BitNotInt32.call(3), Ok(Datum::Int32(-4)));
    assert_eq!(UnaryFunc::AbsInt32.call(-3), Ok(Datum::Int32(3)));
    assert_eq!(UnaryFunc::CastInt32ToBool.call(0), Ok(Datum::False));
    assert_eq!(UnaryFunc::CastInt32ToBool.call(2), Ok(Datum::True));
    assert_eq!(UnaryFunc::CastInt32ToInt16.call(-3), Ok(Datum::Int16(-3)));
    assert_eq!(UnaryFunc::CastInt32ToInt64.call(-3), Ok(Datum::Int64(-3)));
    assert_eq!(UnaryFunc::CastInt32ToUint16.call(3), Ok(Datum::UInt16(3)));
    assert_eq!(UnaryFunc::CastInt32ToUint32.call(3), Ok(Datum::UInt32(3)));
    assert_eq!(UnaryFunc::CastInt32ToUint64.call(3), Ok(Datum::UInt64(3)));
    assert_eq!(UnaryFunc::CastInt32ToOid.call(-1), Ok(Datum::UInt32(u32::MAX)));
    assert_eq!(UnaryFunc::CastInt32ToPgLegacyChar.call(-1), Ok(Datum::UInt8(255)));
    assert_eq!(UnaryFunc::CastInt32ToPgLegacyChar.call(300), Err(EvalError::CharOutOfRange));
    assert_eq!(UnaryFunc::AbsInt32.call(i32::MIN), Err(EvalError::Int32OutOfRange(i32::MIN)));
}

#[test]
fn unary_functions_say_whether_they_can_fail() {
    let fallible = [
        UnaryFunc::NegInt32,
        UnaryFunc::AbsInt32,
        UnaryFunc::CastInt32ToInt16,
        UnaryFunc::CastInt32ToUint16,
        UnaryFunc::CastInt32ToUint32,
        UnaryFunc::CastInt32ToUint64,
        UnaryFunc::CastInt32ToPgLegacyChar,
    ];
    let infallible = [
        UnaryFunc::BitNotInt32,
        UnaryFunc::CastInt32ToBool,
        UnaryFunc::CastInt32ToInt64,
        UnaryFunc::CastInt32ToOid,
    ];
    for f in fallible {
        assert!(f.could_error());
    }
    for f in infallible {
        assert!(!f.could_error());
    }
}

#[test]
fn unary_functions_hand_on_nulls_and_failures() {
    assert_eq!(UnaryFunc::NegInt32.apply(Ok(Datum::Null)), Ok(Datum::Null));
    assert_eq!(UnaryFunc::NegInt32.apply(Ok(Datum::Int32(4))), Ok(Datum::Int32(-4)));
    assert_eq!(UnaryFunc::NegInt32.apply(Ok(Datum::Int64(4))), Err(EvalError::Internal));
    assert_eq!(UnaryFunc::NegInt32.apply(Ok(Datum::Dummy)), Err(EvalError::Internal));
    assert_eq!(
        UnaryFunc::NegInt32.apply(Err(EvalError::CharOutOfRange)),
        Err(EvalError::CharOutOfRange)
    );
}

#[test]
fn expressions_evaluate_on_the_datums_of_a_row() {
    let datums = [Datum::Int32(4), Datum::Null, Datum::Int32(i32::MIN)];
    assert_eq!(col(0).eval(&datums), Ok(Datum::Int32(4)));
    assert_eq!(col(1).eval(&datums), Ok(Datum::Null));
    // A column that the row does not have is an internal error.
    assert_eq!(col(3).eval(&datums), Err(EvalError::Internal));
    assert_eq!(lit(Datum::True).eval(&datums), Ok(Datum::True));
    assert_eq!(
        MirScalarExpr::Literal(Err(EvalError::NumericFieldOverflow)).eval(&datums),
        Err(EvalError::NumericFieldOverflow)
    );
    assert_eq!(call(UnaryFunc::NegInt32, col(0)).eval(&datums), Ok(Datum::Int32(-4)));
    assert_eq!(call(UnaryFunc::NegInt32, col(1)).eval(&datums), Ok(Datum::Null));
    assert_eq!(
        call(UnaryFunc::NegInt32, col(2)).eval(&datums),
        Err(EvalError::Int32OutOfRange(i32::MIN))
    );
    // The inner failure wins.
    assert_eq!(
        call(UnaryFunc::CastInt32ToBool, call(UnaryFunc::NegInt32, col(2))).eval(&datums),
        Err(EvalError::Int32OutOfRange(i32::MIN))
    );
    assert_eq!(
        call(UnaryFunc::AbsInt32, call(UnaryFunc::NegInt32, col(0))).eval(&datums),
        Ok(Datum::Int32(4))
    );
    // A boolean is no integer.
    assert_eq!(
        call(UnaryFunc::NegInt32, call(UnaryFunc::CastInt32ToBool, col(0))).eval(&datums),
        Err(EvalError::Internal)
    );
}

#[test]
fn expressions_say_whether_they_could_fail() {
    assert!(!col(0).could_error());
    assert!(!lit(Datum::Null).could_error());
    assert!(MirScalarExpr::Literal(Err(EvalError::Internal)).could_error());
    assert!(call(UnaryFunc::NegInt32, col(0)).could_error());
    assert!(!call(UnaryFunc::BitNotInt32, col(0)).could_error());
    assert!(call(UnaryFunc::BitNotInt32, call(UnaryFunc::AbsInt32, col(0))).could_error());
    assert!(!any_could_error(&vec![]));
    assert!(!any_could_error(&vec![col(0), lit(Datum::True)]));
    assert!(any_could_error(&vec![col(0), call(UnaryFunc::NegInt32, col(1))]));
}

#[test]
fn expressions_are_compared_and_copied_by_structure() {
    let a = call(UnaryFunc::NegInt32, call(UnaryFunc::AbsInt32, col(2)));
    let b = call(UnaryFunc::NegInt32, call(UnaryFunc::AbsInt32, col(2)));
    let c = call(UnaryFunc::NegInt32, call(UnaryFunc::AbsInt32, col(3)));
    let d = call(UnaryFunc::AbsInt32, call(UnaryFunc::AbsInt32, col(2)));
    assert!(a.same(&b));
    assert!(a.same(&a.clone()));
    assert!(!a.same(&c));
    assert!(!a.same(&d));
    assert!(!a.same(&col(2)));
    assert!(lit(Datum::Int32(1)).same(&lit(Datum::Int32(1))));
    assert!(!lit(Datum::Int32(1)).same(&lit(Datum::Int64(1))));
    assert!(!lit(Datum::Int32(1)).same(&MirScalarExpr::Literal(Err(EvalError::Internal))));
    assert!(same_exprs(&vec![], &vec![]));
    assert!(same_exprs(&vec![col(0), a.clone()], &clone_exprs(&vec![col(0), b])));
    assert!(!same_exprs(&vec![col(0)], &vec![col(0), col(0)]));
    assert!(!same_exprs(&vec![col(0), col(1)], &vec![col(1), col(0)]));
}

fn mfp(
    expressions: Vec<MirScalarExpr>,
    predicates: Vec<MirScalarExpr>,
    projection: Vec<usize>,
    input_arity: usize,
) -> MapFilterProject {
    MapFilterProject { expressions, predicates, projection, input_arity }
}

fn evaluate(m: &MapFilterProject, datums: &[Datum]) -> Result<Option<Vec<Datum>>, EvalError> {
    let mut scratch = datums.to_vec();
    m.evaluate_into(&mut scratch).map(|r| r.map(|row| row.unpack()))
}

#[test]
fn map_filter_project_maps_then_filters_then_projects() {
    let m = mfp(
        vec![call(UnaryFunc::NegInt32, col(0)), call(UnaryFunc::AbsInt32, col(2))],
        vec![call(UnaryFunc::CastInt32ToBool, col(1))],
        vec![3, 2, 0],
        2,
    );
    // Columns 0 and 1 are given; 2 is -col0; 3 is |col2|.
    assert_eq!(
        evaluate(&m, &[Datum::Int32(-5), Datum::Int32(1)]),
        Ok(Some(vec![Datum::Int32(5), Datum::Int32(5), Datum::Int32(-5)]))
    );
    // The predicate does not hold.
    assert_eq!(evaluate(&m, &[Datum::Int32(-5), Datum::Int32(0)]), Ok(None));
    // A predicate that is unknown does not hold either.
    assert_eq!(evaluate(&m, &[Datum::Int32(-5), Datum::Null]), Ok(None));
    // A failing expression wins over a predicate that does not hold.
    assert_eq!(
        evaluate(&m, &[Datum::Int32(i32::MIN), Datum::Int32(0)]),
        Err(EvalError::Int32OutOfRange(i32::MIN))
    );
    // A projection of a column that is not there is an internal error.
    let m = mfp(vec![], vec![], vec![0, 4], 2);
    assert_eq!(evaluate(&m, &[Datum::Int32(1), Datum::Int32(2)]), Err(EvalError::Internal));
    // The scratch space holds the mapped columns afterwards.
    let m = mfp(vec![call(UnaryFunc::NegInt32, col(0))], vec![], vec![], 1);
    let mut scratch = vec![Datum::Int32(3)];
    assert_eq!(m.evaluate_into(&mut scratch).map(|r| r.map(|row| row.unpack())), Ok(Some(vec![])));
    assert_eq!(scratch, vec![Datum::Int32(3), Datum::Int32(-3)]);
}

#[test]
fn map_filter_project_knows_the_identity_and_its_failures() {
    assert!(mfp(vec![], vec![], vec![0, 1, 2], 3).is_identity());
    assert!(mfp(vec![], vec![], vec![], 0).is_identity());
    assert!(!mfp(vec![], vec![], vec![0, 1], 3).is_identity());
    assert!(!mfp(vec![], vec![], vec![0, 2, 1], 3).is_identity());
    assert!(!mfp(vec![col(0)], vec![], vec![0, 1, 2], 3).is_identity());
    assert!(!mfp(vec![], vec![lit(Datum::True)], vec![0, 1, 2], 3).is_identity());

    assert!(!mfp(vec![col(0)], vec![lit(Datum::True)], vec![0], 1).could_error());
    assert!(mfp(vec![call(UnaryFunc::NegInt32, col(0))], vec![], vec![0], 1).could_error());
    assert!(mfp(vec![], vec![call(UnaryFunc::AbsInt32, col(0))], vec![0], 1).could_error());

    let m = mfp(vec![col(0)], vec![lit(Datum::True)], vec![1, 0], 1);
    let c = m.clone();
    assert!(same_exprs(&c.expressions, &m.expressions));
    assert!(same_exprs(&c.predicates, &m.predicates));
    assert_eq!(c.projection, m.projection);
    assert_eq!(c.input_arity, m.input_arity);
}

#[test]
fn project_picks_columns() {
    let datums = [Datum::Int32(1), Datum::Int32(2), Datum::Int32(3)];
    assert_eq!(project(&vec![2, 0, 2], &datums), Ok(vec![datums[2], datums[0], datums[2]]));
    assert_eq!(project(&vec![], &datums), Ok(vec![]));
    assert_eq!(project(&vec![0, 3], &datums), Err(EvalError::Internal));
}

fn apply(c: &JoinClosure, datums: &[Datum]) -> Result<Option<Vec<Datum>>, EvalError> {
    let mut scratch = datums.to_vec();
    c.apply(&mut scratch).map(|r| r.map(|row| row.unpack()))
}

#[test]
fn join_closure_asks_its_equivalences_first() {
    let c = JoinClosure {
        ready_equivalences: vec![
            vec![col(0), col(1)],
            vec![],
            vec![call(UnaryFunc::NegInt32, col(2)), col(3), col(3)],
        ],
        before: mfp(vec![], vec![], vec![0, 2], 4),
    };
    let d = |a, b, c, d| [Datum::Int32(a), Datum::Int32(b), Datum::Int32(c), Datum::Int32(d)];
    assert_eq!(apply(&c, &d(1, 1, 5, -5)), Ok(Some(vec![Datum::Int32(1), Datum::Int32(5)])));
    // The first class does not hold.
    assert_eq!(apply(&c, &d(1, 2, 5, -5)), Ok(None));
    // The third class does not hold.
    assert_eq!(apply(&c, &d(1, 1, 5, 5)), Ok(None));
    // The first class fails to hold before the third class fails.
    assert_eq!(apply(&c, &d(1, 2, i32::MIN, 0)), Ok(None));
    // The third class fails.
    assert_eq!(apply(&c, &d(1, 1, i32::MIN, 0)), Err(EvalError::Int32OutOfRange(i32::MIN)));
    // Unknown values that are the same datum pass.
    assert_eq!(
        apply(&c, &[Datum::Null, Datum::Null, Datum::Int32(0), Datum::Int32(0)]),
        Ok(Some(vec![Datum::Null, Datum::Int32(0)]))
    );

    assert!(c.could_error());
    assert!(!c.is_identity());
    let plain = JoinClosure { ready_equivalences: vec![], before: mfp(vec![], vec![], vec![0, 1], 2) };
    assert!(plain.is_identity());
    assert!(!plain.could_error());
    let guarded = JoinClosure {
        ready_equivalences: vec![vec![col(0), col(1)]],
        before: mfp(vec![], vec![], vec![0, 1], 2),
    };
    assert!(!guarded.is_identity());
    assert!(!guarded.could_error());
    let copy = c.clone();
    assert_eq!(copy.ready_equivalences.len(), 3);
    assert!(same_exprs(&copy.ready_equivalences[2], &c.ready_equivalences[2]));
    assert_eq!(copy.before.projection, vec![0, 2]);
}

#[test]
fn datums_and_rows() {
    assert!(Datum::Null.is_null());
    assert!(!Datum::Dummy.is_null());
    assert_eq!(Datum::from_bool(true), Datum::True);
    assert_eq!(Datum::from_bool(false), Datum::False);
    let r = Row::pack_slice(&[Datum::Int32(1), Datum::Null]);
    assert_eq!(r.len(), 2);
    assert_eq!(r.datum(1), Datum::Null);
    assert_eq!(r.unpack(), vec![Datum::Int32(1), Datum::Null]);
    assert_eq!(r.clone(), r);
    assert!(r.same(&Row::pack(vec![Datum::Int32(1), Datum::Null])));
    assert!(!r.same(&Row::pack(vec![Datum::Int32(1)])));
    assert!(!r.same(&Row::pack(vec![Datum::Int32(1), Datum::Dummy])));
    assert!(r != Row::empty());
    assert_eq!(Row::empty().len(), 0);
    assert_eq!(
        DataflowError::from(EvalError::CharOutOfRange),
        DataflowError::EvalError(EvalError::CharOutOfRange)
    );
}

#[test]
fn cast_to_text_writes_decimal() {
    assert_eq!(cast_int32_to_string(0), "0");
    assert_eq!(cast_int32_to_string(7), "7");
    assert_eq!(cast_int32_to_string(-120), "-120");
    assert_eq!(cast_int32_to_string(i32::MAX), "2147483647");
    assert_eq!(cast_int32_to_string(i32::MIN), "-2147483648");

    assert!(!CastInt32ToNumeric(None).could_error());
    assert!(CastInt32ToNumeric(Some(NumericMaxScale(3))).could_error());
    assert!(CastInt32ToNumeric(None).is_monotone());
    assert_eq!(CastInt32ToNumeric(None).name(), "integer_to_numeric");
}

//! Scalar expressions and their evaluation on the datums of one row.
use vstd::prelude::*;
use crate::expr::error::EvalError;
use crate::expr::int32::{
    abs_int32, bit_not_int32, cast_int32_to_bool, cast_int32_to_int16, cast_int32_to_int64,
    cast_int32_to_oid, cast_int32_to_pg_legacy_char, cast_int32_to_uint16, cast_int32_to_uint32,
    cast_int32_to_uint64, neg_int32, spec_abs_int32, spec_bit_not_int32,
    spec_cast_int32_to_int16, spec_cast_int32_to_pg_legacy_char, spec_cast_int32_to_uint16,
    spec_cast_int32_to_uint32, spec_cast_int32_to_uint64, spec_neg_int32, spec_reinterpret_u32,
};
use crate::repr::datum::Datum;

verus! {

/// A function of one 32-bit integer.
#[derive(Clone, Copy, Debug, PartialEq, Eq, Structural, Hash)]
pub enum UnaryFunc {
    /// Negation.
    NegInt32,
    /// Bitwise complement.
    BitNotInt32,
    /// Absolute value.
    AbsInt32,
    /// Cast to a boolean.
    CastInt32ToBool,
    /// Cast to a signed 16-bit integer.
    CastInt32ToInt16,
    /// Cast to a signed 64-bit integer.
    CastInt32ToInt64,
    /// Cast to an unsigned 16-bit integer.
    CastInt32ToUint16,
    /// Cast to an unsigned 32-bit integer.
    CastInt32ToUint32,
    /// Cast to an unsigned 64-bit integer.
    CastInt32ToUint64,
    /// Cast to an object identifier.
    CastInt32ToOid,
    /// Cast to a one-byte character.
    CastInt32ToPgLegacyChar,
}

/// Wraps the result of a fallible integer function into a datum.
pub open spec fn spec_lift<A>(r: Result<A, EvalError>, wrap: spec_fn(A) -> Datum) -> Result<
    Datum,
    EvalError,
> {
    match r {
        Ok(a) => Ok(wrap(a)),
        Err(e) => Err(e),
    }
}

impl UnaryFunc {
    /// The result of the function on the integer `a`.
    pub open spec fn spec_call(self, a: i32) -> Result<Datum, EvalError> {
        match self {
            UnaryFunc::NegInt32 => spec_lift(spec_neg_int32(a), |v: i32| Datum::Int32(v)),
            UnaryFunc::BitNotInt32 => Ok(Datum::Int32(spec_bit_not_int32(a))),
            UnaryFunc::AbsInt32 => spec_lift(spec_abs_int32(a), |v: i32| Datum::Int32(v)),
            UnaryFunc::CastInt32ToBool => Ok(Datum::spec_from_bool(a != 0)),
            UnaryFunc::CastInt32ToInt16 => spec_lift(
                spec_cast_int32_to_int16(a),
                |v: i16| Datum::Int16(v),
            ),
            UnaryFunc::CastInt32ToInt64 => Ok(Datum::Int64(a as i64)),
            UnaryFunc::CastInt32ToUint16 => spec_lift(
                spec_cast_int32_to_uint16(a),
                |v: u16| Datum::UInt16(v),
            ),
            UnaryFunc::CastInt32ToUint32 => spec_lift(
                spec_cast_int32_to_uint32(a),
                |v: u32| Datum::UInt32(v),
            ),
            UnaryFunc::CastInt32ToUint64 => spec_lift(
                spec_cast_int32_to_uint64(a),
                |v: u64| Datum::UInt64(v),
            ),
            UnaryFunc::CastInt32ToOid => Ok(Datum::UInt32(spec_reinterpret_u32(a))),
            UnaryFunc::CastInt32ToPgLegacyChar => match spec_cast_int32_to_pg_legacy_char(a) {
                Ok(c) => Ok(Datum::UInt8(c.0)),
                Err(e) => Err(e),
            },
        }
    }

    /// Calls the function on the integer `a`.
    pub fn call(self, a: i32) -> (r: Result<Datum, EvalError>)
        ensures
            r == self.spec_call(a),
    {
        match self {
            UnaryFunc::NegInt32 => match neg_int32(a) {
                Ok(v) => Ok(Datum::Int32(v)),
                Err(e) => Err(e),
            },
            UnaryFunc::BitNotInt32 => Ok(Datum::Int32(bit_not_int32(a))),
            UnaryFunc::AbsInt32 => match abs_int32(a) {
                Ok(v) => Ok(Datum::Int32(v)),
                Err(e) => Err(e),
            },
            UnaryFunc::CastInt32ToBool => Ok(Datum::from_bool(cast_int32_to_bool(a))),
            UnaryFunc::CastInt32ToInt16 => match cast_int32_to_int16(a) {
                Ok(v) => Ok(Datum::Int16(v)),
                Err(e) => Err(e),
            },
            UnaryFunc::CastInt32ToInt64 => Ok(Datum::Int64(cast_int32_to_int64(a))),
            UnaryFunc::CastInt32ToUint16 => match cast_int32_to_uint16(a) {
                Ok(v) => Ok(Datum::UInt16(v)),
                Err(e) => Err(e),
            },
            UnaryFunc::CastInt32ToUint32 => match cast_int32_to_uint32(a) {
                Ok(v) => Ok(Datum::UInt32(v)),
                Err(e) => Err(e),
            },
            UnaryFunc::CastInt32ToUint64 => match cast_int32_to_uint64(a) {
                Ok(v) => Ok(Datum::UInt64(v)),
                Err(e) => Err(e),
            },
            UnaryFunc::CastInt32ToOid => Ok(Datum::UInt32(cast_int32_to_oid(a).0)),
            UnaryFunc::CastInt32ToPgLegacyChar => match cast_int32_to_pg_legacy_char(a) {
                Ok(c) => Ok(Datum::UInt8(c.0)),
                Err(e) => Err(e),
            },
        }
    }

    /// Whether the function fails on some integer.
    pub open spec fn spec_could_error(self) -> bool {
        match self {
            UnaryFunc::NegInt32 => true,
            UnaryFunc::BitNotInt32 => false,
            UnaryFunc::AbsInt32 => true,
            UnaryFunc::CastInt32ToBool => false,
            UnaryFunc::CastInt32ToInt16 => true,
            UnaryFunc::CastInt32ToInt64 => false,
            UnaryFunc::CastInt32ToUint16 => true,
            UnaryFunc::CastInt32ToUint32 => true,
            UnaryFunc::CastInt32ToUint64 => true,
            UnaryFunc::CastInt32ToOid => false,
            UnaryFunc::CastInt32ToPgLegacyChar => true,
        }
    }

    /// Reports whether the function fails on some integer.
    #[verifier::when_used_as_spec(spec_could_error)]
    pub fn could_error(self) -> (b: bool)
        ensures
            b == self.spec_could_error(),
    {
        match self {
            UnaryFunc::NegInt32 => true,
            UnaryFunc::BitNotInt32 => false,
            UnaryFunc::AbsInt32 => true,
            UnaryFunc::CastInt32ToBool => false,
            UnaryFunc::CastInt32ToInt16 => true,
            UnaryFunc::CastInt32ToInt64 => false,
            UnaryFunc::CastInt32ToUint16 => true,
            UnaryFunc::CastInt32ToUint32 => true,
            UnaryFunc::CastInt32ToUint64 => true,
            UnaryFunc::CastInt32ToOid => false,
            UnaryFunc::CastInt32ToPgLegacyChar => true,
        }
    }

    /// The result of the function on what its argument evaluated to: a
    /// failure of the argument is handed on, the unknown value stays
    /// unknown, an integer is handed to the function, and any other datum
    /// is an internal error.
    pub open spec fn spec_apply(self, input: Result<Datum, EvalError>) -> Result<Datum, EvalError> {
        match input {
            Err(e) => Err(e),
            Ok(Datum::Int32(a)) => self.spec_call(a),
            Ok(Datum::Null) => Ok(Datum::Null),
            Ok(_) => Err(EvalError::Internal),
        }
    }

    /// Applies the function to what its argument evaluated to.
    pub fn apply(self, input: Result<Datum, EvalError>) -> (r: Result<Datum, EvalError>)
        ensures
            r == self.spec_apply(input),
    {
        match input {
            Err(e) => Err(e),
            Ok(Datum::Int32(a)) => self.call(a),
            Ok(Datum::Null) => Ok(Datum::Null),
            Ok(_) => Err(EvalError::Internal),
        }
    }
}

/// A scalar expression over the columns of one row.
#[derive(Debug)]
pub enum MirScalarExpr {
    /// The datum in the column with the given index.
    Column(usize),
    /// A constant, or a failure that is already known.
    Literal(Result<Datum, EvalError>),
    /// A unary function applied to an expression.
    CallUnary { func: UnaryFunc, expr: Box<MirScalarExpr> },
}

impl Clone for MirScalarExpr {
    fn clone(&self) -> (c: MirScalarExpr)
        ensures
            c == *self,
        decreases self,
    {
        match self {
            MirScalarExpr::Column(i) => MirScalarExpr::Column(*i),
            MirScalarExpr::Literal(r) => MirScalarExpr::Literal(*r),
            MirScalarExpr::CallUnary { func, expr } => {
                let inner = (**expr).clone();
                MirScalarExpr::CallUnary { func: *func, expr: Box::new(inner) }
            },
        }
    }
}

impl MirScalarExpr {
    /// The value of the expression on a row with the datums `datums`.
    ///
    /// A column that the row does not have is an internal error.
    pub open spec fn spec_eval(&self, datums: Seq<Datum>) -> Result<Datum, EvalError>
        decreases self,
    {
        match self {
            MirScalarExpr::Column(i) => if *i < datums.len() {
                Ok(datums[*i as int])
            } else {
                Err(EvalError::Internal)
            },
            MirScalarExpr::Literal(r) => *r,
            MirScalarExpr::CallUnary { func, expr } => func.spec_apply(expr.spec_eval(datums)),
        }
    }

    /// Evaluates the expression on a row with the datums `datums`.
    pub fn eval(&self, datums: &[Datum]) -> (r: Result<Datum, EvalError>)
        ensures
            r == self.spec_eval(datums@),
        decreases self,
    {
        match self {
            MirScalarExpr::Column(i) => if *i < datums.len() {
                Ok(datums[*i])
            } else {
                Err(EvalError::Internal)
            },
            MirScalarExpr::Literal(r) => *r,
            MirScalarExpr::CallUnary { func, expr } => func.apply(expr.eval(datums)),
        }
    }

    /// Whether the expression holds a function that can fail, or a failure.
    pub open spec fn spec_could_error(&self) -> bool
        decreases self,
    {
        match self {
            MirScalarExpr::Column(_) => false,
            MirScalarExpr::Literal(r) => r is Err,
            MirScalarExpr::CallUnary { func, expr } => func.spec_could_error()
                || expr.spec_could_error(),
        }
    }

    /// Reports whether the expression holds a function that can fail, or a
    /// failure.
    pub fn could_error(&self) -> (b: bool)
        ensures
            b == self.spec_could_error(),
        decreases self,
    {
        match self {
            MirScalarExpr::Column(_) => false,
            MirScalarExpr::Literal(r) => r.is_err(),
            MirScalarExpr::CallUnary { func, expr } => func.could_error() || expr.could_error(),
        }
    }

    /// Whether two expressions are the same expression.
    pub fn same(&self, other: &MirScalarExpr) -> (b: bool)
        ensures
            b == (*self == *other),
        decreases self,
    {
        match (self, other) {
            (MirScalarExpr::Column(i), MirScalarExpr::Column(j)) => *i == *j,
            (MirScalarExpr::Literal(r), MirScalarExpr::Literal(s)) => match (r, s) {
                (Ok(a), Ok(b)) => *a == *b,
                (Err(a), Err(b)) => *a == *b,
                _ => false,
            },
            (
                MirScalarExpr::CallUnary { func: f, expr: e },
                MirScalarExpr::CallUnary { func: g, expr: h },
            ) => *f == *g && e.same(h),
            _ => false,
        }
    }
}

/// Whether some expression of `exprs` could fail.
pub open spec fn spec_any_could_error(exprs: Seq<MirScalarExpr>) -> bool {
    exists|i: int| 0 <= i < exprs.len() && (#[trigger] exprs[i]).spec_could_error()
}

/// Reports whether some expression of `exprs` could fail.
pub fn any_could_error(exprs: &Vec<MirScalarExpr>) -> (b: bool)
    ensures
        b == spec_any_could_error(exprs@),
{
    let mut i: usize = 0;
    while i < exprs.len()
        invariant
            i <= exprs.len(),
            forall|j: int| 0 <= j < i ==> !(#[trigger] exprs@[j]).spec_could_error(),
        decreases exprs.len() - i,
    {
        if exprs[i].could_error() {
            return true;
        }
        i = i + 1;
    }
    false
}

/// Whether two lists hold the same expressions in the same order.
pub fn same_exprs(a: &Vec<MirScalarExpr>, b: &Vec<MirScalarExpr>) -> (r: bool)
    ensures
        r == (a@ == b@),
{
    if a.len() != b.len() {
        return false;
    }
    let mut i: usize = 0;
    while i < a.len()
        invariant
            i <= a.len(),
            a.len() == b.len(),
            forall|j: int| 0 <= j < i ==> a@[j] == b@[j],
        decreases a.len() - i,
    {
        if !a[i].same(&b[i]) {
            return false;
        }
        i = i + 1;
    }
    proof {
        assert(a@ =~= b@);
    }
    true
}

/// A copy of a list of expressions.
pub fn clone_exprs(a: &Vec<MirScalarExpr>) -> (r: Vec<MirScalarExpr>)
    ensures
        r@ == a@,
{
    let mut out: Vec<MirScalarExpr> = Vec::new();
    let mut i: usize = 0;
    while i < a.len()
        invariant
            i <= a.len(),
            out@ == a@.take(i as int),
        decreases a.len() - i,
    {
        out.push(a[i].clone());
        proof {
            assert(a@.take(i as int + 1) =~= a@.take(i as int).push(a@[i as int]));
        }
        i = i + 1;
    }
    proof {
        assert(a@.take(a.len() as int) =~= a@);
    }
    out
}

} // verus!

//! Map, filter and project: the linear operator that closures are made of.
use vstd::prelude::*;
use crate::expr::error::EvalError;
use crate::expr::scalar::{any_could_error, spec_any_could_error, MirScalarExpr};
use crate::repr::datum::Datum;
use crate::repr::row::Row;

verus! {

/// What a closure makes of one row: a failure, nothing, or a row.
pub type Outcome = Result<Option<Seq<Datum>>, EvalError>;

/// The outcome that an executable result stands for.
pub open spec fn spec_outcome(r: Result<Option<Row>, EvalError>) -> Outcome {
    match r {
        Ok(Some(row)) => Ok(Some(row@)),
        Ok(None) => Ok(None),
        Err(e) => Err(e),
    }
}

/// The datums after the expressions from position `i` on have each been
/// evaluated and appended, in order, or the first failure among them.
pub open spec fn spec_map_from(exprs: Seq<MirScalarExpr>, datums: Seq<Datum>, i: int) -> Result<
    Seq<Datum>,
    EvalError,
>
    decreases exprs.len() - i,
{
    if 0 <= i < exprs.len() {
        match exprs[i].spec_eval(datums) {
            Ok(d) => spec_map_from(exprs, datums.push(d), i + 1),
            Err(e) => Err(e),
        }
    } else {
        Ok(datums)
    }
}

/// The datums after the expressions from position `i` on have each been
/// evaluated and appended, in order, up to the first among them that fails.
pub open spec fn spec_scratch_from(exprs: Seq<MirScalarExpr>, datums: Seq<Datum>, i: int) -> Seq<
    Datum,
>
    decreases exprs.len() - i,
{
    if 0 <= i < exprs.len() {
        match exprs[i].spec_eval(datums) {
            Ok(d) => spec_scratch_from(exprs, datums.push(d), i + 1),
            Err(_) => datums,
        }
    } else {
        datums
    }
}

/// Whether every predicate from position `i` on evaluates to `true`. The
/// predicates are asked in order; the first that is not `true` decides, be
/// it by failing or by holding another value.
pub open spec fn spec_filter_from(preds: Seq<MirScalarExpr>, datums: Seq<Datum>, i: int) -> Result<
    bool,
    EvalError,
>
    decreases preds.len() - i,
{
    if 0 <= i < preds.len() {
        match preds[i].spec_eval(datums) {
            Ok(d) => if d == Datum::True {
                spec_filter_from(preds, datums, i + 1)
            } else {
                Ok(false)
            },
            Err(e) => Err(e),
        }
    } else {
        Ok(true)
    }
}

/// Whether every column of the projection is a column of `datums`.
pub open spec fn spec_projectable(projection: Seq<usize>, datums: Seq<Datum>) -> bool {
    forall|k: int| 0 <= k < projection.len() ==> (#[trigger] projection[k]) < datums.len()
}

/// The datums that the projection picks. A column that is not there is an
/// internal error.
pub open spec fn spec_project(projection: Seq<usize>, datums: Seq<Datum>) -> Result<
    Seq<Datum>,
    EvalError,
> {
    if spec_projectable(projection, datums) {
        Ok(Seq::new(projection.len(), |k: int| datums[projection[k] as int]))
    } else {
        Err(EvalError::Internal)
    }
}

/// Picks the columns of `projection` from `datums`, in order.
pub fn project(projection: &Vec<usize>, datums: &[Datum]) -> (r: Result<Vec<Datum>, EvalError>)
    ensures
        match spec_project(projection@, datums@) {
            Ok(s) => r is Ok && r->Ok_0@ == s,
            Err(e) => r == Err::<Vec<Datum>, EvalError>(e),
        },
{
    let mut out: Vec<Datum> = Vec::new();
    let mut k: usize = 0;
    while k < projection.len()
        invariant
            k <= projection.len(),
            out@.len() == k,
            forall|j: int| 0 <= j < k ==> (#[trigger] projection@[j]) < datums@.len(),
            forall|j: int| 0 <= j < k ==> out@[j] == datums@[projection@[j] as int],
        decreases projection.len() - k,
    {
        let c = projection[k];
        if c >= datums.len() {
            return Err(EvalError::Internal);
        }
        out.push(datums[c]);
        k = k + 1;
    }
    proof {
        assert(out@ =~= Seq::new(projection@.len(), |k: int| datums@[projection@[k] as int]));
    }
    Ok(out)
}

/// A map, a filter and a projection, applied in this order.
///
/// The expressions are evaluated one after the other, each on the row
/// extended by the values of those before it. The predicates are then asked
/// on the extended row, and the projection picks the columns of the result.
#[derive(Debug)]
pub struct MapFilterProject {
    /// The expressions whose values are appended to the row.
    pub expressions: Vec<MirScalarExpr>,
    /// The predicates that the extended row must meet.
    pub predicates: Vec<MirScalarExpr>,
    /// The columns of the extended row that make up the result.
    pub projection: Vec<usize>,
    /// The number of columns of the rows that the operator is meant for.
    pub input_arity: usize,
}

impl Clone for MapFilterProject {
    fn clone(&self) -> (c: MapFilterProject)
        ensures
            c.expressions@ == self.expressions@,
            c.predicates@ == self.predicates@,
            c.projection@ == self.projection@,
            c.input_arity == self.input_arity,
    {
        MapFilterProject {
            expressions: crate::expr::scalar::clone_exprs(&self.expressions),
            predicates: crate::expr::scalar::clone_exprs(&self.predicates),
            projection: self.projection.clone(),
            input_arity: self.input_arity,
        }
    }
}

impl MapFilterProject {
    /// What the operator makes of a row with the datums `datums`.
    pub open spec fn spec_evaluate(&self, datums: Seq<Datum>) -> Outcome {
        match spec_map_from(self.expressions@, datums, 0) {
            Err(e) => Err(e),
            Ok(extended) => match spec_filter_from(self.predicates@, extended, 0) {
                Err(e) => Err(e),
                Ok(false) => Ok(None),
                Ok(true) => match spec_project(self.projection@, extended) {
                    Err(e) => Err(e),
                    Ok(row) => Ok(Some(row)),
                },
            },
        }
    }

    /// Applies the operator to the row unpacked in `datums`, which serves as
    /// scratch space: the values of the expressions are appended to it.
    pub fn evaluate_into(&self, datums: &mut Vec<Datum>) -> (r: Result<Option<Row>, EvalError>)
        ensures
            spec_outcome(r) == self.spec_evaluate(old(datums)@),
            final(datums)@ == spec_scratch_from(self.expressions@, old(datums)@, 0),
            old(datums)@.is_prefix_of(final(datums)@),
    {
        let ghost start = datums@;
        let mut i: usize = 0;
        while i < self.expressions.len()
            invariant
                i <= self.expressions.len(),
                start == old(datums)@,
                start.is_prefix_of(datums@),
                spec_map_from(self.expressions@, datums@, i as int) == spec_map_from(
                    self.expressions@,
                    start,
                    0,
                ),
                spec_scratch_from(self.expressions@, datums@, i as int) == spec_scratch_from(
                    self.expressions@,
                    start,
                    0,
                ),
            decreases self.expressions.len() - i,
        {
            match self.expressions[i].eval(datums.as_slice()) {
                Ok(d) => {
                    datums.push(d);
                },
                Err(e) => {
                    return Err(e);
                },
            }
            i = i + 1;
        }
        let mut j: usize = 0;
        while j < self.predicates.len()
            invariant
                j <= self.predicates.len(),
                start == old(datums)@,
                start.is_prefix_of(datums@),
                spec_map_from(self.expressions@, start, 0) == Ok::<Seq<Datum>, EvalError>(datums@),
                spec_scratch_from(self.expressions@, start, 0) == datums@,
                spec_filter_from(self.predicates@, datums@, j as int) == spec_filter_from(
                    self.predicates@,
                    datums@,
                    0,
                ),
            decreases self.predicates.len() - j,
        {
            match self.predicates[j].eval(datums.as_slice()) {
                Ok(d) => {
                    if d != Datum::True {
                        return Ok(None);
                    }
                },
                Err(e) => {
                    return Err(e);
                },
            }
            j = j + 1;
        }
        match project(&self.projection, datums.as_slice()) {
            Ok(picked) => Ok(Some(Row::pack(picked))),
            Err(e) => Err(e),
        }
    }

    /// Whether the operator hands every row of its arity on as it is.
    pub open spec fn spec_is_identity(&self) -> bool {
        &&& self.expressions@.len() == 0
        &&& self.predicates@.len() == 0
        &&& self.projection@.len() == self.input_arity
        &&& forall|k: int| 0 <= k < self.projection@.len() ==> (#[trigger] self.projection@[k]) == k
    }

    /// Reports whether the operator hands every row of its arity on as it
    /// is.
    pub fn is_identity(&self) -> (b: bool)
        ensures
            b == self.spec_is_identity(),
    {
        if self.expressions.len() != 0 || self.predicates.len() != 0 || self.projection.len()
            != self.input_arity {
            return false;
        }
        let mut k: usize = 0;
        while k < self.projection.len()
            invariant
                k <= self.projection.len(),
                forall|j: int| 0 <= j < k ==> (#[trigger] self.projection@[j]) == j,
            decreases self.projection.len() - k,
        {
            if self.projection[k] != k {
                return false;
            }
            k = k + 1;
        }
        true
    }

    /// Whether an expression or a predicate of the operator could fail.
    pub open spec fn spec_could_error(&self) -> bool {
        spec_any_could_error(self.expressions@) || spec_any_could_error(self.predicates@)
    }

    /// Reports whether an expression or a predicate of the operator could
    /// fail.
    pub fn could_error(&self) -> (b: bool)
        ensures
            b == self.spec_could_error(),
    {
        any_could_error(&self.expressions) || any_could_error(&self.predicates)
    }
}

/// An operator that is the identity on rows of `arity` columns hands each
/// such row on unchanged.
pub proof fn lemma_identity_evaluates_to_input(mfp: &MapFilterProject, datums: Seq<Datum>)
    requires
        mfp.spec_is_identity(),
        datums.len() == mfp.input_arity,
    ensures
        mfp.spec_evaluate(datums) == Ok::<Option<Seq<Datum>>, EvalError>(Some(datums)),
{
    assert(spec_projectable(mfp.projection@, datums));
    assert(Seq::new(mfp.projection@.len(), |k: int| datums[mfp.projection@[k] as int]) =~= datums);
}

} // verus!

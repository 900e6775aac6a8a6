//! Plans of joins: the closures that run inside a join, and the delta paths
//! and stages that a delta join is made of.
use vstd::prelude::*;
use crate::expr::error::EvalError;
use crate::expr::linear::{spec_outcome, MapFilterProject, Outcome};
use crate::expr::scalar::{any_could_error, clone_exprs, MirScalarExpr};
use crate::repr::datum::Datum;
use crate::repr::row::Row;

verus! {

/// Whether the expressions of one class, from position `j` on, all evaluate
/// to `val`. They are asked in order; the first that fails or differs
/// decides.
pub open spec fn spec_class_from(
    class: Seq<MirScalarExpr>,
    datums: Seq<Datum>,
    val: Datum,
    j: int,
) -> Result<bool, EvalError>
    decreases class.len() - j,
{
    if 0 <= j < class.len() {
        match class[j].spec_eval(datums) {
            Err(e) => Err(e),
            Ok(d) => if d == val {
                spec_class_from(class, datums, val, j + 1)
            } else {
                Ok(false)
            },
        }
    } else {
        Ok(true)
    }
}

/// Whether all expressions of one class evaluate to one value. A class
/// without expressions holds.
pub open spec fn spec_class_holds(class: Seq<MirScalarExpr>, datums: Seq<Datum>) -> Result<
    bool,
    EvalError,
> {
    if class.len() == 0 {
        Ok(true)
    } else {
        match class[0].spec_eval(datums) {
            Err(e) => Err(e),
            Ok(val) => spec_class_from(class, datums, val, 1),
        }
    }
}

/// Whether every class from position `i` on holds. The classes are asked in
/// order; the first that fails or does not hold decides.
pub open spec fn spec_classes_from(
    classes: Seq<Vec<MirScalarExpr>>,
    datums: Seq<Datum>,
    i: int,
) -> Result<bool, EvalError>
    decreases classes.len() - i,
{
    if 0 <= i < classes.len() {
        match spec_class_holds(classes[i]@, datums) {
            Err(e) => Err(e),
            Ok(false) => Ok(false),
            Ok(true) => spec_classes_from(classes, datums, i + 1),
        }
    } else {
        Ok(true)
    }
}

/// Whether some class holds an expression that could fail.
pub open spec fn spec_classes_could_error(classes: Seq<Vec<MirScalarExpr>>) -> bool {
    exists|i: int|
        0 <= i < classes.len() && crate::expr::scalar::spec_any_could_error(
            (#[trigger] classes[i])@,
        )
}

/// A filter and a projection that become applicable at some point of a
/// join: once the columns they read are all there.
#[derive(Debug)]
pub struct JoinClosure {
    /// Classes of expressions; a row passes only where the expressions of
    /// each class all evaluate to one value.
    pub ready_equivalences: Vec<Vec<MirScalarExpr>>,
    /// What is applied to the rows that pass.
    pub before: MapFilterProject,
}

impl Clone for JoinClosure {
    fn clone(&self) -> (c: JoinClosure)
        ensures
            c.spec_same(self),
    {
        let mut classes: Vec<Vec<MirScalarExpr>> = Vec::new();
        let mut i: usize = 0;
        while i < self.ready_equivalences.len()
            invariant
                i <= self.ready_equivalences.len(),
                classes@.len() == i,
                forall|k: int| 0 <= k < i ==> (#[trigger] classes@[k])@ == self.ready_equivalences@[k]@,
            decreases self.ready_equivalences.len() - i,
        {
            classes.push(clone_exprs(&self.ready_equivalences[i]));
            i = i + 1;
        }
        JoinClosure { ready_equivalences: classes, before: self.before.clone() }
    }
}

impl JoinClosure {
    /// Whether two closures are made of the same classes and the same
    /// operator.
    pub open spec fn spec_same(&self, other: &JoinClosure) -> bool {
        &&& self.ready_equivalences@.len() == other.ready_equivalences@.len()
        &&& forall|k: int|
            0 <= k < self.ready_equivalences@.len() ==> (#[trigger] self.ready_equivalences@[k])@
                == other.ready_equivalences@[k]@
        &&& self.before.expressions@ == other.before.expressions@
        &&& self.before.predicates@ == other.before.predicates@
        &&& self.before.projection@ == other.before.projection@
        &&& self.before.input_arity == other.before.input_arity
    }

    /// What the closure makes of a row with the datums `datums`: a failure,
    /// nothing where the row does not pass, or the row that comes out.
    pub open spec fn spec_apply(&self, datums: Seq<Datum>) -> Outcome {
        match spec_classes_from(self.ready_equivalences@, datums, 0) {
            Err(e) => Err(e),
            Ok(false) => Ok(None),
            Ok(true) => self.before.spec_evaluate(datums),
        }
    }

    /// The scratch space after the closure is applied to a row with the
    /// datums `datums`: as it was where the classes stop the row, and else
    /// with the values of the expressions of the operator appended.
    pub open spec fn spec_scratch(&self, datums: Seq<Datum>) -> Seq<Datum> {
        match spec_classes_from(self.ready_equivalences@, datums, 0) {
            Ok(true) => crate::expr::linear::spec_scratch_from(self.before.expressions@, datums, 0),
            _ => datums,
        }
    }

    /// Applies the closure to the row unpacked in `datums`, which serves as
    /// scratch space.
    pub fn apply(&self, datums: &mut Vec<Datum>) -> (r: Result<Option<Row>, EvalError>)
        ensures
            spec_outcome(r) == self.spec_apply(old(datums)@),
            final(datums)@ == self.spec_scratch(old(datums)@),
            old(datums)@.is_prefix_of(final(datums)@),
    {
        let mut i: usize = 0;
        while i < self.ready_equivalences.len()
            invariant
                i <= self.ready_equivalences.len(),
                datums@ == old(datums)@,
                spec_classes_from(self.ready_equivalences@, datums@, i as int)
                    == spec_classes_from(self.ready_equivalences@, datums@, 0),
            decreases self.ready_equivalences.len() - i,
        {
            let class = &self.ready_equivalences[i];
            if class.len() > 0 {
                let val = match class[0].eval(datums.as_slice()) {
                    Ok(val) => val,
                    Err(e) => {
                        return Err(e);
                    },
                };
                let mut j: usize = 1;
                while j < class.len()
                    invariant
                        1 <= j <= class.len(),
                        i < self.ready_equivalences.len(),
                        class@ == self.ready_equivalences@[i as int]@,
                        spec_classes_from(self.ready_equivalences@, datums@, i as int)
                            == spec_classes_from(self.ready_equivalences@, datums@, 0),
                        datums@ == old(datums)@,
                        class@[0].spec_eval(datums@) == Ok::<Datum, EvalError>(val),
                        spec_class_from(class@, datums@, val, j as int) == spec_class_holds(
                            class@,
                            datums@,
                        ),
                    decreases class.len() - j,
                {
                    match class[j].eval(datums.as_slice()) {
                        Ok(d) => {
                            if d != val {
                                return Ok(None);
                            }
                        },
                        Err(e) => {
                            return Err(e);
                        },
                    }
                    j = j + 1;
                }
            }
            i = i + 1;
        }
        self.before.evaluate_into(datums)
    }

    /// Whether the closure hands every row of its arity on as it is.
    pub open spec fn spec_is_identity(&self) -> bool {
        self.ready_equivalences@.len() == 0 && self.before.spec_is_identity()
    }

    /// Reports whether the closure hands every row of its arity on as it is.
    pub fn is_identity(&self) -> (b: bool)
        ensures
            b == self.spec_is_identity(),
    {
        self.ready_equivalences.len() == 0 && self.before.is_identity()
    }

    /// Whether some expression of the closure could fail.
    pub open spec fn spec_could_error(&self) -> bool {
        self.before.spec_could_error() || spec_classes_could_error(self.ready_equivalences@)
    }

    /// Reports whether some expression of the closure could fail.
    pub fn could_error(&self) -> (b: bool)
        ensures
            b == self.spec_could_error(),
    {
        if self.before.could_error() {
            return true;
        }
        let mut i: usize = 0;
        while i < self.ready_equivalences.len()
            invariant
                i <= self.ready_equivalences.len(),
                forall|k: int|
                    0 <= k < i ==> !crate::expr::scalar::spec_any_could_error(
                        (#[trigger] self.ready_equivalences@[k])@,
                    ),
            decreases self.ready_equivalences.len() - i,
        {
            if any_could_error(&self.ready_equivalences[i]) {
                return true;
            }
            i = i + 1;
        }
        false
    }
}

/// One stage of a delta path: a half-join of the update stream with one
/// arranged relation.
#[derive(Debug)]
pub struct DeltaStagePlan {
    /// The relation that the stream is joined with.
    pub lookup_relation: usize,
    /// The expressions that give the key of an update of the stream.
    pub stream_key: Vec<MirScalarExpr>,
    /// The columns of the stream that are kept beside the key.
    pub stream_thinning: Vec<usize>,
    /// The key by which the lookup relation must be arranged.
    pub lookup_key: Vec<MirScalarExpr>,
    /// The closure that is applicable once the columns of the lookup
    /// relation are there.
    pub closure: JoinClosure,
}

/// One delta path: what becomes of the updates of one relation.
#[derive(Debug)]
pub struct DeltaPathPlan {
    /// The relation whose updates the path follows.
    pub source_relation: usize,
    /// The key by which the source relation must be arranged.
    pub source_key: Vec<MirScalarExpr>,
    /// A closure applied right after reading the source, if any.
    pub initial_closure: Option<JoinClosure>,
    /// The stages, in the order in which the stream runs through them.
    pub stage_plans: Vec<DeltaStagePlan>,
    /// A closure applied after the last stage, if any.
    pub final_closure: Option<JoinClosure>,
}

/// A delta join: one independent path for each relation.
#[derive(Debug)]
pub struct DeltaJoinPlan {
    /// The paths, in order.
    pub path_plans: Vec<DeltaPathPlan>,
}

/// One stage of a linear join.
#[derive(Debug)]
pub struct LinearStagePlan {
    /// The relation that the stream is joined with.
    pub lookup_relation: usize,
    /// The expressions that give the key of a row of the stream.
    pub stream_key: Vec<MirScalarExpr>,
    /// The columns of the stream that are kept beside the key.
    pub stream_thinning: Vec<usize>,
    /// The key by which the lookup relation must be arranged.
    pub lookup_key: Vec<MirScalarExpr>,
    /// The closure that is applicable after the stage.
    pub closure: JoinClosure,
}

/// A linear join: one chain of binary joins.
#[derive(Debug)]
pub struct LinearJoinPlan {
    /// The relation that the chain starts from.
    pub source_relation: usize,
    /// The key by which the source relation is arranged, if it is.
    pub source_key: Option<Vec<MirScalarExpr>>,
    /// A closure applied right after reading the source, if any.
    pub initial_closure: Option<JoinClosure>,
    /// The stages, in order.
    pub stage_plans: Vec<LinearStagePlan>,
    /// A closure applied after the last stage, if any.
    pub final_closure: Option<JoinClosure>,
}

/// The plan of a join.
#[derive(Debug)]
pub enum JoinPlan {
    /// A chain of binary joins.
    Linear(LinearJoinPlan),
    /// One delta path per relation.
    Delta(DeltaJoinPlan),
}

} // verus!

//! The plan tree: the operators of a dataflow, each owning its inputs.
use vstd::prelude::*;
use crate::expr::error::EvalError;
use crate::expr::linear::MapFilterProject;
use crate::expr::scalar::MirScalarExpr;
use crate::plan::join::JoinPlan;
use crate::repr::datum::Diff;
use crate::repr::row::Row;

verus! {

/// The name of a local binding, introduced by a `Let` or a `LetRec`.
pub type LocalId = u64;

/// The name of a collection that lives outside the plan.
#[derive(Clone, Copy, Debug, PartialEq, Eq, Structural, Hash)]
pub enum GlobalId {
    /// A collection of the system.
    System(u64),
    /// A collection of a user.
    User(u64),
    /// A collection that lives as long as one query.
    Transient(u64),
    /// The collection of a plan that is only explained.
    Explain,
}

/// The name of a collection.
#[derive(Clone, Copy, Debug, PartialEq, Eq, Structural, Hash)]
pub enum Id {
    /// A binding of an enclosing `Let` or `LetRec`.
    Local(LocalId),
    /// A collection that lives outside the plan.
    Global(GlobalId),
}

/// A bound on the iterations of one recursive binding.
#[derive(Clone, Copy, Debug, PartialEq, Eq, Structural, Hash)]
pub struct LetRecLimit {
    /// The number of iterations after which the iteration stops.
    pub max_iters: u64,
    /// Whether reaching the bound is no error.
    pub return_at_limit: bool,
}

/// The forms in which a collection is at hand: as it is, and arranged by
/// keys.
#[derive(Debug)]
pub struct AvailableCollections {
    /// Whether the collection is at hand without an arrangement.
    pub raw: bool,
    /// The arrangements at hand: for each its key, the permutation of the
    /// columns, and the columns kept beside the key.
    pub arranged: Vec<(Vec<MirScalarExpr>, Vec<usize>, Vec<usize>)>,
}

/// How a `Get` reads its collection.
#[derive(Debug)]
pub enum GetPlan {
    /// Hands the arrangements on as they are.
    PassArrangements,
    /// Reads one arrangement, at one key value where one is given.
    Arrangement(Vec<MirScalarExpr>, Option<Row>, MapFilterProject),
    /// Reads the collection without an arrangement.
    Collection(MapFilterProject),
}

/// A function from one row to a table.
#[derive(Clone, Copy, Debug, PartialEq, Eq, Structural, Hash)]
pub enum TableFunc {
    /// The integers from a start to a stop, 32 bits wide.
    GenerateSeriesInt32,
    /// The integers from a start to a stop, 64 bits wide.
    GenerateSeriesInt64,
    /// The empty row, as often as the argument says.
    Repeat,
}

/// How a reduction splits a row into a key and a value.
#[derive(Debug)]
pub struct KeyValPlan {
    /// Gives the key.
    pub key_plan: MapFilterProject,
    /// Gives the value.
    pub val_plan: MapFilterProject,
}

/// How a reduction is computed.
#[derive(Clone, Copy, Debug, PartialEq, Eq, Structural, Hash)]
pub enum ReducePlan {
    /// Keeps one row of each key.
    Distinct,
    /// Aggregates that can be kept as sums.
    Accumulable,
    /// Aggregates that are kept in a hierarchy, such as minima.
    Hierarchical,
    /// Aggregates that are computed anew from the rows of a key.
    Basic,
    /// Aggregates of several of these kinds.
    Collation,
}

/// How the first rows of each group are computed.
#[derive(Clone, Copy, Debug, PartialEq, Eq, Structural, Hash)]
#[allow(inconsistent_fields)]
pub enum TopKPlan {
    /// One row per group of an input that never retracts.
    MonotonicTop1,
    /// Up to `limit` rows per group of an input that never retracts.
    MonotonicTopK { limit: u64 },
    /// Up to `limit` rows per group after `offset` rows.
    Basic { limit: Option<u64>, offset: u64 },
}

/// How rows with a negative count are held back.
#[derive(Debug)]
pub enum ThresholdPlan {
    /// Arranges the input by all its columns.
    Basic { ensure_arrangement: (Vec<MirScalarExpr>, Vec<usize>, Vec<usize>) },
}

/// One operator of a plan, with the plans of its inputs.
#[derive(Debug)]
#[allow(inconsistent_fields)]
pub enum PlanNode<T> {
    /// A collection that is written out in the plan.
    Constant { rows: Result<Vec<(Row, T, Diff)>, EvalError> },
    /// A collection that is bound elsewhere.
    Get { id: Id, keys: AvailableCollections, plan: GetPlan },
    /// Binds `value` to `id` in `body`.
    Let { id: LocalId, value: Box<Plan<T>>, body: Box<Plan<T>> },
    /// Binds each of `values` to the `id` at its position, in all of
    /// `values` and in `body`.
    LetRec {
        ids: Vec<LocalId>,
        values: Vec<Plan<T>>,
        limits: Vec<Option<LetRecLimit>>,
        body: Box<Plan<T>>,
    },
    /// Maps, filters and projects the rows of `input`.
    Mfp {
        input: Box<Plan<T>>,
        mfp: MapFilterProject,
        input_key_val: Option<(Vec<MirScalarExpr>, Option<Row>)>,
    },
    /// Replaces each row of `input` by the rows of a table function.
    FlatMap {
        input: Box<Plan<T>>,
        func: TableFunc,
        exprs: Vec<MirScalarExpr>,
        mfp_after: MapFilterProject,
        input_key: Option<Vec<MirScalarExpr>>,
    },
    /// Joins the `inputs`.
    Join { inputs: Vec<Plan<T>>, plan: JoinPlan },
    /// Groups the rows of `input` and aggregates each group.
    Reduce {
        input: Box<Plan<T>>,
        key_val_plan: KeyValPlan,
        plan: ReducePlan,
        input_key: Option<Vec<MirScalarExpr>>,
        mfp_after: MapFilterProject,
    },
    /// Keeps the first rows of each group of `input`.
    TopK { input: Box<Plan<T>>, top_k_plan: TopKPlan },
    /// Negates the multiplicity of each row of `input`.
    Negate { input: Box<Plan<T>> },
    /// Holds back the rows of `input` whose multiplicity is not positive.
    Threshold { input: Box<Plan<T>>, threshold_plan: ThresholdPlan },
    /// The rows of all `inputs` together.
    Union { inputs: Vec<Plan<T>>, consolidate_output: bool },
    /// Arranges `input` in the given forms.
    ArrangeBy {
        input: Box<Plan<T>>,
        forms: AvailableCollections,
        input_key: Option<Vec<MirScalarExpr>>,
        input_mfp: MapFilterProject,
    },
}

/// A plan: an operator and the number by which it is known.
#[derive(Debug)]
pub struct Plan<T> {
    /// The operator at the root of the plan.
    pub node: PlanNode<T>,
    /// The number by which the operator is known.
    pub lir_id: u64,
}

/// Whether no element of `ids` occurs twice.
pub open spec fn spec_distinct(ids: Seq<LocalId>) -> bool {
    forall|i: int, j: int| 0 <= i < j < ids.len() ==> ids[i] != ids[j]
}

/// The greatest nesting among the plans from position `i` on.
pub open spec fn spec_tallest<T>(plans: Seq<Plan<T>>, i: int) -> nat
    decreases plans, plans.len() - i,
{
    if 0 <= i < plans.len() {
        let first = plans[i].spec_height();
        let rest = spec_tallest(plans, i + 1);
        if first >= rest {
            first
        } else {
            rest
        }
    } else {
        0
    }
}

/// The greater of two numbers.
pub open spec fn spec_max(a: nat, b: nat) -> nat {
    if a >= b {
        a
    } else {
        b
    }
}

impl<T> Plan<T> {
    /// The nesting of the plan: the number of operators on the longest way
    /// from the root to a leaf.
    pub open spec fn spec_height(&self) -> nat
        decreases self,
    {
        1 + match &self.node {
            PlanNode::Constant { .. } => 0,
            PlanNode::Get { .. } => 0,
            PlanNode::Let { value, body, .. } => spec_max(value.spec_height(), body.spec_height()),
            PlanNode::LetRec { values, body, .. } => spec_max(
                spec_tallest(values@, 0),
                body.spec_height(),
            ),
            PlanNode::Mfp { input, .. } => input.spec_height(),
            PlanNode::FlatMap { input, .. } => input.spec_height(),
            PlanNode::Join { inputs, .. } => spec_tallest(inputs@, 0),
            PlanNode::Reduce { input, .. } => input.spec_height(),
            PlanNode::TopK { input, .. } => input.spec_height(),
            PlanNode::Negate { input } => input.spec_height(),
            PlanNode::Threshold { input, .. } => input.spec_height(),
            PlanNode::Union { inputs, .. } => spec_tallest(inputs@, 0),
            PlanNode::ArrangeBy { input, .. } => input.spec_height(),
        }
    }

    /// Whether the plan binds no name twice in one scope, with `bound`
    /// being bound outside it: no `Let` or `LetRec` binds a name that is
    /// bound where it stands, a `LetRec` binds distinct names, and it has
    /// one value for each of them.
    pub open spec fn spec_scoped(&self, bound: Set<LocalId>) -> bool
        decreases self,
    {
        match &self.node {
            PlanNode::Constant { .. } => true,
            PlanNode::Get { .. } => true,
            PlanNode::Let { id, value, body } => {
                &&& !bound.contains(*id)
                &&& value.spec_scoped(bound)
                &&& body.spec_scoped(bound.insert(*id))
            },
            PlanNode::LetRec { ids, values, limits, body } => {
                &&& ids@.len() == values@.len()
                &&& spec_distinct(ids@)
                &&& forall|i: int| 0 <= i < ids@.len() ==> !bound.contains(#[trigger] ids@[i])
                &&& forall|i: int|
                    0 <= i < values@.len() ==> (#[trigger] values@[i]).spec_scoped(
                        bound.union(ids@.to_set()),
                    )
                &&& body.spec_scoped(bound.union(ids@.to_set()))
            },
            PlanNode::Mfp { input, .. } => input.spec_scoped(bound),
            PlanNode::FlatMap { input, .. } => input.spec_scoped(bound),
            PlanNode::Join { inputs, .. } => forall|i: int|
                0 <= i < inputs@.len() ==> (#[trigger] inputs@[i]).spec_scoped(bound),
            PlanNode::Reduce { input, .. } => input.spec_scoped(bound),
            PlanNode::TopK { input, .. } => input.spec_scoped(bound),
            PlanNode::Negate { input } => input.spec_scoped(bound),
            PlanNode::Threshold { input, .. } => input.spec_scoped(bound),
            PlanNode::Union { inputs, .. } => forall|i: int|
                0 <= i < inputs@.len() ==> (#[trigger] inputs@[i]).spec_scoped(bound),
            PlanNode::ArrangeBy { input, .. } => input.spec_scoped(bound),
        }
    }
}

/// One operator of a plan as a mathematical value: the operator with the
/// values of its inputs in place of the inputs.
#[allow(inconsistent_fields)]
pub enum PlanNodeView<T> {
    /// A collection that is written out in the plan.
    Constant { rows: Result<Vec<(Row, T, Diff)>, EvalError> },
    /// A collection that is bound elsewhere.
    Get { id: Id, keys: AvailableCollections, plan: GetPlan },
    /// Binds `value` to `id` in `body`.
    Let { id: LocalId, value: Box<PlanView<T>>, body: Box<PlanView<T>> },
    /// Binds each of `values` to the `id` at its position.
    LetRec {
        ids: Vec<LocalId>,
        values: Seq<PlanView<T>>,
        limits: Vec<Option<LetRecLimit>>,
        body: Box<PlanView<T>>,
    },
    /// Maps, filters and projects the rows of `input`.
    Mfp {
        input: Box<PlanView<T>>,
        mfp: MapFilterProject,
        input_key_val: Option<(Vec<MirScalarExpr>, Option<Row>)>,
    },
    /// Replaces each row of `input` by the rows of a table function.
    FlatMap {
        input: Box<PlanView<T>>,
        func: TableFunc,
        exprs: Vec<MirScalarExpr>,
        mfp_after: MapFilterProject,
        input_key: Option<Vec<MirScalarExpr>>,
    },
    /// Joins the `inputs`.
    Join { inputs: Seq<PlanView<T>>, plan: JoinPlan },
    /// Groups the rows of `input` and aggregates each group.
    Reduce {
        input: Box<PlanView<T>>,
        key_val_plan: KeyValPlan,
        plan: ReducePlan,
        input_key: Option<Vec<MirScalarExpr>>,
        mfp_after: MapFilterProject,
    },
    /// Keeps the first rows of each group of `input`.
    TopK { input: Box<PlanView<T>>, top_k_plan: TopKPlan },
    /// Negates the multiplicity of each row of `input`.
    Negate { input: Box<PlanView<T>> },
    /// Holds back the rows of `input` whose multiplicity is not positive.
    Threshold { input: Box<PlanView<T>>, threshold_plan: ThresholdPlan },
    /// The rows of all `inputs` together.
    Union { inputs: Seq<PlanView<T>>, consolidate_output: bool },
    /// Arranges `input` in the given forms.
    ArrangeBy {
        input: Box<PlanView<T>>,
        forms: AvailableCollections,
        input_key: Option<Vec<MirScalarExpr>>,
        input_mfp: MapFilterProject,
    },
}

/// A plan as a mathematical value.
pub struct PlanView<T> {
    /// The operator at the root of the plan.
    pub node: PlanNodeView<T>,
    /// The number by which the operator is known.
    pub lir_id: u64,
}

/// The values of a sequence of plans.
pub open spec fn spec_views<T>(plans: Seq<Plan<T>>) -> Seq<PlanView<T>>
    decreases plans,
{
    Seq::new(
        plans.len(),
        |i: int|
            if 0 <= i < plans.len() {
                plans[i].spec_value()
            } else {
                arbitrary()
            },
    )
}

impl<T> View for Plan<T> {
    type V = PlanView<T>;

    open spec fn view(&self) -> PlanView<T> {
        self.spec_value()
    }
}

impl<T> Plan<T> {
    /// The plan as a mathematical value.
    pub open spec fn spec_value(&self) -> PlanView<T>
        decreases self,
    {
        PlanView {
            node: match self.node {
                PlanNode::Constant { rows } => PlanNodeView::Constant { rows },
                PlanNode::Get { id, keys, plan } => PlanNodeView::Get { id, keys, plan },
                PlanNode::Let { id, value, body } => PlanNodeView::Let {
                    id,
                    value: Box::new(value.spec_value()),
                    body: Box::new(body.spec_value()),
                },
                PlanNode::LetRec { ids, values, limits, body } => PlanNodeView::LetRec {
                    ids,
                    values: spec_views(values@),
                    limits,
                    body: Box::new(body.spec_value()),
                },
                PlanNode::Mfp { input, mfp, input_key_val } => PlanNodeView::Mfp {
                    input: Box::new(input.spec_value()),
                    mfp,
                    input_key_val,
                },
                PlanNode::FlatMap { input, func, exprs, mfp_after, input_key } => PlanNodeView::FlatMap {
                    input: Box::new(input.spec_value()),
                    func,
                    exprs,
                    mfp_after,
                    input_key,
                },
                PlanNode::Join { inputs, plan } => PlanNodeView::Join {
                    inputs: spec_views(inputs@),
                    plan,
                },
                PlanNode::Reduce { input, key_val_plan, plan, input_key, mfp_after } => PlanNodeView::Reduce {
                    input: Box::new(input.spec_value()),
                    key_val_plan,
                    plan,
                    input_key,
                    mfp_after,
                },
                PlanNode::TopK { input, top_k_plan } => PlanNodeView::TopK {
                    input: Box::new(input.spec_value()),
                    top_k_plan,
                },
                PlanNode::Negate { input } => PlanNodeView::Negate { input: Box::new(input.spec_value()) },
                PlanNode::Threshold { input, threshold_plan } => PlanNodeView::Threshold {
                    input: Box::new(input.spec_value()),
                    threshold_plan,
                },
                PlanNode::Union { inputs, consolidate_output } => PlanNodeView::Union {
                    inputs: spec_views(inputs@),
                    consolidate_output,
                },
                PlanNode::ArrangeBy { input, forms, input_key, input_mfp } => PlanNodeView::ArrangeBy {
                    input: Box::new(input.spec_value()),
                    forms,
                    input_key,
                    input_mfp,
                },
            },
            lir_id: self.lir_id,
        }
    }
}

} // verus!

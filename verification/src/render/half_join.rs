//! The half-join: one stage of a delta path.
//!
//! A half-join takes a stream of updates and one arranged relation. It
//! gives each update of the stream a key, finds the updates of the
//! arrangement with that key whose time the tie-break admits, and hands
//! each such pair to the closure of the stage. The pair's time is the later
//! of the two times, and its multiplicity is the product of the two
//! multiplicities. The initial time of the stream update is handed on as it
//! is.
//!
//! In a running dataflow a half-join is an operator on streams. The
//! functions [`half_join`] and [`build_halfjoin`] of this module say what
//! the stage makes of a finished stream and a finished arrangement: they
//! are the model that the laws of the delta join are proved of. The model
//! hands on one entry for each update of the arrangement that is met; an
//! operator may add up what it hands on for one row at one time, and may
//! spread its work over several turns. The functions [`prepare_key`] and
//! [`join_match`] are what an operator calls for each update and for each
//! pair.
use vstd::prelude::*;
use crate::expr::error::{DataflowError, EvalError};
use crate::expr::linear::{spec_outcome, Outcome};
use crate::expr::scalar::MirScalarExpr;
use crate::plan::join::JoinClosure;
use crate::render::context::{
    spec_arranged, spec_stream, ArrangedUpdate, ArrangedView, ErrUpdate, ShutdownProbe,
    StreamUpdate, StreamView,
};
use crate::repr::datum::{Datum, Diff, Timestamp};
use crate::repr::datum_vec::DatumVec;
use crate::repr::row::Row;

verus! {

/// The comparison that decides which updates of the lookup relation an
/// update of the stream is matched with.
#[derive(Clone, Copy, Debug, PartialEq, Eq, Structural)]
pub enum TimeComparison {
    /// The lookup update is at or before the stream update.
    LessEqual,
    /// The lookup update is strictly before the stream update.
    LessThan,
}

impl TimeComparison {
    /// Whether the comparison holds between the time of a lookup update and
    /// the initial time of a stream update.
    pub open spec fn spec_holds(self, lookup: Timestamp, initial: Timestamp) -> bool {
        match self {
            TimeComparison::LessEqual => lookup <= initial,
            TimeComparison::LessThan => lookup < initial,
        }
    }

    /// Decides the comparison between the time of a lookup update and the
    /// initial time of a stream update.
    pub fn holds(self, lookup: &Timestamp, initial: &Timestamp) -> (b: bool)
        ensures
            b == self.spec_holds(*lookup, *initial),
    {
        match self {
            TimeComparison::LessEqual => *lookup <= *initial,
            TimeComparison::LessThan => *lookup < *initial,
        }
    }

    /// The comparison of the stage in which the path of relation `source`
    /// looks up relation `lookup`: updates at the same time count as
    /// earlier where they are of a relation that comes earlier.
    pub open spec fn spec_between(source: usize, lookup: usize) -> TimeComparison {
        if source < lookup {
            TimeComparison::LessEqual
        } else {
            TimeComparison::LessThan
        }
    }

    /// Picks the comparison of the stage in which the path of relation
    /// `source` looks up relation `lookup`.
    pub fn between(source: usize, lookup: usize) -> (c: TimeComparison)
        ensures
            c == Self::spec_between(source, lookup),
    {
        if source < lookup {
            TimeComparison::LessEqual
        } else {
            TimeComparison::LessThan
        }
    }
}

/// An update of the stream with its key: the key, the columns kept beside
/// it, and the time; then the initial time and the multiplicity.
pub type Prepared = ((Row, Row, Timestamp), Timestamp, Diff);

/// A prepared update as a mathematical value.
pub type PreparedView = ((Seq<Datum>, Seq<Datum>, Timestamp), Timestamp, Diff);

/// What a half-join hands on for one matched pair before failures are told
/// from rows: what the closure made of the pair, the time of the pair, the
/// initial time and the multiplicity.
pub type Matched = ((Result<Option<Row>, EvalError>, Timestamp), Timestamp, Diff);

/// A matched pair as a mathematical value.
pub type MatchedView = ((Outcome, Timestamp), Timestamp, Diff);

/// The values of a sequence of prepared updates.
pub open spec fn spec_prepared_views(updates: Seq<Prepared>) -> Seq<PreparedView> {
    Seq::new(
        updates.len(),
        |i: int|
            (
                ((updates[i].0).0@, (updates[i].0).1@, (updates[i].0).2),
                updates[i].1,
                updates[i].2,
            ),
    )
}

/// The values of a sequence of matched pairs.
pub open spec fn spec_matched_views(matched: Seq<Matched>) -> Seq<MatchedView> {
    Seq::new(
        matched.len(),
        |i: int| ((spec_outcome((matched[i].0).0), (matched[i].0).1), matched[i].1, matched[i].2),
    )
}

/// The later of two times: their least upper bound.
pub open spec fn spec_later(a: Timestamp, b: Timestamp) -> Timestamp {
    if a <= b {
        b
    } else {
        a
    }
}

/// The values of the expressions from position `i` on, appended to `done`
/// in order, or the first failure among them.
pub open spec fn spec_key_from(
    exprs: Seq<MirScalarExpr>,
    datums: Seq<Datum>,
    i: int,
    done: Seq<Datum>,
) -> Result<Seq<Datum>, EvalError>
    decreases exprs.len() - i,
{
    if 0 <= i < exprs.len() {
        match exprs[i].spec_eval(datums) {
            Ok(d) => spec_key_from(exprs, datums, i + 1, done.push(d)),
            Err(e) => Err(e),
        }
    } else {
        Ok(done)
    }
}

/// The key that the expressions give a row with the datums `datums`, or
/// the first failure among the expressions.
pub open spec fn spec_key(exprs: Seq<MirScalarExpr>, datums: Seq<Datum>) -> Result<
    Seq<Datum>,
    EvalError,
> {
    spec_key_from(exprs, datums, 0, Seq::empty())
}

/// Whether every column of `thinning` is a column of `datums`.
pub open spec fn spec_thinnable(thinning: Seq<usize>, datums: Seq<Datum>) -> bool {
    forall|k: int| 0 <= k < thinning.len() ==> (#[trigger] thinning[k]) < datums.len()
}

/// The datums in the columns of `thinning`, in order.
pub open spec fn spec_thin(thinning: Seq<usize>, datums: Seq<Datum>) -> Seq<Datum> {
    Seq::new(thinning.len(), |k: int| datums[thinning[k] as int])
}

/// What the preparation of the key makes of one update of the stream: the
/// update with its key and the columns kept, or the failure of a key
/// expression.
pub open spec fn spec_prepare(
    update: StreamView,
    prev_key: Seq<MirScalarExpr>,
    prev_thinning: Seq<usize>,
) -> Result<PreparedView, EvalError> {
    match spec_key(prev_key, (update.0).0) {
        Ok(key) => Ok(
            ((key, spec_thin(prev_thinning, (update.0).0), (update.0).1), update.1, update.2),
        ),
        Err(e) => Err(e),
    }
}

/// Gives one row of the stream its key.
///
/// The key expressions are evaluated in order on the row; the first that
/// fails is the failure of the row. The columns of `prev_thinning` are kept
/// beside the key.
pub fn prepare_key(
    datums: &mut DatumVec,
    row: &Row,
    time: Timestamp,
    prev_key: &Vec<MirScalarExpr>,
    prev_thinning: &Vec<usize>,
) -> (r: Result<(Row, Row, Timestamp), EvalError>)
    requires
        spec_thinnable(prev_thinning@, row@),
    ensures
        match spec_key(prev_key@, row@) {
            Ok(key) => r is Ok && (r->Ok_0).0@ == key && (r->Ok_0).1@ == spec_thin(
                prev_thinning@,
                row@,
            ) && (r->Ok_0).2 == time,
            Err(e) => r == Err::<(Row, Row, Timestamp), EvalError>(e),
        },
{
    let datums_local = datums.borrow_with(row);
    let mut key: Vec<Datum> = Vec::new();
    let mut i: usize = 0;
    while i < prev_key.len()
        invariant
            i <= prev_key.len(),
            datums_local@ == row@,
            spec_key_from(prev_key@, row@, i as int, key@) == spec_key(prev_key@, row@),
        decreases prev_key.len() - i,
    {
        match prev_key[i].eval(datums_local.as_slice()) {
            Ok(d) => {
                key.push(d);
            },
            Err(e) => {
                return Err(e);
            },
        }
        i = i + 1;
    }
    let mut kept: Vec<Datum> = Vec::new();
    let mut k: usize = 0;
    while k < prev_thinning.len()
        invariant
            k <= prev_thinning.len(),
            datums_local@ == row@,
            spec_thinnable(prev_thinning@, row@),
            kept@.len() == k,
            forall|j: int| 0 <= j < k ==> kept@[j] == row@[prev_thinning@[j] as int],
        decreases prev_thinning.len() - k,
    {
        let c = prev_thinning[k];
        kept.push(datums_local[c]);
        k = k + 1;
    }
    proof {
        assert(kept@ =~= spec_thin(prev_thinning@, row@));
    }
    Ok((Row::pack(key), Row::pack(kept), time))
}

/// Whether the product of two multiplicities is a multiplicity.
pub open spec fn spec_product_fits(diff1: Diff, diff2: Diff) -> bool {
    i64::MIN <= diff1 * diff2 <= i64::MAX
}

/// What the closure of a stage makes of one matched pair, at the time
/// `time` of the pair: nothing at all where the dataflow is shutting down,
/// else what the closure makes of the key, the columns kept of the stream
/// and the columns of the lookup row, in this order, with the product of
/// the multiplicities.
pub open spec fn spec_join_match(
    closure: &JoinClosure,
    alive: bool,
    key: Seq<Datum>,
    stream_row: Seq<Datum>,
    lookup_row: Seq<Datum>,
    initial: Timestamp,
    time: Timestamp,
    diff1: Diff,
    diff2: Diff,
) -> Option<MatchedView> {
    if alive {
        Some(
            (
                (closure.spec_apply(key + stream_row + lookup_row), time),
                initial,
                (diff1 * diff2) as Diff,
            ),
        )
    } else {
        None
    }
}

/// Handles one matched pair of a half-join.
///
/// The probe is asked first: where the dataflow is shutting down the pair
/// is dropped. Else the closure of the stage is applied to the key, the
/// columns kept of the stream and the columns of the lookup row, and the
/// multiplicities are multiplied.
pub fn join_match(
    datums: &mut DatumVec,
    closure: &JoinClosure,
    shutdown_probe: &ShutdownProbe,
    key: &Row,
    stream_row: &Row,
    lookup_row: &Row,
    initial: Timestamp,
    time: Timestamp,
    diff1: Diff,
    diff2: Diff,
) -> (r: Option<Matched>)
    requires
        !shutdown_probe.in_shutdown() ==> spec_product_fits(diff1, diff2),
    ensures
        match spec_join_match(
            closure,
            !shutdown_probe.in_shutdown(),
            key@,
            stream_row@,
            lookup_row@,
            initial,
            time,
            diff1,
            diff2,
        ) {
            None => r is None,
            Some(m) => r is Some && (
                (spec_outcome((r->Some_0.0).0), (r->Some_0.0).1),
                r->Some_0.1,
                r->Some_0.2,
            ) == m,
        },
{
    // Check the shutdown token to avoid doing unnecessary work when the
    // dataflow is shutting down.
    match shutdown_probe.probe() {
        None => {
            return None;
        },
        Some(()) => {},
    }
    let mut datums_local = datums.borrow();
    extend_with(&mut datums_local, key);
    extend_with(&mut datums_local, stream_row);
    extend_with(&mut datums_local, lookup_row);
    let row = closure.apply(&mut datums_local);
    let diff = diff1 * diff2;
    Some(((row, time), initial, diff))
}

/// Appends the datums of `row` to `datums`.
pub fn extend_with(datums: &mut Vec<Datum>, row: &Row)
    ensures
        final(datums)@ == old(datums)@ + row@,
{
    let n = row.len();
    let mut i: usize = 0;
    while i < n
        invariant
            n == row@.len(),
            i <= n,
            datums@ == old(datums)@ + row@.take(i as int),
        decreases n - i,
    {
        datums.push(row.datum(i));
        proof {
            assert(row@.take(i as int + 1) =~= row@.take(i as int).push(row@[i as int]));
            assert(old(datums)@ + row@.take(i as int + 1) =~= (old(datums)@ + row@.take(
                i as int,
            )).push(row@[i as int]));
        }
        i = i + 1;
    }
    proof {
        assert(row@.take(n as int) =~= row@);
    }
}

/// Whether the half-join pairs a prepared update of the stream with an
/// update of the arrangement: the keys are the same, and the comparison
/// holds between the time of the arranged update and the initial time of
/// the stream update.
pub open spec fn spec_pairs(tie: TimeComparison, p: PreparedView, a: ArrangedView) -> bool {
    a.0 == (p.0).0 && tie.spec_holds(a.2, p.1)
}

/// What the half-join hands on for one update of the stream and one update
/// of the arrangement.
pub open spec fn spec_pair(
    closure: &JoinClosure,
    tie: TimeComparison,
    alive: bool,
    p: PreparedView,
    a: ArrangedView,
) -> Option<MatchedView> {
    if spec_pairs(tie, p, a) {
        spec_join_match(
            closure,
            alive,
            (p.0).0,
            (p.0).1,
            a.1,
            p.1,
            spec_later(a.2, (p.0).2),
            p.2,
            a.3,
        )
    } else {
        None
    }
}

/// What the half-join hands on for one update of the stream: one entry for
/// each update of the arrangement that it is paired with, in the order of
/// the arrangement.
pub open spec fn spec_matches(
    closure: &JoinClosure,
    tie: TimeComparison,
    alive: bool,
    p: PreparedView,
    arranged: Seq<ArrangedView>,
) -> Seq<MatchedView>
    decreases arranged.len(),
{
    if arranged.len() == 0 {
        Seq::empty()
    } else {
        let rest = spec_matches(closure, tie, alive, p, arranged.drop_last());
        match spec_pair(closure, tie, alive, p, arranged.last()) {
            Some(m) => rest.push(m),
            None => rest,
        }
    }
}

/// What the half-join hands on for a stream: what it hands on for each
/// update of the stream, in the order of the stream.
pub open spec fn spec_half_join(
    closure: &JoinClosure,
    tie: TimeComparison,
    alive: bool,
    prepared: Seq<PreparedView>,
    arranged: Seq<ArrangedView>,
) -> Seq<MatchedView>
    decreases prepared.len(),
{
    if prepared.len() == 0 {
        Seq::empty()
    } else {
        spec_half_join(closure, tie, alive, prepared.drop_last(), arranged) + spec_matches(
            closure,
            tie,
            alive,
            prepared.last(),
            arranged,
        )
    }
}

/// Whether the multiplicities of every pair that the half-join makes have a
/// product that is a multiplicity.
pub open spec fn spec_products_fit(
    tie: TimeComparison,
    prepared: Seq<PreparedView>,
    arranged: Seq<ArrangedView>,
) -> bool {
    forall|i: int, j: int|
        0 <= i < prepared.len() && 0 <= j < arranged.len() && spec_pairs(
            tie,
            #[trigger] prepared[i],
            #[trigger] arranged[j],
        ) ==> spec_product_fits(prepared[i].2, arranged[j].3)
}

/// The half-join of a stream of prepared updates with an arrangement.
///
/// Every update of the stream is paired with every update of the
/// arrangement that has its key and a time that the comparison admits, and
/// each pair is handed to [`join_match`] at the later of the two times.
pub fn half_join(
    prepared: &Vec<Prepared>,
    trace: &Vec<ArrangedUpdate>,
    comparison: TimeComparison,
    closure: &JoinClosure,
    shutdown_probe: &ShutdownProbe,
) -> (matched: Vec<Matched>)
    requires
        !shutdown_probe.in_shutdown() ==> spec_products_fit(
            comparison,
            spec_prepared_views(prepared@),
            spec_arranged(trace@),
        ),
    ensures
        spec_matched_views(matched@) == spec_half_join(
            closure,
            comparison,
            !shutdown_probe.in_shutdown(),
            spec_prepared_views(prepared@),
            spec_arranged(trace@),
        ),
{
    let ghost alive = !shutdown_probe.in_shutdown();
    let ghost pv = spec_prepared_views(prepared@);
    let ghost av = spec_arranged(trace@);
    let mut datums = DatumVec::new();
    let mut matched: Vec<Matched> = Vec::new();
    let mut i: usize = 0;
    while i < prepared.len()
        invariant
            i <= prepared.len(),
            alive == !shutdown_probe.in_shutdown(),
            pv == spec_prepared_views(prepared@),
            av == spec_arranged(trace@),
            alive ==> spec_products_fit(comparison, pv, av),
            spec_matched_views(matched@) == spec_half_join(
                closure,
                comparison,
                alive,
                pv.take(i as int),
                av,
            ),
        decreases prepared.len() - i,
    {
        let ghost before = spec_matched_views(matched@);
        let ((key, stream_row, time), initial, diff1) = &prepared[i];
        let mut j: usize = 0;
        while j < trace.len()
            invariant
                j <= trace.len(),
                i < prepared.len(),
                alive == !shutdown_probe.in_shutdown(),
                pv == spec_prepared_views(prepared@),
                av == spec_arranged(trace@),
                alive ==> spec_products_fit(comparison, pv, av),
                prepared@[i as int] == ((*key, *stream_row, *time), *initial, *diff1),
                spec_matched_views(matched@) == before + spec_matches(
                    closure,
                    comparison,
                    alive,
                    pv[i as int],
                    av.take(j as int),
                ),
            decreases trace.len() - j,
        {
            let (key2, lookup_row, time2, diff2) = &trace[j];
            proof {
                assert(av.take(j as int + 1).drop_last() =~= av.take(j as int));
                assert(av.take(j as int + 1).last() == av[j as int]);
                assert(pv[i as int] == ((key@, stream_row@, *time), *initial, *diff1));
                assert(av[j as int] == (key2@, lookup_row@, *time2, *diff2));
            }
            if key2.same(key) && comparison.holds(time2, initial) {
                let joined = if *time2 <= *time {
                    *time
                } else {
                    *time2
                };
                let ghost old_matched = matched@;
                match join_match(
                    &mut datums,
                    closure,
                    shutdown_probe,
                    key,
                    stream_row,
                    lookup_row,
                    *initial,
                    joined,
                    *diff1,
                    *diff2,
                ) {
                    Some(m) => {
                        matched.push(m);
                        proof {
                            let mv = (
                                (spec_outcome((m.0).0), (m.0).1),
                                m.1,
                                m.2,
                            );
                            assert(spec_matched_views(matched@) =~= spec_matched_views(
                                old_matched,
                            ).push(mv));
                            assert(before + spec_matches(
                                closure,
                                comparison,
                                alive,
                                pv[i as int],
                                av.take(j as int),
                            ).push(mv) =~= (before + spec_matches(
                                closure,
                                comparison,
                                alive,
                                pv[i as int],
                                av.take(j as int),
                            )).push(mv));
                        }
                    },
                    None => {},
                }
            }
            j = j + 1;
        }
        proof {
            assert(av.take(trace@.len() as int) =~= av);
            assert(pv.take(i as int + 1).drop_last() =~= pv.take(i as int));
            assert(pv.take(i as int + 1).last() == pv[i as int]);
        }
        i = i + 1;
    }
    proof {
        assert(pv.take(prepared@.len() as int) =~= pv);
    }
    matched
}

/// The updates of a stream that get a key, each with its key, in the order
/// of the stream.
pub open spec fn spec_prepared(
    updates: Seq<StreamView>,
    prev_key: Seq<MirScalarExpr>,
    prev_thinning: Seq<usize>,
) -> Seq<PreparedView>
    decreases updates.len(),
{
    if updates.len() == 0 {
        Seq::empty()
    } else {
        let rest = spec_prepared(updates.drop_last(), prev_key, prev_thinning);
        match spec_prepare(updates.last(), prev_key, prev_thinning) {
            Ok(p) => rest.push(p),
            Err(_) => rest,
        }
    }
}

/// The failures of the key expressions on a stream: one for each update
/// that gets no key, at the initial time of the update and with its
/// multiplicity, in the order of the stream.
pub open spec fn spec_key_errs(updates: Seq<StreamView>, prev_key: Seq<MirScalarExpr>) -> Seq<
    ErrUpdate,
>
    decreases updates.len(),
{
    if updates.len() == 0 {
        Seq::empty()
    } else {
        let rest = spec_key_errs(updates.drop_last(), prev_key);
        match spec_key(prev_key, (updates.last().0).0) {
            Ok(_) => rest,
            Err(e) => rest.push((DataflowError::EvalError(e), updates.last().1, updates.last().2)),
        }
    }
}

/// The rows among what a half-join hands on, in order.
pub open spec fn spec_oks_of(matched: Seq<MatchedView>) -> Seq<StreamView>
    decreases matched.len(),
{
    if matched.len() == 0 {
        Seq::empty()
    } else {
        let rest = spec_oks_of(matched.drop_last());
        let m = matched.last();
        match (m.0).0 {
            Ok(Some(row)) => rest.push(((row, (m.0).1), m.1, m.2)),
            _ => rest,
        }
    }
}

/// The failures among what a half-join hands on, in order: each at the
/// initial time of its stream update and with the multiplicity of its
/// pair.
pub open spec fn spec_errs_of(matched: Seq<MatchedView>) -> Seq<ErrUpdate>
    decreases matched.len(),
{
    if matched.len() == 0 {
        Seq::empty()
    } else {
        let rest = spec_errs_of(matched.drop_last());
        let m = matched.last();
        match (m.0).0 {
            Err(e) => rest.push((DataflowError::EvalError(e), m.1, m.2)),
            _ => rest,
        }
    }
}

/// Whether the closure failed on none of the pairs.
pub open spec fn spec_never_fails(matched: Seq<MatchedView>) -> bool {
    forall|i: int| 0 <= i < matched.len() ==> ((#[trigger] matched[i]).0).0 is Ok
}

/// What a stage hands on for a stream before failures are told from rows.
pub open spec fn spec_stage_matched(
    updates: Seq<StreamView>,
    arranged: Seq<ArrangedView>,
    prev_key: Seq<MirScalarExpr>,
    prev_thinning: Seq<usize>,
    tie: TimeComparison,
    closure: &JoinClosure,
    alive: bool,
) -> Seq<MatchedView> {
    spec_half_join(closure, tie, alive, spec_prepared(updates, prev_key, prev_thinning), arranged)
}

/// The stream that comes out of a stage.
pub open spec fn spec_stage_oks(
    updates: Seq<StreamView>,
    arranged: Seq<ArrangedView>,
    prev_key: Seq<MirScalarExpr>,
    prev_thinning: Seq<usize>,
    tie: TimeComparison,
    closure: &JoinClosure,
    alive: bool,
) -> Seq<StreamView> {
    spec_oks_of(spec_stage_matched(updates, arranged, prev_key, prev_thinning, tie, closure, alive))
}

/// The failures that a stage brings to light: those of the key expressions
/// first, then those of the closure.
pub open spec fn spec_stage_errs(
    updates: Seq<StreamView>,
    arranged: Seq<ArrangedView>,
    prev_key: Seq<MirScalarExpr>,
    prev_thinning: Seq<usize>,
    tie: TimeComparison,
    closure: &JoinClosure,
    alive: bool,
) -> Seq<ErrUpdate> {
    spec_key_errs(updates, prev_key) + spec_errs_of(
        spec_stage_matched(updates, arranged, prev_key, prev_thinning, tie, closure, alive),
    )
}

/// Whether a stage can run on a stream: every row of the stream has the
/// columns that the stage keeps; and, unless the dataflow is shutting down,
/// the multiplicities of each pair have a product that is a multiplicity,
/// and a closure that says it cannot fail fails on none of the pairs.
pub open spec fn spec_stage_ready(
    updates: Seq<StreamView>,
    arranged: Seq<ArrangedView>,
    prev_key: Seq<MirScalarExpr>,
    prev_thinning: Seq<usize>,
    tie: TimeComparison,
    closure: &JoinClosure,
    alive: bool,
) -> bool {
    &&& forall|i: int|
        0 <= i < updates.len() ==> spec_thinnable(prev_thinning, ((#[trigger] updates[i]).0).0)
    &&& alive ==> spec_products_fit(
        tie,
        spec_prepared(updates, prev_key, prev_thinning),
        arranged,
    )
    &&& alive && !closure.spec_could_error() ==> spec_never_fails(
        spec_stage_matched(updates, arranged, prev_key, prev_thinning, tie, closure, alive),
    )
}

/// Tells the rows from the failures among what a half-join handed on.
pub fn split_ok_err(matched: &Vec<Matched>) -> (out: (Vec<StreamUpdate>, Vec<ErrUpdate>))
    ensures
        spec_stream(out.0@) == spec_oks_of(spec_matched_views(matched@)),
        out.1@ == spec_errs_of(spec_matched_views(matched@)),
{
    let ghost mv = spec_matched_views(matched@);
    let mut oks: Vec<StreamUpdate> = Vec::new();
    let mut errs: Vec<ErrUpdate> = Vec::new();
    let mut i: usize = 0;
    while i < matched.len()
        invariant
            i <= matched.len(),
            mv == spec_matched_views(matched@),
            spec_stream(oks@) == spec_oks_of(mv.take(i as int)),
            errs@ == spec_errs_of(mv.take(i as int)),
        decreases matched.len() - i,
    {
        proof {
            assert(mv.take(i as int + 1).drop_last() =~= mv.take(i as int));
            assert(mv.take(i as int + 1).last() == mv[i as int]);
        }
        let ((data, time), init_time, diff) = &matched[i];
        match data {
            Ok(Some(row)) => {
                let ghost old_oks = oks@;
                oks.push(((row.clone(), *time), *init_time, *diff));
                proof {
                    assert(spec_stream(oks@) =~= spec_stream(old_oks).push(
                        ((row@, *time), *init_time, *diff),
                    ));
                }
            },
            Ok(None) => {},
            Err(err) => {
                errs.push((DataflowError::from(*err), *init_time, *diff));
            },
        }
        i = i + 1;
    }
    proof {
        assert(mv.take(matched@.len() as int) =~= mv);
    }
    (oks, errs)
}

/// Gives each update of a stream its key. The updates whose key
/// expressions evaluate come out with their keys, in order; each of the
/// others comes out as one failure, at its initial time and with its
/// multiplicity.
pub fn prepare_keys(
    updates: &Vec<StreamUpdate>,
    prev_key: &Vec<MirScalarExpr>,
    prev_thinning: &Vec<usize>,
) -> (out: (Vec<Prepared>, Vec<ErrUpdate>))
    requires
        forall|i: int|
            0 <= i < updates@.len() ==> spec_thinnable(
                prev_thinning@,
                ((#[trigger] spec_stream(updates@)[i]).0).0,
            ),
    ensures
        spec_prepared_views(out.0@) == spec_prepared(
            spec_stream(updates@),
            prev_key@,
            prev_thinning@,
        ),
        out.1@ == spec_key_errs(spec_stream(updates@), prev_key@),
{
    let ghost uv = spec_stream(updates@);
    let mut datums = DatumVec::new();
    let mut prepared: Vec<Prepared> = Vec::new();
    let mut errs: Vec<ErrUpdate> = Vec::new();
    let mut i: usize = 0;
    while i < updates.len()
        invariant
            i <= updates.len(),
            uv == spec_stream(updates@),
            forall|i: int|
                0 <= i < uv.len() ==> spec_thinnable(prev_thinning@, ((#[trigger] uv[i]).0).0),
            spec_prepared_views(prepared@) == spec_prepared(
                uv.take(i as int),
                prev_key@,
                prev_thinning@,
            ),
            errs@ == spec_key_errs(uv.take(i as int), prev_key@),
        decreases updates.len() - i,
    {
        proof {
            assert(uv.take(i as int + 1).drop_last() =~= uv.take(i as int));
            assert(uv.take(i as int + 1).last() == uv[i as int]);
        }
        let ((row, time), initial, diff) = &updates[i];
        assert(uv[i as int] == ((row@, *time), *initial, *diff));
        match prepare_key(&mut datums, row, *time, prev_key, prev_thinning) {
            Ok(keyed) => {
                let ghost old_prepared = prepared@;
                let ghost kv = (((keyed.0)@, (keyed.1)@, keyed.2), *initial, *diff);
                prepared.push((keyed, *initial, *diff));
                proof {
                    assert(spec_prepared_views(prepared@) =~= spec_prepared_views(
                        old_prepared,
                    ).push(kv));
                }
            },
            Err(e) => {
                errs.push((DataflowError::from(e), *initial, *diff));
            },
        }
        i = i + 1;
    }
    proof {
        assert(uv.take(updates@.len() as int) =~= uv);
    }
    (prepared, errs)
}

/// The rows among what a half-join handed on, where the closure failed on
/// no pair.
pub fn rows_of(matched: &Vec<Matched>) -> (oks: Vec<StreamUpdate>)
    requires
        spec_never_fails(spec_matched_views(matched@)),
    ensures
        spec_stream(oks@) == spec_oks_of(spec_matched_views(matched@)),
{
    let ghost mv = spec_matched_views(matched@);
    let mut oks: Vec<StreamUpdate> = Vec::new();
    let mut i: usize = 0;
    while i < matched.len()
        invariant
            i <= matched.len(),
            mv == spec_matched_views(matched@),
            spec_never_fails(mv),
            spec_stream(oks@) == spec_oks_of(mv.take(i as int)),
        decreases matched.len() - i,
    {
        proof {
            assert(mv.take(i as int + 1).drop_last() =~= mv.take(i as int));
            assert(mv.take(i as int + 1).last() == mv[i as int]);
            assert((mv[i as int].0).0 is Ok);
        }
        let ((data, time), init_time, diff) = &matched[i];
        match data {
            Ok(Some(row)) => {
                let ghost old_oks = oks@;
                oks.push(((row.clone(), *time), *init_time, *diff));
                proof {
                    assert(spec_stream(oks@) =~= spec_stream(old_oks).push(
                        ((row@, *time), *init_time, *diff),
                    ));
                }
            },
            Ok(None) => {},
            Err(_) => {
                // The closure said that it cannot fail.
                assert(false);
            },
        }
        i = i + 1;
    }
    proof {
        assert(mv.take(matched@.len() as int) =~= mv);
    }
    oks
}

/// Reports whether every row of the stream has the columns `thinning`.
pub fn all_thinnable(updates: &Vec<StreamUpdate>, thinning: &Vec<usize>) -> (b: bool)
    ensures
        b == (forall|i: int|
            0 <= i < updates@.len() ==> spec_thinnable(
                thinning@,
                ((#[trigger] spec_stream(updates@)[i]).0).0,
            )),
{
    let ghost uv = spec_stream(updates@);
    let mut i: usize = 0;
    while i < updates.len()
        invariant
            i <= updates.len(),
            uv == spec_stream(updates@),
            forall|j: int| 0 <= j < i ==> spec_thinnable(thinning@, ((#[trigger] uv[j]).0).0),
        decreases updates.len() - i,
    {
        let ((row, _), _, _) = &updates[i];
        assert((uv[i as int].0).0 == row@);
        let mut k: usize = 0;
        while k < thinning.len()
            invariant
                k <= thinning.len(),
                i < updates.len(),
                uv == spec_stream(updates@),
                (uv[i as int].0).0 == row@,
                forall|j: int| 0 <= j < k ==> (#[trigger] thinning@[j]) < row@.len(),
            decreases thinning.len() - k,
        {
            if thinning[k] >= row.len() {
                assert(!spec_thinnable(thinning@, (uv[i as int].0).0));
                return false;
            }
            k = k + 1;
        }
        i = i + 1;
    }
    true
}

/// Reports whether the multiplicities of every pair that the half-join
/// makes have a product that is a multiplicity.
pub fn products_fit(
    prepared: &Vec<Prepared>,
    trace: &Vec<ArrangedUpdate>,
    comparison: TimeComparison,
) -> (b: bool)
    ensures
        b == spec_products_fit(comparison, spec_prepared_views(prepared@), spec_arranged(trace@)),
{
    let ghost pv = spec_prepared_views(prepared@);
    let ghost av = spec_arranged(trace@);
    let mut i: usize = 0;
    while i < prepared.len()
        invariant
            i <= prepared.len(),
            pv == spec_prepared_views(prepared@),
            av == spec_arranged(trace@),
            forall|x: int, y: int|
                0 <= x < i && 0 <= y < av.len() && spec_pairs(
                    comparison,
                    #[trigger] pv[x],
                    #[trigger] av[y],
                ) ==> spec_product_fits(pv[x].2, av[y].3),
        decreases prepared.len() - i,
    {
        let ((key, _, _), initial, diff1) = &prepared[i];
        assert((pv[i as int].0).0 == key@ && pv[i as int].1 == *initial && pv[i as int].2
            == *diff1);
        let mut j: usize = 0;
        while j < trace.len()
            invariant
                j <= trace.len(),
                i < prepared.len(),
                pv == spec_prepared_views(prepared@),
                av == spec_arranged(trace@),
                (pv[i as int].0).0 == key@ && pv[i as int].1 == *initial && pv[i as int].2
                    == *diff1,
                forall|y: int|
                    0 <= y < j && spec_pairs(comparison, pv[i as int], #[trigger] av[y])
                        ==> spec_product_fits(pv[i as int].2, av[y].3),
            decreases trace.len() - j,
        {
            let (key2, _, time2, diff2) = &trace[j];
            assert(av[j as int].0 == key2@ && av[j as int].2 == *time2 && av[j as int].3
                == *diff2);
            if key2.same(key) && comparison.holds(time2, initial) {
                if diff1.checked_mul(*diff2).is_none() {
                    assert(spec_pairs(comparison, pv[i as int], av[j as int]));
                    assert(!spec_product_fits(pv[i as int].2, av[j as int].3));
                    return false;
                }
            }
            j = j + 1;
        }
        i = i + 1;
    }
    true
}

/// Reports whether the closure failed on none of the pairs.
pub fn never_fails(matched: &Vec<Matched>) -> (b: bool)
    ensures
        b == spec_never_fails(spec_matched_views(matched@)),
{
    let ghost mv = spec_matched_views(matched@);
    let mut i: usize = 0;
    while i < matched.len()
        invariant
            i <= matched.len(),
            mv == spec_matched_views(matched@),
            forall|j: int| 0 <= j < i ==> ((#[trigger] mv[j]).0).0 is Ok,
        decreases matched.len() - i,
    {
        let ((data, _), _, _) = &matched[i];
        assert((mv[i as int].0).0 == spec_outcome(*data));
        if data.is_err() {
            assert(!((mv[i as int].0).0 is Ok));
            return false;
        }
        i = i + 1;
    }
    true
}

/// Reports whether a stage can run on a stream: whether
/// [`build_halfjoin`] may be called with these arguments.
pub fn is_stage_ready(
    updates: &Vec<StreamUpdate>,
    trace: &Vec<ArrangedUpdate>,
    prev_key: &Vec<MirScalarExpr>,
    prev_thinning: &Vec<usize>,
    comparison: TimeComparison,
    closure: &JoinClosure,
    shutdown_probe: ShutdownProbe,
) -> (b: bool)
    ensures
        b == spec_stage_ready(
            spec_stream(updates@),
            spec_arranged(trace@),
            prev_key@,
            prev_thinning@,
            comparison,
            closure,
            !shutdown_probe.in_shutdown(),
        ),
{
    if !all_thinnable(updates, prev_thinning) {
        return false;
    }
    if shutdown_probe.probe().is_none() {
        return true;
    }
    let (prepared, _) = prepare_keys(updates, prev_key, prev_thinning);
    if !products_fit(&prepared, trace, comparison) {
        return false;
    }
    if closure.could_error() {
        return true;
    }
    let matched = half_join(&prepared, trace, comparison, closure, &shutdown_probe);
    never_fails(&matched)
}

/// Constructs a half-join from the supplied arguments: one stage of a
/// delta path.
///
/// `comparison` is the tie-break of the stage; it depends on which of the
/// two relations comes first in the order of the relations. The stream that
/// comes in and the stream that goes out are of pairs of a row and a time,
/// where the time can be later than the initial time of the update. The
/// stage may advance the time of the pair, but it hands the initial time on
/// as it is: the order among the initial times is what makes sure that two
/// updates are matched at most once.
///
/// An update whose key fails to evaluate goes to the failures, at its
/// initial time and with its multiplicity, and to nothing else. A pair on
/// which the closure fails goes to the failures, with the multiplicity of
/// the pair.
pub fn build_halfjoin(
    updates: Vec<StreamUpdate>,
    trace: &Vec<ArrangedUpdate>,
    prev_key: &Vec<MirScalarExpr>,
    prev_thinning: &Vec<usize>,
    comparison: TimeComparison,
    closure: &JoinClosure,
    shutdown_probe: ShutdownProbe,
) -> (out: (Vec<StreamUpdate>, Vec<ErrUpdate>))
    requires
        spec_stage_ready(
            spec_stream(updates@),
            spec_arranged(trace@),
            prev_key@,
            prev_thinning@,
            comparison,
            closure,
            !shutdown_probe.in_shutdown(),
        ),
    ensures
        spec_stream(out.0@) == spec_stage_oks(
            spec_stream(updates@),
            spec_arranged(trace@),
            prev_key@,
            prev_thinning@,
            comparison,
            closure,
            !shutdown_probe.in_shutdown(),
        ),
        out.1@ == spec_stage_errs(
            spec_stream(updates@),
            spec_arranged(trace@),
            prev_key@,
            prev_thinning@,
            comparison,
            closure,
            !shutdown_probe.in_shutdown(),
        ),
{
    // Prepare the keys. A failure of a key expression goes to the errors.
    let (prepared, mut errs) = prepare_keys(&updates, prev_key, prev_thinning);
    let matched = half_join(&prepared, trace, comparison, closure, &shutdown_probe);
    if closure.could_error() {
        let (oks, mut errs2) = split_ok_err(&matched);
        errs.append(&mut errs2);
        (oks, errs)
    } else {
        proof {
            if shutdown_probe.in_shutdown() {
                lemma_shutdown_hands_on_nothing(
                    closure,
                    comparison,
                    spec_prepared_views(prepared@),
                    spec_arranged(trace@),
                );
            }
            lemma_no_failure_no_errs(spec_matched_views(matched@));
        }
        let oks = rows_of(&matched);
        (oks, errs)
    }
}

/// Where the closure failed on no pair, there are no failures among what
/// the half-join handed on.
pub proof fn lemma_no_failure_no_errs(matched: Seq<MatchedView>)
    requires
        spec_never_fails(matched),
    ensures
        spec_errs_of(matched) == Seq::<ErrUpdate>::empty(),
    decreases matched.len(),
{
    if matched.len() > 0 {
        assert forall|i: int| 0 <= i < matched.drop_last().len() implies ((
            #[trigger] matched.drop_last()[i]).0).0 is Ok by {
            assert(matched.drop_last()[i] == matched[i]);
        }
        lemma_no_failure_no_errs(matched.drop_last());
        assert(((matched[matched.len() - 1]).0).0 is Ok);
    }
}

/// A half-join in a dataflow that is shutting down hands on nothing.
pub proof fn lemma_shutdown_hands_on_nothing(
    closure: &JoinClosure,
    tie: TimeComparison,
    prepared: Seq<PreparedView>,
    arranged: Seq<ArrangedView>,
)
    ensures
        spec_half_join(closure, tie, false, prepared, arranged) == Seq::<MatchedView>::empty(),
    decreases prepared.len(),
{
    if prepared.len() > 0 {
        lemma_shutdown_hands_on_nothing(closure, tie, prepared.drop_last(), arranged);
        lemma_shutdown_matches_nothing(closure, tie, prepared.last(), arranged);
    }
}

/// In a dataflow that is shutting down, no update of the stream is matched.
pub proof fn lemma_shutdown_matches_nothing(
    closure: &JoinClosure,
    tie: TimeComparison,
    p: PreparedView,
    arranged: Seq<ArrangedView>,
)
    ensures
        spec_matches(closure, tie, false, p, arranged) == Seq::<MatchedView>::empty(),
    decreases arranged.len(),
{
    if arranged.len() > 0 {
        lemma_shutdown_matches_nothing(closure, tie, p, arranged.drop_last());
    }
}

} // verus!

//! Laws of the delta join.
use vstd::prelude::*;
use crate::expr::error::{DataflowError, EvalError};
use crate::expr::scalar::MirScalarExpr;
use crate::plan::join::JoinClosure;
use crate::render::context::{ArrangedView, ErrUpdate, StreamView};
use crate::render::context::CollectionBundle;
use crate::render::delta_join::{
    lemma_resolved_contains, spec_arrangement_errs, spec_lookup, spec_resolved, spec_visible,
    Request,
};
use crate::render::frontier::spec_is_least;
use crate::render::half_join::{
    spec_errs_of, spec_half_join, spec_key, spec_key_errs, spec_matches, spec_oks_of, spec_pair,
    spec_pairs, spec_prepare, spec_prepared, spec_product_fits, spec_stage_errs,
    spec_stage_matched, spec_stage_oks, MatchedView, PreparedView, TimeComparison,
};
use crate::repr::datum::{Datum, Diff, Timestamp};

verus! {

/// Of two updates of two different relations, exactly one is matched with
/// the other: either the path of the first relation meets the update of the
/// second in its lookup, or the path of the second relation meets the
/// update of the first, and never both. Updates at one time count as
/// earlier where their relation comes earlier.
pub proof fn lemma_exactly_one_path_matches(
    first: usize,
    second: usize,
    first_time: Timestamp,
    second_time: Timestamp,
)
    requires
        first != second,
    ensures
        TimeComparison::spec_between(first, second).spec_holds(second_time, first_time)
            != TimeComparison::spec_between(second, first).spec_holds(first_time, second_time),
{
}

/// The path that is matched with an update of the other relation sees its
/// own update, be it there when the dataflow starts or not, where one of
/// the two relations is the first relation and no update is before the
/// as-of frontier. So no pair is lost to the rule that only the path of
/// the first relation sees what was there at the start, and none is found
/// twice.
pub proof fn lemma_start_loses_no_pair(
    first: usize,
    second: usize,
    first_time: Timestamp,
    second_time: Timestamp,
    as_of: Seq<Timestamp>,
)
    requires
        first != second,
        first == 0 || second == 0,
        forall|t: Timestamp|
            spec_is_least(as_of, t) ==> t <= first_time && t <= second_time,
    ensures
        (spec_visible(first, as_of, first_time) && TimeComparison::spec_between(
            first,
            second,
        ).spec_holds(second_time, first_time)) != (spec_visible(second, as_of, second_time)
            && TimeComparison::spec_between(second, first).spec_holds(first_time, second_time)),
{
}

/// An update of the first relation and an update of the second relation
/// with the same key are paired by exactly one of the two paths: by that of
/// the first relation where the update of the second is at or before it,
/// and by that of the second relation where the update of the first is
/// strictly before it. Updates with different keys are paired by neither.
pub proof fn lemma_pair_is_found_once(r: ArrangedView, s: ArrangedView)
    ensures
        r.0 == s.0 ==> spec_pairs(
            TimeComparison::spec_between(0, 1),
            ((r.0, r.1, r.2), r.2, r.3),
            s,
        ) != spec_pairs(TimeComparison::spec_between(1, 0), ((s.0, s.1, s.2), s.2, s.3), r),
        r.0 != s.0 ==> !spec_pairs(
            TimeComparison::spec_between(0, 1),
            ((r.0, r.1, r.2), r.2, r.3),
            s,
        ) && !spec_pairs(TimeComparison::spec_between(1, 0), ((s.0, s.1, s.2), s.2, s.3), r),
{
}

/// What a half-join hands on for a pair carries the later of the two times
/// as the time of the pair, the initial time of the stream update as it
/// was, and the product of the two multiplicities.
pub proof fn lemma_pair_time_and_multiplicity(
    closure: &JoinClosure,
    tie: TimeComparison,
    p: PreparedView,
    a: ArrangedView,
)
    requires
        spec_pairs(tie, p, a),
        spec_product_fits(p.2, a.3),
    ensures
        spec_pair(closure, tie, true, p, a) matches Some(m) && {
            &&& (m.0).1 >= (p.0).2
            &&& (m.0).1 >= a.2
            &&& ((m.0).1 == (p.0).2 || (m.0).1 == a.2)
            &&& m.1 == p.1
            &&& m.2 == p.2 * a.3
        },
{
}

/// The half-join of two streams, one after the other, hands on what it
/// hands on for the first, followed by what it hands on for the second.
pub proof fn lemma_half_join_concat(
    closure: &JoinClosure,
    tie: TimeComparison,
    alive: bool,
    a: Seq<PreparedView>,
    b: Seq<PreparedView>,
    arranged: Seq<ArrangedView>,
)
    ensures
        spec_half_join(closure, tie, alive, a + b, arranged) == spec_half_join(
            closure,
            tie,
            alive,
            a,
            arranged,
        ) + spec_half_join(closure, tie, alive, b, arranged),
    decreases b.len(),
{
    if b.len() == 0 {
        assert(a + b =~= a);
    } else {
        assert((a + b).drop_last() =~= a + b.drop_last());
        assert((a + b).last() == b.last());
        lemma_half_join_concat(closure, tie, alive, a, b.drop_last(), arranged);
    }
}

/// The updates of two streams that get a key are those of the first,
/// followed by those of the second.
pub proof fn lemma_prepared_concat(
    a: Seq<StreamView>,
    b: Seq<StreamView>,
    prev_key: Seq<MirScalarExpr>,
    prev_thinning: Seq<usize>,
)
    ensures
        spec_prepared(a + b, prev_key, prev_thinning) == spec_prepared(a, prev_key, prev_thinning)
            + spec_prepared(b, prev_key, prev_thinning),
        spec_key_errs(a + b, prev_key) == spec_key_errs(a, prev_key) + spec_key_errs(b, prev_key),
    decreases b.len(),
{
    if b.len() == 0 {
        assert(a + b =~= a);
    } else {
        assert((a + b).drop_last() =~= a + b.drop_last());
        assert((a + b).last() == b.last());
        lemma_prepared_concat(a, b.drop_last(), prev_key, prev_thinning);
    }
}

/// The rows and the failures among what was handed on for two streams are
/// those of the first, followed by those of the second.
pub proof fn lemma_split_concat(a: Seq<MatchedView>, b: Seq<MatchedView>)
    ensures
        spec_oks_of(a + b) == spec_oks_of(a) + spec_oks_of(b),
        spec_errs_of(a + b) == spec_errs_of(a) + spec_errs_of(b),
    decreases b.len(),
{
    if b.len() == 0 {
        assert(a + b =~= a);
    } else {
        assert((a + b).drop_last() =~= a + b.drop_last());
        assert((a + b).last() == b.last());
        lemma_split_concat(a, b.drop_last());
    }
}

/// A stage handles each update of its stream by itself: what comes out for
/// two streams, one after the other, is what comes out for the first
/// followed by what comes out for the second. So does the list of the key
/// failures, and so does the list of the closure failures. An update on
/// which an expression fails takes nothing away from what the stage makes
/// of the other updates.
pub proof fn lemma_stage_handles_updates_apart(
    a: Seq<StreamView>,
    b: Seq<StreamView>,
    arranged: Seq<ArrangedView>,
    prev_key: Seq<MirScalarExpr>,
    prev_thinning: Seq<usize>,
    tie: TimeComparison,
    closure: &JoinClosure,
    alive: bool,
)
    ensures
        spec_stage_oks(a + b, arranged, prev_key, prev_thinning, tie, closure, alive)
            == spec_stage_oks(a, arranged, prev_key, prev_thinning, tie, closure, alive)
            + spec_stage_oks(b, arranged, prev_key, prev_thinning, tie, closure, alive),
        spec_key_errs(a + b, prev_key) == spec_key_errs(a, prev_key) + spec_key_errs(b, prev_key),
        spec_errs_of(
            spec_stage_matched(a + b, arranged, prev_key, prev_thinning, tie, closure, alive),
        ) == spec_errs_of(
            spec_stage_matched(a, arranged, prev_key, prev_thinning, tie, closure, alive),
        ) + spec_errs_of(
            spec_stage_matched(b, arranged, prev_key, prev_thinning, tie, closure, alive),
        ),
{
    lemma_prepared_concat(a, b, prev_key, prev_thinning);
    lemma_half_join_concat(
        closure,
        tie,
        alive,
        spec_prepared(a, prev_key, prev_thinning),
        spec_prepared(b, prev_key, prev_thinning),
        arranged,
    );
    lemma_split_concat(
        spec_stage_matched(a, arranged, prev_key, prev_thinning, tie, closure, alive),
        spec_stage_matched(b, arranged, prev_key, prev_thinning, tie, closure, alive),
    );
}

/// An update whose key fails to evaluate comes out of a stage as exactly
/// one failure, at the initial time of the update and with the
/// multiplicity of the update, and as no row.
pub proof fn lemma_key_failure_is_one_error(
    update: StreamView,
    arranged: Seq<ArrangedView>,
    prev_key: Seq<MirScalarExpr>,
    prev_thinning: Seq<usize>,
    tie: TimeComparison,
    closure: &JoinClosure,
    alive: bool,
)
    requires
        spec_key(prev_key, (update.0).0) is Err,
    ensures
        spec_stage_oks(seq![update], arranged, prev_key, prev_thinning, tie, closure, alive)
            == Seq::<StreamView>::empty(),
        spec_stage_errs(seq![update], arranged, prev_key, prev_thinning, tie, closure, alive)
            == seq![
            (DataflowError::EvalError(spec_key(prev_key, (update.0).0)->Err_0), update.1, update.2),
        ],
{
    let one = seq![update];
    assert(one.drop_last() =~= Seq::<StreamView>::empty());
    assert(one.last() == update);
    assert(spec_prepared(one.drop_last(), prev_key, prev_thinning) =~= Seq::<PreparedView>::empty());
    assert(spec_prepared(one, prev_key, prev_thinning) =~= Seq::<PreparedView>::empty());
    assert(spec_key_errs(one.drop_last(), prev_key) =~= Seq::<ErrUpdate>::empty());
    assert(spec_stage_errs(one, arranged, prev_key, prev_thinning, tie, closure, alive) =~= seq![
        (DataflowError::EvalError(spec_key(prev_key, (update.0).0)->Err_0), update.1, update.2),
    ]);
}

/// A pair on which the closure of a stage fails comes out of the stage as
/// exactly one failure, at the initial time of the stream update and with
/// the product of the two multiplicities, and as no row. Where the update
/// of the arrangement has the multiplicity one, the failure has the
/// multiplicity of the stream update.
pub proof fn lemma_failing_pair_is_one_error(
    closure: &JoinClosure,
    tie: TimeComparison,
    p: PreparedView,
    a: ArrangedView,
)
    requires
        spec_pairs(tie, p, a),
        spec_product_fits(p.2, a.3),
        closure.spec_apply((p.0).0 + (p.0).1 + a.1) is Err,
    ensures
        spec_pair(closure, tie, true, p, a) matches Some(m) && {
            &&& spec_oks_of(seq![m]) == Seq::<StreamView>::empty()
            &&& spec_errs_of(seq![m]) == seq![
                (
                    DataflowError::EvalError(
                        closure.spec_apply((p.0).0 + (p.0).1 + a.1)->Err_0,
                    ),
                    p.1,
                    (p.2 * a.3) as Diff,
                ),
            ]
            &&& a.3 == 1 ==> m.2 == p.2
        },
{
    let m = spec_pair(closure, tie, true, p, a)->Some_0;
    let one = seq![m];
    assert(one.drop_last() =~= Seq::<MatchedView>::empty());
    assert(one.last() == m);
    assert((m.0).0 == closure.spec_apply((p.0).0 + (p.0).1 + a.1));
    assert(spec_errs_of(one.drop_last()) =~= Seq::<ErrUpdate>::empty());
    assert(spec_oks_of(one.drop_last()) =~= Seq::<StreamView>::empty());
    assert(spec_errs_of(one) =~= seq![
        (
            DataflowError::EvalError(closure.spec_apply((p.0).0 + (p.0).1 + a.1)->Err_0),
            p.1,
            (p.2 * a.3) as Diff,
        ),
    ]);
}

/// No request occurs twice among the requests without repetitions: stages
/// that ask for one relation by one key are answered from one place, and
/// the failures that come with an arrangement are taken once.
pub proof fn lemma_resolved_once(requests: Seq<Request>)
    ensures
        forall|i: int, j: int|
            0 <= i < j < spec_resolved(requests).len() ==> spec_resolved(requests)[i]
                != spec_resolved(requests)[j],
    decreases requests.len(),
{
    if requests.len() > 0 {
        lemma_resolved_once(requests.drop_last());
        let rest = spec_resolved(requests.drop_last());
        if !rest.contains(requests.last()) {
            let all = rest.push(requests.last());
            assert forall|i: int, j: int| 0 <= i < j < all.len() implies all[i] != all[j] by {
                if j == rest.len() {
                    if all[i] == all[j] {
                        assert(rest[i] == requests.last());
                    }
                }
            }
        }
    }
}

/// The retraction of a stream: the same updates with the opposite
/// multiplicities.
pub open spec fn spec_retract(updates: Seq<StreamView>) -> Seq<StreamView> {
    Seq::new(updates.len(), |i: int| (updates[i].0, updates[i].1, (-updates[i].2) as Diff))
}

/// The retraction of prepared updates.
pub open spec fn spec_retract_prepared(prepared: Seq<PreparedView>) -> Seq<PreparedView> {
    Seq::new(prepared.len(), |i: int| (prepared[i].0, prepared[i].1, (-prepared[i].2) as Diff))
}

/// The retraction of what a half-join hands on.
pub open spec fn spec_retract_matched(matched: Seq<MatchedView>) -> Seq<MatchedView> {
    Seq::new(matched.len(), |i: int| (matched[i].0, matched[i].1, (-matched[i].2) as Diff))
}

/// The net multiplicity of a row at a time, with an initial time, in a
/// stream: the sum of the multiplicities of its updates.
pub open spec fn spec_weight(
    stream: Seq<StreamView>,
    data: (Seq<Datum>, Timestamp),
    initial: Timestamp,
) -> int
    decreases stream.len(),
{
    if stream.len() == 0 {
        0
    } else {
        spec_weight(stream.drop_last(), data, initial) + if stream.last().0 == data
            && stream.last().1 == initial {
            stream.last().2 as int
        } else {
            0
        }
    }
}

/// Whether every multiplicity of the stream has a negation, and the
/// half-join of the stream and of its retraction multiplies only
/// multiplicities whose product is a multiplicity.
pub open spec fn spec_retractable(
    tie: TimeComparison,
    prepared: Seq<PreparedView>,
    arranged: Seq<ArrangedView>,
) -> bool {
    &&& forall|i: int| 0 <= i < prepared.len() ==> (#[trigger] prepared[i]).2 != i64::MIN
    &&& forall|i: int, j: int|
        0 <= i < prepared.len() && 0 <= j < arranged.len() && spec_pairs(
            tie,
            #[trigger] prepared[i],
            #[trigger] arranged[j],
        ) ==> spec_product_fits(prepared[i].2, arranged[j].3) && spec_product_fits(
            (-prepared[i].2) as Diff,
            arranged[j].3,
        )
}

/// The net multiplicity in two streams together is the sum of the net
/// multiplicities in each.
pub proof fn lemma_weight_concat(
    a: Seq<StreamView>,
    b: Seq<StreamView>,
    data: (Seq<Datum>, Timestamp),
    initial: Timestamp,
)
    ensures
        spec_weight(a + b, data, initial) == spec_weight(a, data, initial) + spec_weight(
            b,
            data,
            initial,
        ),
    decreases b.len(),
{
    if b.len() == 0 {
        assert(a + b =~= a);
    } else {
        assert((a + b).drop_last() =~= a + b.drop_last());
        assert((a + b).last() == b.last());
        lemma_weight_concat(a, b.drop_last(), data, initial);
    }
}

/// What a half-join hands on for the retraction of an update is the
/// retraction of what it hands on for the update.
pub proof fn lemma_matches_of_retraction(
    closure: &JoinClosure,
    tie: TimeComparison,
    alive: bool,
    p: PreparedView,
    arranged: Seq<ArrangedView>,
)
    requires
        p.2 != i64::MIN,
        forall|j: int|
            0 <= j < arranged.len() && spec_pairs(tie, p, #[trigger] arranged[j])
                ==> spec_product_fits(p.2, arranged[j].3) && spec_product_fits(
                (-p.2) as Diff,
                arranged[j].3,
            ),
    ensures
        spec_matches(closure, tie, alive, (p.0, p.1, (-p.2) as Diff), arranged)
            == spec_retract_matched(spec_matches(closure, tie, alive, p, arranged)),
    decreases arranged.len(),
{
    let q = (p.0, p.1, (-p.2) as Diff);
    if arranged.len() == 0 {
        assert(spec_retract_matched(Seq::<MatchedView>::empty()) =~= Seq::<MatchedView>::empty());
    } else {
        assert forall|j: int|
            0 <= j < arranged.drop_last().len() && spec_pairs(
                tie,
                p,
                #[trigger] arranged.drop_last()[j],
            ) implies spec_product_fits(p.2, arranged.drop_last()[j].3) && spec_product_fits(
            (-p.2) as Diff,
            arranged.drop_last()[j].3,
        ) by {
            assert(arranged.drop_last()[j] == arranged[j]);
        }
        lemma_matches_of_retraction(closure, tie, alive, p, arranged.drop_last());
        let a = arranged.last();
        assert(a == arranged[arranged.len() - 1]);
        let rest = spec_matches(closure, tie, alive, p, arranged.drop_last());
        if spec_pairs(tie, p, a) && alive {
            assert(spec_product_fits(p.2, a.3) && spec_product_fits((-p.2) as Diff, a.3));
            assert((-p.2) * a.3 == -(p.2 * a.3)) by (nonlinear_arith);
            let m = spec_pair(closure, tie, alive, p, a)->Some_0;
            let n = spec_pair(closure, tie, alive, q, a)->Some_0;
            assert(n == (m.0, m.1, (-m.2) as Diff));
            assert(spec_retract_matched(rest.push(m)) =~= spec_retract_matched(rest).push(n));
        }
    }
}

/// What a half-join hands on for the retraction of a stream is the
/// retraction of what it hands on for the stream.
pub proof fn lemma_half_join_of_retraction(
    closure: &JoinClosure,
    tie: TimeComparison,
    alive: bool,
    prepared: Seq<PreparedView>,
    arranged: Seq<ArrangedView>,
)
    requires
        spec_retractable(tie, prepared, arranged),
    ensures
        spec_half_join(closure, tie, alive, spec_retract_prepared(prepared), arranged)
            == spec_retract_matched(spec_half_join(closure, tie, alive, prepared, arranged)),
    decreases prepared.len(),
{
    let r = spec_retract_prepared(prepared);
    if prepared.len() == 0 {
        assert(spec_retract_matched(Seq::<MatchedView>::empty()) =~= Seq::<MatchedView>::empty());
    } else {
        let shorter = prepared.drop_last();
        assert(spec_retractable(tie, shorter, arranged)) by {
            assert forall|i: int| 0 <= i < shorter.len() implies (#[trigger] shorter[i]).2
                != i64::MIN by {
                assert(shorter[i] == prepared[i]);
            }
            assert forall|i: int, j: int|
                0 <= i < shorter.len() && 0 <= j < arranged.len() && spec_pairs(
                    tie,
                    #[trigger] shorter[i],
                    #[trigger] arranged[j],
                ) implies spec_product_fits(shorter[i].2, arranged[j].3) && spec_product_fits(
                (-shorter[i].2) as Diff,
                arranged[j].3,
            ) by {
                assert(shorter[i] == prepared[i]);
            }
        }
        lemma_half_join_of_retraction(closure, tie, alive, shorter, arranged);
        let p = prepared.last();
        assert(p == prepared[prepared.len() - 1]);
        lemma_matches_of_retraction(closure, tie, alive, p, arranged);
        assert(r.drop_last() =~= spec_retract_prepared(shorter));
        assert(r.last() == (p.0, p.1, (-p.2) as Diff));
        let done = spec_half_join(closure, tie, alive, shorter, arranged);
        let more = spec_matches(closure, tie, alive, p, arranged);
        assert(spec_retract_matched(done + more) =~= spec_retract_matched(done)
            + spec_retract_matched(more));
    }
}

/// The rows among the retraction of what was handed on are the retraction
/// of the rows among it.
pub proof fn lemma_oks_of_retraction(matched: Seq<MatchedView>)
    ensures
        spec_oks_of(spec_retract_matched(matched)) == spec_retract(spec_oks_of(matched)),
    decreases matched.len(),
{
    let r = spec_retract_matched(matched);
    if matched.len() == 0 {
        assert(spec_retract(Seq::<StreamView>::empty()) =~= Seq::<StreamView>::empty());
    } else {
        lemma_oks_of_retraction(matched.drop_last());
        assert(r.drop_last() =~= spec_retract_matched(matched.drop_last()));
        let m = matched.last();
        assert(r.last() == (m.0, m.1, (-m.2) as Diff));
        let rest = spec_oks_of(matched.drop_last());
        match (m.0).0 {
            Ok(Some(row)) => {
                let u = ((row, (m.0).1), m.1, m.2);
                assert(spec_retract(rest.push(u)) =~= spec_retract(rest).push(
                    (u.0, u.1, (-u.2) as Diff),
                ));
            },
            _ => {},
        }
    }
}

/// The updates of the retraction of a stream that get a key are the
/// retraction of those of the stream.
pub proof fn lemma_prepared_of_retraction(
    updates: Seq<StreamView>,
    prev_key: Seq<MirScalarExpr>,
    prev_thinning: Seq<usize>,
)
    ensures
        spec_prepared(spec_retract(updates), prev_key, prev_thinning) == spec_retract_prepared(
            spec_prepared(updates, prev_key, prev_thinning),
        ),
    decreases updates.len(),
{
    let r = spec_retract(updates);
    if updates.len() == 0 {
        assert(spec_retract_prepared(Seq::<PreparedView>::empty()) =~= Seq::<
            PreparedView,
        >::empty());
    } else {
        lemma_prepared_of_retraction(updates.drop_last(), prev_key, prev_thinning);
        assert(r.drop_last() =~= spec_retract(updates.drop_last()));
        let u = updates.last();
        assert(r.last() == (u.0, u.1, (-u.2) as Diff));
        let rest = spec_prepared(updates.drop_last(), prev_key, prev_thinning);
        match spec_prepare(u, prev_key, prev_thinning) {
            Ok(p) => {
                assert(spec_retract_prepared(rest.push(p)) =~= spec_retract_prepared(rest).push(
                    (p.0, p.1, (-p.2) as Diff),
                ));
            },
            Err(_) => {},
        }
    }
}

/// The net multiplicity in the retraction of a stream is the opposite of
/// the net multiplicity in the stream.
pub proof fn lemma_weight_of_retraction(
    stream: Seq<StreamView>,
    data: (Seq<Datum>, Timestamp),
    initial: Timestamp,
)
    requires
        forall|i: int| 0 <= i < stream.len() ==> (#[trigger] stream[i]).2 != i64::MIN,
    ensures
        spec_weight(spec_retract(stream), data, initial) == -spec_weight(stream, data, initial),
    decreases stream.len(),
{
    let r = spec_retract(stream);
    if stream.len() > 0 {
        assert forall|i: int| 0 <= i < stream.drop_last().len() implies (
        #[trigger] stream.drop_last()[i]).2 != i64::MIN by {
            assert(stream.drop_last()[i] == stream[i]);
        }
        lemma_weight_of_retraction(stream.drop_last(), data, initial);
        assert(r.drop_last() =~= spec_retract(stream.drop_last()));
        let u = stream.last();
        assert(u == stream[stream.len() - 1]);
        assert(r.last() == (u.0, u.1, (-u.2) as Diff));
    }
}

/// None of the rows among what was handed on has the least multiplicity,
/// where the products of the pairs fit both for the stream and for its
/// retraction.
pub proof fn lemma_matches_are_negatable(
    closure: &JoinClosure,
    tie: TimeComparison,
    alive: bool,
    p: PreparedView,
    arranged: Seq<ArrangedView>,
)
    requires
        p.2 != i64::MIN,
        forall|j: int|
            0 <= j < arranged.len() && spec_pairs(tie, p, #[trigger] arranged[j])
                ==> spec_product_fits(p.2, arranged[j].3) && spec_product_fits(
                (-p.2) as Diff,
                arranged[j].3,
            ),
    ensures
        forall|i: int|
            0 <= i < spec_matches(closure, tie, alive, p, arranged).len() ==> (#[trigger] spec_matches(
                closure,
                tie,
                alive,
                p,
                arranged,
            )[i]).2 != i64::MIN,
    decreases arranged.len(),
{
    if arranged.len() > 0 {
        assert forall|j: int|
            0 <= j < arranged.drop_last().len() && spec_pairs(
                tie,
                p,
                #[trigger] arranged.drop_last()[j],
            ) implies spec_product_fits(p.2, arranged.drop_last()[j].3) && spec_product_fits(
            (-p.2) as Diff,
            arranged.drop_last()[j].3,
        ) by {
            assert(arranged.drop_last()[j] == arranged[j]);
        }
        lemma_matches_are_negatable(closure, tie, alive, p, arranged.drop_last());
        let a = arranged.last();
        assert(a == arranged[arranged.len() - 1]);
        let all = spec_matches(closure, tie, alive, p, arranged);
        let rest = spec_matches(closure, tie, alive, p, arranged.drop_last());
        assert forall|i: int| 0 <= i < all.len() implies (#[trigger] all[i]).2 != i64::MIN by {
            if i < rest.len() {
                assert(all[i] == rest[i]);
            } else {
                assert(spec_pairs(tie, p, a) && alive);
                assert(spec_product_fits(p.2, a.3) && spec_product_fits((-p.2) as Diff, a.3));
                assert((-p.2) * a.3 == -(p.2 * a.3)) by (nonlinear_arith);
                assert(all[i].2 == p.2 * a.3);
            }
        }
    }
}

/// None of the rows that come out of a half-join has the least
/// multiplicity, where the stream is retractable.
pub proof fn lemma_half_join_is_negatable(
    closure: &JoinClosure,
    tie: TimeComparison,
    alive: bool,
    prepared: Seq<PreparedView>,
    arranged: Seq<ArrangedView>,
)
    requires
        spec_retractable(tie, prepared, arranged),
    ensures
        forall|i: int|
            0 <= i < spec_oks_of(spec_half_join(closure, tie, alive, prepared, arranged)).len()
                ==> (#[trigger] spec_oks_of(
                spec_half_join(closure, tie, alive, prepared, arranged),
            )[i]).2 != i64::MIN,
    decreases prepared.len(),
{
    let all = spec_half_join(closure, tie, alive, prepared, arranged);
    if prepared.len() > 0 {
        let shorter = prepared.drop_last();
        assert(spec_retractable(tie, shorter, arranged)) by {
            assert forall|i: int| 0 <= i < shorter.len() implies (#[trigger] shorter[i]).2
                != i64::MIN by {
                assert(shorter[i] == prepared[i]);
            }
            assert forall|i: int, j: int|
                0 <= i < shorter.len() && 0 <= j < arranged.len() && spec_pairs(
                    tie,
                    #[trigger] shorter[i],
                    #[trigger] arranged[j],
                ) implies spec_product_fits(shorter[i].2, arranged[j].3) && spec_product_fits(
                (-shorter[i].2) as Diff,
                arranged[j].3,
            ) by {
                assert(shorter[i] == prepared[i]);
            }
        }
        lemma_half_join_is_negatable(closure, tie, alive, shorter, arranged);
        let p = prepared.last();
        assert(p == prepared[prepared.len() - 1]);
        lemma_matches_are_negatable(closure, tie, alive, p, arranged);
        let done = spec_half_join(closure, tie, alive, shorter, arranged);
        let more = spec_matches(closure, tie, alive, p, arranged);
        lemma_split_concat(done, more);
        lemma_oks_are_among(more);
        assert forall|i: int| 0 <= i < spec_oks_of(all).len() implies (#[trigger] spec_oks_of(
            all,
        )[i]).2 != i64::MIN by {
            if i >= spec_oks_of(done).len() {
                let k = i - spec_oks_of(done).len();
                assert(spec_oks_of(all)[i] == spec_oks_of(more)[k]);
                let w = choose|w: int|
                    0 <= w < more.len() && more[w].2 == (#[trigger] spec_oks_of(more)[k]).2;
                assert(more[w].2 != i64::MIN);
            } else {
                assert(spec_oks_of(all)[i] == spec_oks_of(done)[i]);
            }
        }
    }
}

/// Each row among what was handed on has the multiplicity of one of the
/// entries that were handed on.
pub proof fn lemma_oks_are_among(matched: Seq<MatchedView>)
    ensures
        forall|k: int|
            0 <= k < spec_oks_of(matched).len() ==> exists|w: int|
                0 <= w < matched.len() && matched[w].2 == (#[trigger] spec_oks_of(matched)[k]).2,
    decreases matched.len(),
{
    if matched.len() > 0 {
        lemma_oks_are_among(matched.drop_last());
        let rest = spec_oks_of(matched.drop_last());
        assert forall|k: int| 0 <= k < spec_oks_of(matched).len() implies exists|w: int|
            0 <= w < matched.len() && matched[w].2 == (#[trigger] spec_oks_of(matched)[k]).2 by {
            if k < rest.len() {
                assert(spec_oks_of(matched)[k] == rest[k]);
                let w = choose|w: int|
                    0 <= w < matched.drop_last().len() && matched.drop_last()[w].2 == rest[k].2;
                assert(matched[w].2 == rest[k].2);
            } else {
                assert(matched[matched.len() - 1].2 == spec_oks_of(matched)[k].2);
            }
        }
    }
}

/// Retracting the updates of a stream retracts what the stage made of
/// them: in what comes out of a stage for a stream followed by its
/// retraction, every row has the net multiplicity zero at every time.
pub proof fn lemma_retraction_cancels(
    updates: Seq<StreamView>,
    arranged: Seq<ArrangedView>,
    prev_key: Seq<MirScalarExpr>,
    prev_thinning: Seq<usize>,
    tie: TimeComparison,
    closure: &JoinClosure,
    alive: bool,
    data: (Seq<Datum>, Timestamp),
    initial: Timestamp,
)
    requires
        spec_retractable(tie, spec_prepared(updates, prev_key, prev_thinning), arranged),
    ensures
        spec_weight(
            spec_stage_oks(
                updates + spec_retract(updates),
                arranged,
                prev_key,
                prev_thinning,
                tie,
                closure,
                alive,
            ),
            data,
            initial,
        ) == 0,
{
    let retracted = spec_retract(updates);
    let prepared = spec_prepared(updates, prev_key, prev_thinning);
    let out = spec_stage_oks(updates, arranged, prev_key, prev_thinning, tie, closure, alive);
    lemma_stage_handles_updates_apart(
        updates,
        retracted,
        arranged,
        prev_key,
        prev_thinning,
        tie,
        closure,
        alive,
    );
    lemma_prepared_of_retraction(updates, prev_key, prev_thinning);
    lemma_half_join_of_retraction(closure, tie, alive, prepared, arranged);
    lemma_oks_of_retraction(spec_half_join(closure, tie, alive, prepared, arranged));
    lemma_half_join_is_negatable(closure, tie, alive, prepared, arranged);
    lemma_weight_of_retraction(out, data, initial);
    lemma_weight_concat(out, spec_retract(out), data, initial);
}

/// The number of positions before `n` at which `f` holds.
pub open spec fn spec_count(n: nat, f: spec_fn(int) -> bool) -> nat
    decreases n,
{
    if n == 0 {
        0
    } else {
        spec_count((n - 1) as nat, f) + if f(n - 1) {
            1nat
        } else {
            0nat
        }
    }
}

/// The number of pairs of a position before `n` and a position before `m`
/// at which `f` holds.
pub open spec fn spec_count_pairs(n: nat, m: nat, f: spec_fn(int, int) -> bool) -> nat
    decreases n,
{
    if n == 0 {
        0
    } else {
        spec_count_pairs((n - 1) as nat, m, f) + spec_count(m, |j: int| f(n - 1, j))
    }
}

/// Two predicates that agree before `n` hold at the same number of
/// positions before `n`.
pub proof fn lemma_count_agrees(n: nat, f: spec_fn(int) -> bool, g: spec_fn(int) -> bool)
    requires
        forall|j: int| 0 <= j < n ==> #[trigger] f(j) == g(j),
    ensures
        spec_count(n, f) == spec_count(n, g),
    decreases n,
{
    if n > 0 {
        lemma_count_agrees((n - 1) as nat, f, g);
    }
}

/// Two predicates on pairs that agree on the pairs in range hold at the
/// same number of them.
pub proof fn lemma_count_pairs_agrees(
    n: nat,
    m: nat,
    f: spec_fn(int, int) -> bool,
    g: spec_fn(int, int) -> bool,
)
    requires
        forall|i: int, j: int| 0 <= i < n && 0 <= j < m ==> #[trigger] f(i, j) == g(i, j),
    ensures
        spec_count_pairs(n, m, f) == spec_count_pairs(n, m, g),
    decreases n,
{
    if n > 0 {
        lemma_count_pairs_agrees((n - 1) as nat, m, f, g);
        lemma_count_agrees(m, |j: int| f(n - 1, j), |j: int| g(n - 1, j));
    }
}

/// Where, at each position, exactly one of `f` and `g` holds if `h` holds
/// and none of them holds if it does not, `f` and `g` together hold as
/// often as `h`.
pub proof fn lemma_count_splits(
    n: nat,
    f: spec_fn(int) -> bool,
    g: spec_fn(int) -> bool,
    h: spec_fn(int) -> bool,
)
    requires
        forall|j: int|
            0 <= j < n ==> (#[trigger] h(j) ==> f(j) != g(j)) && (!h(j) ==> !f(j) && !g(j)),
    ensures
        spec_count(n, f) + spec_count(n, g) == spec_count(n, h),
    decreases n,
{
    if n > 0 {
        lemma_count_splits((n - 1) as nat, f, g, h);
    }
}

/// The law of [`lemma_count_splits`], for pairs.
pub proof fn lemma_count_pairs_splits(
    n: nat,
    m: nat,
    f: spec_fn(int, int) -> bool,
    g: spec_fn(int, int) -> bool,
    h: spec_fn(int, int) -> bool,
)
    requires
        forall|i: int, j: int|
            0 <= i < n && 0 <= j < m ==> (#[trigger] h(i, j) ==> f(i, j) != g(i, j)) && (!h(i, j)
                ==> !f(i, j) && !g(i, j)),
    ensures
        spec_count_pairs(n, m, f) + spec_count_pairs(n, m, g) == spec_count_pairs(n, m, h),
    decreases n,
{
    if n > 0 {
        lemma_count_pairs_splits((n - 1) as nat, m, f, g, h);
        lemma_count_splits(
            m,
            |j: int| f(n - 1, j),
            |j: int| g(n - 1, j),
            |j: int| h(n - 1, j),
        );
    }
}

/// Counting the pairs with one position more in the second place adds the
/// positions in the first place that go with it.
pub proof fn lemma_count_pairs_widens(n: nat, m: nat, f: spec_fn(int, int) -> bool)
    ensures
        spec_count_pairs(n, m + 1, f) == spec_count_pairs(n, m, f) + spec_count(
            n,
            |i: int| f(i, m as int),
        ),
    decreases n,
{
    if n > 0 {
        lemma_count_pairs_widens((n - 1) as nat, m, f);
        let row = |j: int| f(n - 1, j);
        assert(spec_count(m + 1, row) == spec_count(m, row) + if row(m as int) {
            1nat
        } else {
            0nat
        });
        let column = |i: int| f(i, m as int);
        assert(spec_count(n, column) == spec_count((n - 1) as nat, column) + if column(n - 1) {
            1nat
        } else {
            0nat
        });
    }
}

/// Pairs can be counted in either order.
pub proof fn lemma_count_pairs_swaps(n: nat, m: nat, f: spec_fn(int, int) -> bool)
    ensures
        spec_count_pairs(n, m, f) == spec_count_pairs(m, n, |j: int, i: int| f(i, j)),
    decreases m,
{
    let g = |j: int, i: int| f(i, j);
    if m == 0 {
        lemma_count_pairs_narrow(n, f);
    } else {
        lemma_count_pairs_swaps(n, (m - 1) as nat, f);
        lemma_count_pairs_widens(n, (m - 1) as nat, f);
        lemma_count_agrees(n, |i: int| f(i, m - 1), |i: int| g(m - 1, i));
    }
}

/// There are no pairs with nothing in the second place.
pub proof fn lemma_count_pairs_narrow(n: nat, f: spec_fn(int, int) -> bool)
    ensures
        spec_count_pairs(n, 0, f) == 0,
    decreases n,
{
    if n > 0 {
        lemma_count_pairs_narrow((n - 1) as nat, f);
    }
}

/// An arrangement as the stream of a path that reads it: each update with
/// its key, its time as the initial time, and its multiplicity.
pub open spec fn spec_as_stream(arranged: Seq<ArrangedView>) -> Seq<PreparedView> {
    Seq::new(
        arranged.len(),
        |i: int| ((arranged[i].0, arranged[i].1, arranged[i].2), arranged[i].2, arranged[i].3),
    )
}

/// A half-join in a dataflow that runs hands on one entry for each update
/// of the arrangement that the update of the stream is paired with.
pub proof fn lemma_matches_count(
    closure: &JoinClosure,
    tie: TimeComparison,
    p: PreparedView,
    arranged: Seq<ArrangedView>,
)
    ensures
        spec_matches(closure, tie, true, p, arranged).len() == spec_count(
            arranged.len(),
            |j: int| spec_pairs(tie, p, arranged[j]),
        ),
    decreases arranged.len(),
{
    if arranged.len() > 0 {
        let shorter = arranged.drop_last();
        lemma_matches_count(closure, tie, p, shorter);
        lemma_count_agrees(
            shorter.len(),
            |j: int| spec_pairs(tie, p, shorter[j]),
            |j: int| spec_pairs(tie, p, arranged[j]),
        );
        assert(arranged.last() == arranged[arranged.len() - 1]);
    }
}

/// A half-join in a dataflow that runs hands on one entry for each pair of
/// an update of the stream and an update of the arrangement that it pairs.
pub proof fn lemma_half_join_count(
    closure: &JoinClosure,
    tie: TimeComparison,
    prepared: Seq<PreparedView>,
    arranged: Seq<ArrangedView>,
)
    ensures
        spec_half_join(closure, tie, true, prepared, arranged).len() == spec_count_pairs(
            prepared.len(),
            arranged.len(),
            |i: int, j: int| spec_pairs(tie, prepared[i], arranged[j]),
        ),
    decreases prepared.len(),
{
    if prepared.len() > 0 {
        let shorter = prepared.drop_last();
        lemma_half_join_count(closure, tie, shorter, arranged);
        lemma_count_pairs_agrees(
            shorter.len(),
            arranged.len(),
            |i: int, j: int| spec_pairs(tie, shorter[i], arranged[j]),
            |i: int, j: int| spec_pairs(tie, prepared[i], arranged[j]),
        );
        lemma_matches_count(closure, tie, prepared.last(), arranged);
        assert(prepared.last() == prepared[prepared.len() - 1]);
        let f = |i: int, j: int| spec_pairs(tie, prepared[i], arranged[j]);
        lemma_count_agrees(
            arranged.len(),
            |j: int| spec_pairs(tie, prepared.last(), arranged[j]),
            |j: int| f(prepared.len() - 1, j),
        );
    }
}

/// The two paths of a join of two relations find each pair of updates with
/// the same key exactly once between them: the number of pairs that the
/// path of the first relation finds and the number of pairs that the path
/// of the second relation finds add up to the number of pairs of an update
/// of the first relation and an update of the second relation that have
/// the same key. No pair is found twice, and none is missed.
pub proof fn lemma_two_paths_find_each_pair_once(
    first_closure: &JoinClosure,
    second_closure: &JoinClosure,
    first: Seq<ArrangedView>,
    second: Seq<ArrangedView>,
)
    ensures
        spec_half_join(
            first_closure,
            TimeComparison::spec_between(0, 1),
            true,
            spec_as_stream(first),
            second,
        ).len() + spec_half_join(
            second_closure,
            TimeComparison::spec_between(1, 0),
            true,
            spec_as_stream(second),
            first,
        ).len() == spec_count_pairs(
            first.len(),
            second.len(),
            |i: int, j: int| first[i].0 == second[j].0,
        ),
{
    let le = TimeComparison::spec_between(0, 1);
    let lt = TimeComparison::spec_between(1, 0);
    let a = spec_as_stream(first);
    let b = spec_as_stream(second);
    let n = first.len();
    let m = second.len();
    let f = |i: int, j: int| spec_pairs(le, a[i], second[j]);
    let g_swapped = |j: int, i: int| spec_pairs(lt, b[j], first[i]);
    let g = |i: int, j: int| g_swapped(j, i);
    let h = |i: int, j: int| first[i].0 == second[j].0;
    lemma_half_join_count(first_closure, le, a, second);
    lemma_half_join_count(second_closure, lt, b, first);
    lemma_count_pairs_swaps(m, n, g_swapped);
    lemma_count_pairs_agrees(n, m, |i: int, j: int| g_swapped(j, i), g);
    assert forall|i: int, j: int| 0 <= i < n && 0 <= j < m implies (#[trigger] h(i, j) ==> f(i, j)
        != g(i, j)) && (!h(i, j) ==> !f(i, j) && !g(i, j)) by {
        lemma_pair_is_found_once(first[i], second[j]);
    }
    lemma_count_pairs_splits(n, m, f, g, h);
}

/// An update that comes out of a stage as no row takes nothing away from
/// the other updates of its batch, and adds nothing to them: the rows that
/// come out of the stage are those that come out without it. Where the
/// other updates of the batch bring no failure to light, the failures that
/// come out are those of this one update. The update may fail in its key or
/// in its closure; the other updates are handed on all the same.
pub proof fn lemma_failing_update_is_isolated(
    before: Seq<StreamView>,
    failing: StreamView,
    after: Seq<StreamView>,
    arranged: Seq<ArrangedView>,
    prev_key: Seq<MirScalarExpr>,
    prev_thinning: Seq<usize>,
    tie: TimeComparison,
    closure: &JoinClosure,
    alive: bool,
)
    requires
        spec_stage_oks(seq![failing], arranged, prev_key, prev_thinning, tie, closure, alive)
            == Seq::<StreamView>::empty(),
    ensures
        spec_stage_oks(
            before + seq![failing] + after,
            arranged,
            prev_key,
            prev_thinning,
            tie,
            closure,
            alive,
        ) == spec_stage_oks(before + after, arranged, prev_key, prev_thinning, tie, closure, alive),
        spec_stage_errs(before + after, arranged, prev_key, prev_thinning, tie, closure, alive)
            == Seq::<ErrUpdate>::empty() ==> spec_stage_errs(
            before + seq![failing] + after,
            arranged,
            prev_key,
            prev_thinning,
            tie,
            closure,
            alive,
        ) == spec_stage_errs(seq![failing], arranged, prev_key, prev_thinning, tie, closure, alive),
{
    let one = seq![failing];
    lemma_stage_handles_updates_apart(
        before + one,
        after,
        arranged,
        prev_key,
        prev_thinning,
        tie,
        closure,
        alive,
    );
    lemma_stage_handles_updates_apart(
        before,
        one,
        arranged,
        prev_key,
        prev_thinning,
        tie,
        closure,
        alive,
    );
    lemma_stage_handles_updates_apart(
        before,
        after,
        arranged,
        prev_key,
        prev_thinning,
        tie,
        closure,
        alive,
    );
    let oks = |u: Seq<StreamView>|
        spec_stage_oks(u, arranged, prev_key, prev_thinning, tie, closure, alive);
    assert(oks(before) + oks(one) + oks(after) =~= oks(before) + oks(after));
    let key_errs = |u: Seq<StreamView>| spec_key_errs(u, prev_key);
    let closure_errs = |u: Seq<StreamView>|
        spec_errs_of(
            spec_stage_matched(u, arranged, prev_key, prev_thinning, tie, closure, alive),
        );
    if spec_stage_errs(before + after, arranged, prev_key, prev_thinning, tie, closure, alive)
        == Seq::<ErrUpdate>::empty() {
        assert((key_errs(before + after) + closure_errs(before + after)).len() == 0);
        assert(key_errs(before).len() == 0 && key_errs(after).len() == 0);
        assert(closure_errs(before).len() == 0 && closure_errs(after).len() == 0);
        assert(key_errs(before) + key_errs(one) + key_errs(after) =~= key_errs(one));
        assert(closure_errs(before) + closure_errs(one) + closure_errs(after) =~= closure_errs(
            one,
        ));
    }
}

/// The multiplicity that a failure has at a time in a collection of
/// failures: the sum of the multiplicities of its updates.
pub open spec fn spec_err_weight(errs: Seq<ErrUpdate>, failure: DataflowError, time: Timestamp) -> int
    decreases errs.len(),
{
    if errs.len() == 0 {
        0
    } else {
        spec_err_weight(errs.drop_last(), failure, time) + if errs.last().0 == failure
            && errs.last().1 == time {
            errs.last().2 as int
        } else {
            0
        }
    }
}

/// The multiplicity of a failure in two collections together is the sum of
/// its multiplicities in each.
pub proof fn lemma_err_weight_concat(
    a: Seq<ErrUpdate>,
    b: Seq<ErrUpdate>,
    failure: DataflowError,
    time: Timestamp,
)
    ensures
        spec_err_weight(a + b, failure, time) == spec_err_weight(a, failure, time)
            + spec_err_weight(b, failure, time),
    decreases b.len(),
{
    if b.len() == 0 {
        assert(a + b =~= a);
    } else {
        assert((a + b).drop_last() =~= a + b.drop_last());
        assert((a + b).last() == b.last());
        lemma_err_weight_concat(a, b.drop_last(), failure, time);
    }
}

/// The multiplicity that a failure has at a time among the failures that
/// come with the arrangement `request`.
pub open spec fn spec_request_weight(
    inputs: Seq<CollectionBundle>,
    request: Request,
    failure: DataflowError,
    time: Timestamp,
) -> int {
    match spec_lookup(inputs, request.0, request.1) {
        Some(flavor) => spec_err_weight(flavor.spec_errs(), failure, time),
        None => 0,
    }
}

/// Among the failures that come with distinct arrangements, a failure that
/// only the arrangement `request` holds has the multiplicity that it has
/// there, where `request` is among the arrangements, and none where it is
/// not.
pub proof fn lemma_distinct_arrangements_fail_once(
    inputs: Seq<CollectionBundle>,
    resolved: Seq<Request>,
    request: Request,
    failure: DataflowError,
    time: Timestamp,
)
    requires
        forall|i: int, j: int| 0 <= i < j < resolved.len() ==> resolved[i] != resolved[j],
        forall|i: int|
            0 <= i < resolved.len() && resolved[i] != request ==> spec_request_weight(
                inputs,
                #[trigger] resolved[i],
                failure,
                time,
            ) == 0,
    ensures
        spec_err_weight(spec_arrangement_errs(inputs, resolved), failure, time) == if resolved.contains(
            request,
        ) {
            spec_request_weight(inputs, request, failure, time)
        } else {
            0
        },
    decreases resolved.len(),
{
    if resolved.len() > 0 {
        let shorter = resolved.drop_last();
        let last = resolved.last();
        assert(last == resolved[resolved.len() - 1]);
        assert forall|i: int, j: int| 0 <= i < j < shorter.len() implies shorter[i]
            != shorter[j] by {
            assert(shorter[i] == resolved[i] && shorter[j] == resolved[j]);
        }
        assert forall|i: int|
            0 <= i < shorter.len() && shorter[i] != request implies spec_request_weight(
            inputs,
            #[trigger] shorter[i],
            failure,
            time,
        ) == 0 by {
            assert(shorter[i] == resolved[i]);
        }
        lemma_distinct_arrangements_fail_once(inputs, shorter, request, failure, time);
        let rest = spec_arrangement_errs(inputs, shorter);
        match spec_lookup(inputs, last.0, last.1) {
            Some(flavor) => {
                lemma_err_weight_concat(rest, flavor.spec_errs(), failure, time);
            },
            None => {},
        }
        if shorter.contains(request) {
            let i = choose|i: int| 0 <= i < shorter.len() && shorter[i] == request;
            assert(resolved[i] == request);
            assert(last != request);
        } else if resolved.contains(request) {
            let i = choose|i: int| 0 <= i < resolved.len() && resolved[i] == request;
            if i < shorter.len() {
                assert(shorter[i] == request);
            }
            assert(last == request);
        } else {
            assert(last != request);
        }
    }
}

/// However many paths and stages of a delta join name an arrangement, the
/// failures that come with it enter the failures of the join once: a
/// failure that only this arrangement holds has, among the failures that
/// come with the arrangements of the join, the multiplicity that it has in
/// the arrangement.
pub proof fn lemma_arrangement_fails_once(
    inputs: Seq<CollectionBundle>,
    requests: Seq<Request>,
    request: Request,
    failure: DataflowError,
    time: Timestamp,
)
    requires
        requests.contains(request),
        forall|i: int|
            0 <= i < requests.len() && requests[i] != request ==> spec_request_weight(
                inputs,
                #[trigger] requests[i],
                failure,
                time,
            ) == 0,
    ensures
        spec_err_weight(
            spec_arrangement_errs(inputs, spec_resolved(requests)),
            failure,
            time,
        ) == spec_request_weight(inputs, request, failure, time),
{
    let resolved = spec_resolved(requests);
    lemma_resolved_once(requests);
    lemma_resolved_contains(requests, request);
    assert forall|i: int|
        0 <= i < resolved.len() && resolved[i] != request implies spec_request_weight(
        inputs,
        #[trigger] resolved[i],
        failure,
        time,
    ) == 0 by {
        lemma_resolved_contains(requests, resolved[i]);
        let j = choose|j: int| 0 <= j < requests.len() && requests[j] == resolved[i];
        assert(requests[j] != request);
    }
    lemma_distinct_arrangements_fail_once(inputs, resolved, request, failure, time);
}

/// The retraction of an arrangement: the same updates with the opposite
/// multiplicities.
pub open spec fn spec_retract_arranged(arranged: Seq<ArrangedView>) -> Seq<ArrangedView> {
    Seq::new(
        arranged.len(),
        |j: int| (arranged[j].0, arranged[j].1, arranged[j].2, (-arranged[j].3) as Diff),
    )
}

/// Whether every multiplicity of the arrangement has a negation, and the
/// half-join of the stream with the arrangement and with its retraction
/// multiplies only multiplicities whose product is a multiplicity.
pub open spec fn spec_lookup_retractable(
    tie: TimeComparison,
    prepared: Seq<PreparedView>,
    arranged: Seq<ArrangedView>,
) -> bool {
    &&& forall|j: int| 0 <= j < arranged.len() ==> (#[trigger] arranged[j]).3 != i64::MIN
    &&& forall|i: int, j: int|
        0 <= i < prepared.len() && 0 <= j < arranged.len() && spec_pairs(
            tie,
            #[trigger] prepared[i],
            #[trigger] arranged[j],
        ) ==> spec_product_fits(prepared[i].2, arranged[j].3) && spec_product_fits(
            prepared[i].2,
            (-arranged[j].3) as Diff,
        )
}

/// What a half-join hands on for one update of the stream and two
/// arrangements, one after the other, is what it hands on for the first,
/// followed by what it hands on for the second.
pub proof fn lemma_matches_concat(
    closure: &JoinClosure,
    tie: TimeComparison,
    alive: bool,
    p: PreparedView,
    a: Seq<ArrangedView>,
    b: Seq<ArrangedView>,
)
    ensures
        spec_matches(closure, tie, alive, p, a + b) == spec_matches(closure, tie, alive, p, a)
            + spec_matches(closure, tie, alive, p, b),
    decreases b.len(),
{
    if b.len() == 0 {
        assert(a + b =~= a);
    } else {
        assert((a + b).drop_last() =~= a + b.drop_last());
        assert((a + b).last() == b.last());
        lemma_matches_concat(closure, tie, alive, p, a, b.drop_last());
        let rest = spec_matches(closure, tie, alive, p, a) + spec_matches(
            closure,
            tie,
            alive,
            p,
            b.drop_last(),
        );
        match spec_pair(closure, tie, alive, p, b.last()) {
            Some(m) => {
                assert(rest.push(m) =~= spec_matches(closure, tie, alive, p, a) + spec_matches(
                    closure,
                    tie,
                    alive,
                    p,
                    b.drop_last(),
                ).push(m));
            },
            None => {},
        }
    }
}

/// What a half-join hands on for the retraction of an arrangement is the
/// retraction of what it hands on for the arrangement, and none of it has
/// the least multiplicity.
pub proof fn lemma_matches_of_lookup_retraction(
    closure: &JoinClosure,
    tie: TimeComparison,
    alive: bool,
    p: PreparedView,
    arranged: Seq<ArrangedView>,
)
    requires
        forall|j: int| 0 <= j < arranged.len() ==> (#[trigger] arranged[j]).3 != i64::MIN,
        forall|j: int|
            0 <= j < arranged.len() && spec_pairs(tie, p, #[trigger] arranged[j])
                ==> spec_product_fits(p.2, arranged[j].3) && spec_product_fits(
                p.2,
                (-arranged[j].3) as Diff,
            ),
    ensures
        spec_matches(closure, tie, alive, p, spec_retract_arranged(arranged))
            == spec_retract_matched(spec_matches(closure, tie, alive, p, arranged)),
        forall|i: int|
            0 <= i < spec_matches(closure, tie, alive, p, arranged).len() ==> (#[trigger] spec_matches(
                closure,
                tie,
                alive,
                p,
                arranged,
            )[i]).2 != i64::MIN,
    decreases arranged.len(),
{
    let r = spec_retract_arranged(arranged);
    if arranged.len() == 0 {
        assert(spec_retract_matched(Seq::<MatchedView>::empty()) =~= Seq::<MatchedView>::empty());
    } else {
        let shorter = arranged.drop_last();
        assert forall|j: int| 0 <= j < shorter.len() implies (#[trigger] shorter[j]).3
            != i64::MIN by {
            assert(shorter[j] == arranged[j]);
        }
        assert forall|j: int|
            0 <= j < shorter.len() && spec_pairs(tie, p, #[trigger] shorter[j])
                implies spec_product_fits(p.2, shorter[j].3) && spec_product_fits(
            p.2,
            (-shorter[j].3) as Diff,
        ) by {
            assert(shorter[j] == arranged[j]);
        }
        lemma_matches_of_lookup_retraction(closure, tie, alive, p, shorter);
        let a = arranged.last();
        assert(a == arranged[arranged.len() - 1]);
        assert(r.drop_last() =~= spec_retract_arranged(shorter));
        let b = (a.0, a.1, a.2, (-a.3) as Diff);
        assert(r.last() == b);
        let rest = spec_matches(closure, tie, alive, p, shorter);
        let all = spec_matches(closure, tie, alive, p, arranged);
        if spec_pairs(tie, p, a) && alive {
            assert(spec_pairs(tie, p, b));
            assert(spec_product_fits(p.2, a.3) && spec_product_fits(p.2, (-a.3) as Diff));
            assert(p.2 * (-a.3) == -(p.2 * a.3)) by (nonlinear_arith);
            let m = spec_pair(closure, tie, alive, p, a)->Some_0;
            let n = spec_pair(closure, tie, alive, p, b)->Some_0;
            assert(n == (m.0, m.1, (-m.2) as Diff));
            assert(spec_retract_matched(rest.push(m)) =~= spec_retract_matched(rest).push(n));
            assert(m.2 == p.2 * a.3);
        } else {
            assert(!spec_pairs(tie, p, b) || !alive);
        }
        assert forall|i: int| 0 <= i < all.len() implies (#[trigger] all[i]).2 != i64::MIN by {
            if i < rest.len() {
                assert(all[i] == rest[i]);
            }
        }
    }
}

/// The rows that come out for an update of the stream, an arrangement and
/// the retraction of the arrangement have the net multiplicity zero.
pub proof fn lemma_lookup_retraction_cancels_for_one(
    closure: &JoinClosure,
    tie: TimeComparison,
    alive: bool,
    p: PreparedView,
    arranged: Seq<ArrangedView>,
    data: (Seq<Datum>, Timestamp),
    initial: Timestamp,
)
    requires
        forall|j: int| 0 <= j < arranged.len() ==> (#[trigger] arranged[j]).3 != i64::MIN,
        forall|j: int|
            0 <= j < arranged.len() && spec_pairs(tie, p, #[trigger] arranged[j])
                ==> spec_product_fits(p.2, arranged[j].3) && spec_product_fits(
                p.2,
                (-arranged[j].3) as Diff,
            ),
    ensures
        spec_weight(
            spec_oks_of(
                spec_matches(closure, tie, alive, p, arranged + spec_retract_arranged(arranged)),
            ),
            data,
            initial,
        ) == 0,
{
    let met = spec_matches(closure, tie, alive, p, arranged);
    lemma_matches_concat(closure, tie, alive, p, arranged, spec_retract_arranged(arranged));
    lemma_matches_of_lookup_retraction(closure, tie, alive, p, arranged);
    lemma_split_concat(met, spec_retract_matched(met));
    lemma_oks_of_retraction(met);
    lemma_oks_are_among(met);
    let out = spec_oks_of(met);
    assert forall|i: int| 0 <= i < out.len() implies (#[trigger] out[i]).2 != i64::MIN by {
        let w = choose|w: int| 0 <= w < met.len() && met[w].2 == (#[trigger] out[i]).2;
        assert(met[w].2 != i64::MIN);
    }
    lemma_weight_of_retraction(out, data, initial);
    lemma_weight_concat(out, spec_retract(out), data, initial);
}

/// Retracting the updates of the lookup relation retracts what the stage
/// made of them: in what comes out of a stage for an arrangement followed
/// by its retraction, every row has the net multiplicity zero at every
/// time.
pub proof fn lemma_lookup_retraction_cancels(
    closure: &JoinClosure,
    tie: TimeComparison,
    alive: bool,
    prepared: Seq<PreparedView>,
    arranged: Seq<ArrangedView>,
    data: (Seq<Datum>, Timestamp),
    initial: Timestamp,
)
    requires
        spec_lookup_retractable(tie, prepared, arranged),
    ensures
        spec_weight(
            spec_oks_of(
                spec_half_join(
                    closure,
                    tie,
                    alive,
                    prepared,
                    arranged + spec_retract_arranged(arranged),
                ),
            ),
            data,
            initial,
        ) == 0,
    decreases prepared.len(),
{
    let both = arranged + spec_retract_arranged(arranged);
    if prepared.len() > 0 {
        let shorter = prepared.drop_last();
        assert(spec_lookup_retractable(tie, shorter, arranged)) by {
            assert forall|i: int, j: int|
                0 <= i < shorter.len() && 0 <= j < arranged.len() && spec_pairs(
                    tie,
                    #[trigger] shorter[i],
                    #[trigger] arranged[j],
                ) implies spec_product_fits(shorter[i].2, arranged[j].3) && spec_product_fits(
                shorter[i].2,
                (-arranged[j].3) as Diff,
            ) by {
                assert(shorter[i] == prepared[i]);
            }
        }
        lemma_lookup_retraction_cancels(closure, tie, alive, shorter, arranged, data, initial);
        let p = prepared.last();
        assert(p == prepared[prepared.len() - 1]);
        lemma_lookup_retraction_cancels_for_one(closure, tie, alive, p, arranged, data, initial);
        let done = spec_half_join(closure, tie, alive, shorter, both);
        let more = spec_matches(closure, tie, alive, p, both);
        lemma_split_concat(done, more);
        lemma_weight_concat(spec_oks_of(done), spec_oks_of(more), data, initial);
    }
}

} // verus!

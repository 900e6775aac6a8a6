//! The delta join of two relations and the join of what has accumulated.
//!
//! The join of two collections holds, for each update of the first and each
//! update of the second with the same key, the product of their
//! multiplicities, from the later of their two times on. The law of this
//! module says that the two paths of a delta join hand on just that: summed
//! up to any time, what the two paths have matched is what the join of the
//! inputs, as accumulated up to that time, holds. The law speaks of all
//! rows together. It holds of every pair of collections, and so of the
//! updates of any one row of the first and any one row of the second.
use vstd::prelude::*;
use crate::plan::join::JoinClosure;
use crate::render::context::ArrangedView;
use crate::render::half_join::{
    spec_half_join, spec_later, spec_matches, spec_pair, spec_pairs, spec_product_fits,
    MatchedView, PreparedView, TimeComparison,
};
use crate::render::laws::spec_as_stream;
use crate::repr::datum::Timestamp;

verus! {

/// The sum of `f` over the positions before `n`.
pub open spec fn spec_sum(n: nat, f: spec_fn(int) -> int) -> int
    decreases n,
{
    if n == 0 {
        0
    } else {
        spec_sum((n - 1) as nat, f) + f(n - 1)
    }
}

/// The sum of `f` over the pairs of a position before `n` and a position
/// before `m`.
pub open spec fn spec_sum_pairs(n: nat, m: nat, f: spec_fn(int, int) -> int) -> int
    decreases n,
{
    if n == 0 {
        0
    } else {
        spec_sum_pairs((n - 1) as nat, m, f) + spec_sum(m, |j: int| f(n - 1, j))
    }
}

/// Two functions that agree before `n` have the same sum before `n`.
pub proof fn lemma_sum_agrees(n: nat, f: spec_fn(int) -> int, g: spec_fn(int) -> int)
    requires
        forall|j: int| 0 <= j < n ==> #[trigger] f(j) == g(j),
    ensures
        spec_sum(n, f) == spec_sum(n, g),
    decreases n,
{
    if n > 0 {
        lemma_sum_agrees((n - 1) as nat, f, g);
    }
}

/// Two functions on pairs that agree on the pairs in range have the same
/// sum over them.
pub proof fn lemma_sum_pairs_agrees(
    n: nat,
    m: nat,
    f: spec_fn(int, int) -> int,
    g: spec_fn(int, int) -> int,
)
    requires
        forall|i: int, j: int| 0 <= i < n && 0 <= j < m ==> #[trigger] f(i, j) == g(i, j),
    ensures
        spec_sum_pairs(n, m, f) == spec_sum_pairs(n, m, g),
    decreases n,
{
    if n > 0 {
        lemma_sum_pairs_agrees((n - 1) as nat, m, f, g);
        lemma_sum_agrees(m, |j: int| f(n - 1, j), |j: int| g(n - 1, j));
    }
}

/// Where `h` is the sum of `f` and `g` at each position, the sum of `h` is
/// the sum of the sums of `f` and `g`.
pub proof fn lemma_sum_adds(
    n: nat,
    f: spec_fn(int) -> int,
    g: spec_fn(int) -> int,
    h: spec_fn(int) -> int,
)
    requires
        forall|j: int| 0 <= j < n ==> #[trigger] h(j) == f(j) + g(j),
    ensures
        spec_sum(n, f) + spec_sum(n, g) == spec_sum(n, h),
    decreases n,
{
    if n > 0 {
        lemma_sum_adds((n - 1) as nat, f, g, h);
    }
}

/// The law of [`lemma_sum_adds`], for pairs.
pub proof fn lemma_sum_pairs_adds(
    n: nat,
    m: nat,
    f: spec_fn(int, int) -> int,
    g: spec_fn(int, int) -> int,
    h: spec_fn(int, int) -> int,
)
    requires
        forall|i: int, j: int| 0 <= i < n && 0 <= j < m ==> #[trigger] h(i, j) == f(i, j) + g(i, j),
    ensures
        spec_sum_pairs(n, m, f) + spec_sum_pairs(n, m, g) == spec_sum_pairs(n, m, h),
    decreases n,
{
    if n > 0 {
        lemma_sum_pairs_adds((n - 1) as nat, m, f, g, h);
        lemma_sum_adds(m, |j: int| f(n - 1, j), |j: int| g(n - 1, j), |j: int| h(n - 1, j));
    }
}

/// Summing over the pairs with one position more in the second place adds
/// the sum over the first place at that position.
pub proof fn lemma_sum_pairs_widens(n: nat, m: nat, f: spec_fn(int, int) -> int)
    ensures
        spec_sum_pairs(n, m + 1, f) == spec_sum_pairs(n, m, f) + spec_sum(
            n,
            |i: int| f(i, m as int),
        ),
    decreases n,
{
    if n > 0 {
        lemma_sum_pairs_widens((n - 1) as nat, m, f);
        let row = |j: int| f(n - 1, j);
        assert(spec_sum(m + 1, row) == spec_sum(m, row) + row(m as int));
        let column = |i: int| f(i, m as int);
        assert(spec_sum(n, column) == spec_sum((n - 1) as nat, column) + column(n - 1));
    }
}

/// The sum over no pairs is zero.
pub proof fn lemma_sum_pairs_narrow(n: nat, f: spec_fn(int, int) -> int)
    ensures
        spec_sum_pairs(n, 0, f) == 0,
    decreases n,
{
    if n > 0 {
        lemma_sum_pairs_narrow((n - 1) as nat, f);
    }
}

/// A sum over pairs can be taken in either order.
pub proof fn lemma_sum_pairs_swaps(n: nat, m: nat, f: spec_fn(int, int) -> int)
    ensures
        spec_sum_pairs(n, m, f) == spec_sum_pairs(m, n, |j: int, i: int| f(i, j)),
    decreases m,
{
    let g = |j: int, i: int| f(i, j);
    if m == 0 {
        lemma_sum_pairs_narrow(n, f);
    } else {
        lemma_sum_pairs_swaps(n, (m - 1) as nat, f);
        lemma_sum_pairs_widens(n, (m - 1) as nat, f);
        lemma_sum_agrees(n, |i: int| f(i, m - 1), |i: int| g(m - 1, i));
    }
}

/// The multiplicity that has built up by `time` in what a half-join has
/// handed on: the sum of the multiplicities of the entries at or before
/// `time`.
pub open spec fn spec_total_by(matched: Seq<MatchedView>, time: Timestamp) -> int
    decreases matched.len(),
{
    if matched.len() == 0 {
        0
    } else {
        spec_total_by(matched.drop_last(), time) + if (matched.last().0).1 <= time {
            matched.last().2 as int
        } else {
            0
        }
    }
}

/// What a half-join adds by `time` for one update of the stream and one
/// update of the arrangement: the product of their multiplicities, where it
/// pairs them and the later of their times is at or before `time`.
pub open spec fn spec_pair_weight(
    tie: TimeComparison,
    p: PreparedView,
    a: ArrangedView,
    time: Timestamp,
) -> int {
    if spec_pairs(tie, p, a) && spec_later(a.2, (p.0).2) <= time {
        p.2 * a.3
    } else {
        0
    }
}

/// What the join of two collections holds by `time` for one update of the
/// first and one update of the second: the product of their
/// multiplicities, where they have the same key and both are at or before
/// `time`.
pub open spec fn spec_joined_weight(r: ArrangedView, s: ArrangedView, time: Timestamp) -> int {
    if r.0 == s.0 && r.2 <= time && s.2 <= time {
        r.3 * s.3
    } else {
        0
    }
}

/// What has built up in two lists of entries together is the sum of what
/// has built up in each.
pub proof fn lemma_total_concat(a: Seq<MatchedView>, b: Seq<MatchedView>, time: Timestamp)
    ensures
        spec_total_by(a + b, time) == spec_total_by(a, time) + spec_total_by(b, time),
    decreases b.len(),
{
    if b.len() == 0 {
        assert(a + b =~= a);
    } else {
        assert((a + b).drop_last() =~= a + b.drop_last());
        assert((a + b).last() == b.last());
        lemma_total_concat(a, b.drop_last(), time);
    }
}

/// What a half-join in a dataflow that runs hands on for one update of the
/// stream adds up, by any time, to the sum of what it adds for each update
/// of the arrangement.
pub proof fn lemma_matches_total(
    closure: &JoinClosure,
    tie: TimeComparison,
    p: PreparedView,
    arranged: Seq<ArrangedView>,
    time: Timestamp,
)
    requires
        forall|j: int|
            0 <= j < arranged.len() && spec_pairs(tie, p, #[trigger] arranged[j])
                ==> spec_product_fits(p.2, arranged[j].3),
    ensures
        spec_total_by(spec_matches(closure, tie, true, p, arranged), time) == spec_sum(
            arranged.len(),
            |j: int| spec_pair_weight(tie, p, arranged[j], time),
        ),
    decreases arranged.len(),
{
    if arranged.len() > 0 {
        let shorter = arranged.drop_last();
        assert forall|j: int|
            0 <= j < shorter.len() && spec_pairs(tie, p, #[trigger] shorter[j])
                implies spec_product_fits(p.2, shorter[j].3) by {
            assert(shorter[j] == arranged[j]);
        }
        lemma_matches_total(closure, tie, p, shorter, time);
        lemma_sum_agrees(
            shorter.len(),
            |j: int| spec_pair_weight(tie, p, shorter[j], time),
            |j: int| spec_pair_weight(tie, p, arranged[j], time),
        );
        let a = arranged.last();
        assert(a == arranged[arranged.len() - 1]);
        let rest = spec_matches(closure, tie, true, p, shorter);
        match spec_pair(closure, tie, true, p, a) {
            Some(m) => {
                assert(rest.push(m).drop_last() =~= rest);
                assert(rest.push(m).last() == m);
                assert(spec_product_fits(p.2, a.3));
            },
            None => {},
        }
    }
}

/// What a half-join in a dataflow that runs hands on for a stream adds up,
/// by any time, to the sum of what it adds for each pair of an update of
/// the stream and an update of the arrangement.
pub proof fn lemma_half_join_total(
    closure: &JoinClosure,
    tie: TimeComparison,
    prepared: Seq<PreparedView>,
    arranged: Seq<ArrangedView>,
    time: Timestamp,
)
    requires
        forall|i: int, j: int|
            0 <= i < prepared.len() && 0 <= j < arranged.len() && spec_pairs(
                tie,
                #[trigger] prepared[i],
                #[trigger] arranged[j],
            ) ==> spec_product_fits(prepared[i].2, arranged[j].3),
    ensures
        spec_total_by(spec_half_join(closure, tie, true, prepared, arranged), time)
            == spec_sum_pairs(
            prepared.len(),
            arranged.len(),
            |i: int, j: int| spec_pair_weight(tie, prepared[i], arranged[j], time),
        ),
    decreases prepared.len(),
{
    if prepared.len() > 0 {
        let shorter = prepared.drop_last();
        assert forall|i: int, j: int|
            0 <= i < shorter.len() && 0 <= j < arranged.len() && spec_pairs(
                tie,
                #[trigger] shorter[i],
                #[trigger] arranged[j],
            ) implies spec_product_fits(shorter[i].2, arranged[j].3) by {
            assert(shorter[i] == prepared[i]);
        }
        lemma_half_join_total(closure, tie, shorter, arranged, time);
        lemma_sum_pairs_agrees(
            shorter.len(),
            arranged.len(),
            |i: int, j: int| spec_pair_weight(tie, shorter[i], arranged[j], time),
            |i: int, j: int| spec_pair_weight(tie, prepared[i], arranged[j], time),
        );
        let p = prepared.last();
        assert(p == prepared[prepared.len() - 1]);
        lemma_matches_total(closure, tie, p, arranged, time);
        let f = |i: int, j: int| spec_pair_weight(tie, prepared[i], arranged[j], time);
        lemma_sum_agrees(
            arranged.len(),
            |j: int| spec_pair_weight(tie, p, arranged[j], time),
            |j: int| f(prepared.len() - 1, j),
        );
        lemma_total_concat(
            spec_half_join(closure, tie, true, shorter, arranged),
            spec_matches(closure, tie, true, p, arranged),
            time,
        );
    }
}

/// By every time, what the two paths of a delta join of two relations have
/// matched adds up to what the join of the two relations holds, as they
/// have accumulated up to that time: for each update of the first relation
/// and each update of the second with the same key, both at or before that
/// time, the product of their multiplicities. No match is missing from the
/// sum and none enters it twice.
pub proof fn lemma_delta_join_accumulates_the_join(
    first_closure: &JoinClosure,
    second_closure: &JoinClosure,
    first: Seq<ArrangedView>,
    second: Seq<ArrangedView>,
    time: Timestamp,
)
    requires
        forall|i: int, j: int|
            0 <= i < first.len() && 0 <= j < second.len() && (#[trigger] first[i]).0 == (
            #[trigger] second[j]).0 ==> spec_product_fits(first[i].3, second[j].3),
    ensures
        spec_total_by(
            spec_half_join(
                first_closure,
                TimeComparison::spec_between(0, 1),
                true,
                spec_as_stream(first),
                second,
            ),
            time,
        ) + spec_total_by(
            spec_half_join(
                second_closure,
                TimeComparison::spec_between(1, 0),
                true,
                spec_as_stream(second),
                first,
            ),
            time,
        ) == spec_sum_pairs(
            first.len(),
            second.len(),
            |i: int, j: int| spec_joined_weight(first[i], second[j], time),
        ),
{
    let le = TimeComparison::spec_between(0, 1);
    let lt = TimeComparison::spec_between(1, 0);
    let a = spec_as_stream(first);
    let b = spec_as_stream(second);
    let n = first.len();
    let m = second.len();
    let f = |i: int, j: int| spec_pair_weight(le, a[i], second[j], time);
    let g_swapped = |j: int, i: int| spec_pair_weight(lt, b[j], first[i], time);
    let g = |i: int, j: int| g_swapped(j, i);
    let h = |i: int, j: int| spec_joined_weight(first[i], second[j], time);
    assert forall|i: int, j: int|
        0 <= i < a.len() && 0 <= j < second.len() && spec_pairs(
            le,
            #[trigger] a[i],
            #[trigger] second[j],
        ) implies spec_product_fits(a[i].2, second[j].3) by {
        assert(first[i].0 == second[j].0);
    }
    assert forall|j: int, i: int|
        0 <= j < b.len() && 0 <= i < first.len() && spec_pairs(
            lt,
            #[trigger] b[j],
            #[trigger] first[i],
        ) implies spec_product_fits(b[j].2, first[i].3) by {
        assert(first[i].0 == second[j].0);
        assert(spec_product_fits(first[i].3, second[j].3));
        assert(second[j].3 * first[i].3 == first[i].3 * second[j].3) by (nonlinear_arith);
    }
    lemma_half_join_total(first_closure, le, a, second, time);
    lemma_half_join_total(second_closure, lt, b, first, time);
    lemma_sum_pairs_swaps(m, n, g_swapped);
    lemma_sum_pairs_agrees(n, m, |i: int, j: int| g_swapped(j, i), g);
    assert forall|i: int, j: int| 0 <= i < n && 0 <= j < m implies #[trigger] h(i, j) == f(i, j)
        + g(i, j) by {
        assert(second[j].3 * first[i].3 == first[i].3 * second[j].3) by (nonlinear_arith);
    }
    lemma_sum_pairs_adds(n, m, f, g, h);
}

} // verus!

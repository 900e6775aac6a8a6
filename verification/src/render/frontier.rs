//! The as-of frontier of a dataflow.
use vstd::prelude::*;
use timely::progress::Antichain;
use crate::repr::datum::Timestamp;

verus! {

/// `Antichain` of timely: a collection of times that is meant to hold no
/// two times of which one is less than or equal to the other. Nothing is
/// known of what is inside but through [`spec_elements`].
#[verifier::external_type_specification]
#[verifier::external_body]
#[verifier::reject_recursive_types(T)]
pub struct ExAntichain<T>(Antichain<T>);

/// The elements that an antichain of timely holds, in the order in which
/// it holds them.
pub uninterp spec fn spec_elements(frontier: &Antichain<Timestamp>) -> Seq<Timestamp>;

/// Whether some element of `elements` is less than or equal to `time`.
pub open spec fn spec_dominated(elements: Seq<Timestamp>, time: Timestamp) -> bool {
    exists|i: int| 0 <= i < elements.len() && elements[i] <= time
}

/// The elements of an antichain of timestamps after `time` is offered to
/// it: they stay as they are where one of them is at or before `time`, and
/// else `time` takes the place of all of them.
pub open spec fn spec_insert(elements: Seq<Timestamp>, time: Timestamp) -> Seq<Timestamp> {
    if spec_dominated(elements, time) {
        elements
    } else {
        seq![time]
    }
}

/// The elements of an antichain that starts out with `start` and is
/// offered the first `n` elements of `times`, one after the other.
pub open spec fn spec_insert_all(start: Seq<Timestamp>, times: Seq<Timestamp>, n: int) -> Seq<
    Timestamp,
>
    decreases n,
{
    if 0 < n <= times.len() {
        spec_insert(spec_insert_all(start, times, n - 1), times[n - 1])
    } else {
        start
    }
}

/// Whether `time` is the least of `times`.
pub open spec fn spec_is_least(times: Seq<Timestamp>, time: Timestamp) -> bool {
    &&& exists|i: int| 0 <= i < times.len() && times[i] == time
    &&& forall|i: int| 0 <= i < times.len() ==> time <= times[i]
}

/// `Antichain::new` of timely: the antichain without elements.
#[verifier::external_body]
fn antichain_new() -> (frontier: Antichain<Timestamp>)
    ensures
        spec_elements(&frontier) == Seq::<Timestamp>::empty(),
{
    Antichain::new()
}

/// `Antichain::insert` of timely, on timestamps, which are totally
/// ordered. The source leaves the antichain as it is, and returns `false`,
/// where an element of it is less than or equal to the new one. Else it
/// retains the elements that the new one is not less than or equal to,
/// appends the new one, and returns `true`; among totally ordered
/// timestamps none is retained then, since each is greater than the new
/// one.
#[verifier::external_body]
fn antichain_insert(frontier: &mut Antichain<Timestamp>, element: Timestamp) -> (added: bool)
    ensures
        spec_elements(final(frontier)) == spec_insert(spec_elements(old(frontier)), element),
        added == !spec_dominated(spec_elements(old(frontier)), element),
{
    frontier.insert(element)
}

/// `Antichain::elements` of timely: the elements of the antichain, as a
/// slice.
#[verifier::external_body]
fn antichain_elements(frontier: &Antichain<Timestamp>) -> (elements: &[Timestamp])
    ensures
        elements@ == spec_elements(frontier),
{
    frontier.elements()
}

/// Offering times to an empty antichain one after the other leaves it with
/// the least of them, and empty where there are none.
pub proof fn lemma_insert_all_keeps_least(times: Seq<Timestamp>, n: int)
    requires
        0 <= n <= times.len(),
    ensures
        n == 0 ==> spec_insert_all(Seq::empty(), times, n) == Seq::<Timestamp>::empty(),
        n > 0 ==> spec_insert_all(Seq::empty(), times, n).len() == 1 && spec_is_least(
            times.take(n),
            spec_insert_all(Seq::empty(), times, n)[0],
        ),
    decreases n,
{
    if n > 0 {
        lemma_insert_all_keeps_least(times, n - 1);
        let before = spec_insert_all(Seq::empty(), times, n - 1);
        let after = spec_insert_all(Seq::empty(), times, n);
        let t = times[n - 1];
        let prefix = times.take(n);
        assert(prefix[n - 1] == t);
        if n == 1 {
            assert(!spec_dominated(before, t));
            assert(after == seq![t]);
            assert(spec_is_least(prefix, t));
        } else {
            let m = before[0];
            let shorter = times.take(n - 1);
            assert(spec_is_least(shorter, m));
            assert forall|i: int| 0 <= i < n - 1 implies prefix[i] == shorter[i] by {}
            if spec_dominated(before, t) {
                let w = choose|i: int| 0 <= i < before.len() && before[i] <= t;
                assert(w == 0);
                assert(after == before);
                let k = choose|i: int| 0 <= i < shorter.len() && shorter[i] == m;
                assert(prefix[k] == m);
                assert forall|i: int| 0 <= i < prefix.len() implies m <= prefix[i] by {
                    if i < n - 1 {
                        assert(prefix[i] == shorter[i]);
                    }
                }
            } else {
                assert(!(before[0] <= t));
                assert(after == seq![t]);
                assert forall|i: int| 0 <= i < prefix.len() implies t <= prefix[i] by {
                    if i < n - 1 {
                        assert(prefix[i] == shorter[i]);
                        assert(m <= shorter[i]);
                    }
                }
            }
        }
    }
}

/// Whether an update at `time` is one that was there when the dataflow
/// started: `time` is the least element of the as-of frontier.
pub open spec fn spec_at_as_of(as_of: Seq<Timestamp>, time: Timestamp) -> bool {
    spec_is_least(as_of, time)
}

/// Brings the as-of frontier into the form in which updates are compared
/// with it: an antichain that is offered each element of `as_of` in turn.
/// It holds the least element of `as_of`, and nothing where `as_of` is
/// empty.
pub fn inner_as_of(as_of: &Antichain<Timestamp>) -> (inner: Antichain<Timestamp>)
    ensures
        spec_elements(&inner) == spec_insert_all(
            Seq::empty(),
            spec_elements(as_of),
            spec_elements(as_of).len() as int,
        ),
        spec_elements(as_of).len() == 0 ==> spec_elements(&inner).len() == 0,
        spec_elements(as_of).len() > 0 ==> spec_elements(&inner).len() == 1 && spec_is_least(
            spec_elements(as_of),
            spec_elements(&inner)[0],
        ),
{
    let mut inner = antichain_new();
    let elements = antichain_elements(as_of);
    let mut i: usize = 0;
    while i < elements.len()
        invariant
            i <= elements.len(),
            elements@ == spec_elements(as_of),
            spec_elements(&inner) == spec_insert_all(Seq::empty(), elements@, i as int),
        decreases elements.len() - i,
    {
        let _ = antichain_insert(&mut inner, elements[i]);
        i = i + 1;
    }
    proof {
        lemma_insert_all_keeps_least(elements@, elements@.len() as int);
        assert(elements@.take(elements@.len() as int) =~= elements@);
    }
    inner
}

/// Reports whether `time` is none of the elements of the frontier.
pub fn beyond(frontier: &Antichain<Timestamp>, time: Timestamp) -> (b: bool)
    ensures
        b == !spec_elements(frontier).contains(time),
{
    let elements = antichain_elements(frontier);
    let mut i: usize = 0;
    while i < elements.len()
        invariant
            i <= elements.len(),
            elements@ == spec_elements(frontier),
            forall|j: int| 0 <= j < i ==> elements@[j] != time,
        decreases elements.len() - i,
    {
        if elements[i] == time {
            return false;
        }
        i = i + 1;
    }
    true
}

} // verus!

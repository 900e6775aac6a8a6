//! Delta joins: how the paths of a delta join are put together.
use vstd::prelude::*;
use timely::progress::Antichain;
use crate::expr::error::{DataflowError, EvalError};
use crate::expr::scalar::{same_exprs, MirScalarExpr};
use crate::plan::join::{DeltaJoinPlan, DeltaPathPlan, JoinClosure};
use crate::render::context::{
    spec_arranged, spec_stream, spec_updates, ArrangedUpdate, ArrangedView, ArrangementFlavor,
    CollectionBundle, Context, ErrUpdate, StreamUpdate, StreamView, Update, UpdateView,
};
use crate::render::frontier::{beyond, inner_as_of, spec_at_as_of, spec_elements};
use crate::render::half_join::{
    build_halfjoin, extend_with, is_stage_ready, spec_stage_errs, spec_stage_oks,
    spec_stage_ready, TimeComparison,
};
use crate::repr::datum::Timestamp;
use crate::repr::datum_vec::DatumVec;
use crate::repr::row::Row;

verus! {

/// Whether the path of relation `source_relation` sees an update of its
/// source at `time`. What was there when the dataflow started is seen by
/// the path of the first relation only.
pub open spec fn spec_visible(source_relation: usize, as_of: Seq<Timestamp>, time: Timestamp) -> bool {
    source_relation == 0 || !spec_at_as_of(as_of, time)
}

/// What the start of a path makes of one update of its source, given that
/// the path sees it: the key and the rest of the row put together, handed
/// through the initial closure where there is one that is not the
/// identity.
pub open spec fn spec_source_update(closure: &Option<JoinClosure>, a: ArrangedView) -> Option<
    Result<UpdateView, ErrUpdate>,
> {
    let datums = a.0 + a.1;
    match closure {
        Some(c) => if c.spec_is_identity() {
            Some(Ok((datums, a.2, a.3)))
        } else {
            match c.spec_apply(datums) {
                Ok(Some(row)) => Some(Ok((row, a.2, a.3))),
                Ok(None) => None,
                Err(e) => Some(Err((DataflowError::EvalError(e), a.2, a.3))),
            }
        },
        None => Some(Ok((datums, a.2, a.3))),
    }
}

/// The updates that a path starts with, in the order of the arrangement of
/// its source.
pub open spec fn spec_update_oks(
    arranged: Seq<ArrangedView>,
    as_of: Seq<Timestamp>,
    source_relation: usize,
    closure: &Option<JoinClosure>,
) -> Seq<UpdateView>
    decreases arranged.len(),
{
    if arranged.len() == 0 {
        Seq::empty()
    } else {
        let rest = spec_update_oks(arranged.drop_last(), as_of, source_relation, closure);
        let a = arranged.last();
        if spec_visible(source_relation, as_of, a.2) {
            match spec_source_update(closure, a) {
                Some(Ok(u)) => rest.push(u),
                _ => rest,
            }
        } else {
            rest
        }
    }
}

/// The failures of the initial closure of a path, in the order of the
/// arrangement of its source.
pub open spec fn spec_update_errs(
    arranged: Seq<ArrangedView>,
    as_of: Seq<Timestamp>,
    source_relation: usize,
    closure: &Option<JoinClosure>,
) -> Seq<ErrUpdate>
    decreases arranged.len(),
{
    if arranged.len() == 0 {
        Seq::empty()
    } else {
        let rest = spec_update_errs(arranged.drop_last(), as_of, source_relation, closure);
        let a = arranged.last();
        if spec_visible(source_relation, as_of, a.2) {
            match spec_source_update(closure, a) {
                Some(Err(e)) => rest.push(e),
                _ => rest,
            }
        } else {
            rest
        }
    }
}

/// Builds the beginning of the update stream of a delta path.
///
/// When the dataflow starts, only the delta path of the first relation sees
/// updates: what the other paths would make of them would be discarded
/// anyway by the tie-break that keeps updates at one time on different
/// relations from being counted twice. So an update at the as-of frontier
/// is seen only where `source_relation` is zero.
pub fn build_update_stream(
    trace: &Vec<ArrangedUpdate>,
    as_of: &Antichain<Timestamp>,
    source_relation: usize,
    initial_closure: &Option<JoinClosure>,
) -> (out: (Vec<Update>, Vec<ErrUpdate>))
    ensures
        spec_updates(out.0@) == spec_update_oks(
            spec_arranged(trace@),
            spec_elements(as_of),
            source_relation,
            initial_closure,
        ),
        out.1@ == spec_update_errs(
            spec_arranged(trace@),
            spec_elements(as_of),
            source_relation,
            initial_closure,
        ),
{
    let ghost av = spec_arranged(trace@);
    let inner = inner_as_of(as_of);
    let mut datums = DatumVec::new();
    let mut oks: Vec<Update> = Vec::new();
    let mut errs: Vec<ErrUpdate> = Vec::new();
    let mut i: usize = 0;
    while i < trace.len()
        invariant
            i <= trace.len(),
            av == spec_arranged(trace@),
            forall|t: Timestamp|
                spec_elements(&inner).contains(t) <==> spec_at_as_of(spec_elements(as_of), t),
            spec_updates(oks@) == spec_update_oks(
                av.take(i as int),
                spec_elements(as_of),
                source_relation,
                initial_closure,
            ),
            errs@ == spec_update_errs(
                av.take(i as int),
                spec_elements(as_of),
                source_relation,
                initial_closure,
            ),
        decreases trace.len() - i,
    {
        proof {
            assert(av.take(i as int + 1).drop_last() =~= av.take(i as int));
            assert(av.take(i as int + 1).last() == av[i as int]);
        }
        let (key, val, time, diff) = &trace[i];
        assert(av[i as int] == (key@, val@, *time, *diff));
        // Only the delta path for the first relation sees updates at
        // start-up time.
        if source_relation == 0 || beyond(&inner, *time) {
            let mut datums_local = datums.borrow();
            extend_with(&mut datums_local, key);
            extend_with(&mut datums_local, val);
            let ghost old_oks = oks@;
            match initial_closure {
                Some(closure) if !closure.is_identity() => {
                    match closure.apply(&mut datums_local) {
                        Ok(Some(row)) => {
                            let ghost rv = row@;
                            oks.push((row, *time, *diff));
                            proof {
                                assert(spec_updates(oks@) =~= spec_updates(old_oks).push(
                                    (rv, *time, *diff),
                                ));
                            }
                        },
                        Ok(None) => {},
                        Err(err) => {
                            errs.push((DataflowError::from(err), *time, *diff));
                        },
                    }
                },
                _ => {
                    let row = Row::pack_slice(datums_local.as_slice());
                    let ghost rv = row@;
                    oks.push((row, *time, *diff));
                    proof {
                        assert(spec_updates(oks@) =~= spec_updates(old_oks).push(
                            (rv, *time, *diff),
                        ));
                    }
                },
            }
        }
        i = i + 1;
    }
    proof {
        assert(av.take(trace@.len() as int) =~= av);
    }
    (oks, errs)
}

/// The updates of a collection as they enter a delta path: the time of
/// each update is paired with its row, and kept as the initial time.
pub open spec fn spec_promote(updates: Seq<UpdateView>) -> Seq<StreamView> {
    Seq::new(updates.len(), |i: int| ((updates[i].0, updates[i].1), updates[i].1, updates[i].2))
}

/// The updates of a delta path as they leave it: each at the time that is
/// paired with its row. The initial time is dropped.
pub open spec fn spec_restore(stream: Seq<StreamView>) -> Seq<UpdateView> {
    Seq::new(stream.len(), |i: int| ((stream[i].0).0, (stream[i].0).1, stream[i].2))
}

/// Promotes the time of each update to a part of its data. The initial
/// time of each update is its time.
pub fn promote(updates: Vec<Update>) -> (stream: Vec<StreamUpdate>)
    ensures
        spec_stream(stream@) == spec_promote(spec_updates(updates@)),
{
    let mut stream: Vec<StreamUpdate> = Vec::new();
    let mut i: usize = 0;
    while i < updates.len()
        invariant
            i <= updates.len(),
            stream@.len() == i,
            forall|j: int|
                0 <= j < i ==> ((#[trigger] stream@[j]).0).0@ == updates@[j].0@ && (stream@[j].0).1
                    == updates@[j].1 && stream@[j].1 == updates@[j].1 && stream@[j].2
                    == updates@[j].2,
        decreases updates.len() - i,
    {
        let (v, t, d) = &updates[i];
        stream.push(((v.clone(), *t), *t, *d));
        i = i + 1;
    }
    proof {
        assert(spec_stream(stream@) =~= spec_promote(spec_updates(updates@)));
    }
    stream
}

/// Replaces the time of each update by the time that is kept with its row,
/// and drops the initial time.
pub fn restore(stream: Vec<StreamUpdate>) -> (updates: Vec<Update>)
    ensures
        spec_updates(updates@) == spec_restore(spec_stream(stream@)),
{
    let mut updates: Vec<Update> = Vec::new();
    let mut i: usize = 0;
    while i < stream.len()
        invariant
            i <= stream.len(),
            updates@.len() == i,
            forall|j: int|
                0 <= j < i ==> (#[trigger] updates@[j]).0@ == (stream@[j].0).0@ && updates@[j].1 == (
                stream@[j].0).1 && updates@[j].2 == stream@[j].2,
        decreases stream.len() - i,
    {
        let ((row, time), _, diff) = &stream[i];
        updates.push((row.clone(), *time, *diff));
        i = i + 1;
    }
    proof {
        assert(spec_updates(updates@) =~= spec_restore(spec_stream(stream@)));
    }
    updates
}

/// The rows that the final closure of a path hands on, in order.
pub open spec fn spec_finish_oks(updates: Seq<UpdateView>, closure: &JoinClosure) -> Seq<UpdateView>
    decreases updates.len(),
{
    if updates.len() == 0 {
        Seq::empty()
    } else {
        let rest = spec_finish_oks(updates.drop_last(), closure);
        let u = updates.last();
        match closure.spec_apply(u.0) {
            Ok(Some(row)) => rest.push((row, u.1, u.2)),
            _ => rest,
        }
    }
}

/// The failures of the final closure of a path, in order: each at the time
/// of its update and with the multiplicity of its update.
pub open spec fn spec_finish_errs(updates: Seq<UpdateView>, closure: &JoinClosure) -> Seq<ErrUpdate>
    decreases updates.len(),
{
    if updates.len() == 0 {
        Seq::empty()
    } else {
        let rest = spec_finish_errs(updates.drop_last(), closure);
        let u = updates.last();
        match closure.spec_apply(u.0) {
            Err(e) => rest.push((DataflowError::EvalError(e), u.1, u.2)),
            _ => rest,
        }
    }
}

/// Applies the final closure of a path to each update. A row on which the
/// closure fails goes to the failures, at its time and with its
/// multiplicity; a row that the closure filters out goes nowhere.
pub fn finish(updates: &Vec<Update>, final_closure: &JoinClosure) -> (out: (
    Vec<Update>,
    Vec<ErrUpdate>,
))
    ensures
        spec_updates(out.0@) == spec_finish_oks(spec_updates(updates@), final_closure),
        out.1@ == spec_finish_errs(spec_updates(updates@), final_closure),
{
    let ghost uv = spec_updates(updates@);
    // Reuseable allocation for unpacking.
    let mut datums = DatumVec::new();
    let mut oks: Vec<Update> = Vec::new();
    let mut errs: Vec<ErrUpdate> = Vec::new();
    let mut i: usize = 0;
    while i < updates.len()
        invariant
            i <= updates.len(),
            uv == spec_updates(updates@),
            spec_updates(oks@) == spec_finish_oks(uv.take(i as int), final_closure),
            errs@ == spec_finish_errs(uv.take(i as int), final_closure),
        decreases updates.len() - i,
    {
        proof {
            assert(uv.take(i as int + 1).drop_last() =~= uv.take(i as int));
            assert(uv.take(i as int + 1).last() == uv[i as int]);
        }
        let (row, time, diff) = &updates[i];
        assert(uv[i as int] == (row@, *time, *diff));
        let mut datums_local = datums.borrow_with(row);
        let ghost old_oks = oks@;
        match final_closure.apply(&mut datums_local) {
            Ok(Some(out)) => {
                let ghost rv = out@;
                oks.push((out, *time, *diff));
                proof {
                    assert(spec_updates(oks@) =~= spec_updates(old_oks).push((rv, *time, *diff)));
                }
            },
            Ok(None) => {},
            Err(err) => {
                errs.push((DataflowError::from(err), *time, *diff));
            },
        }
        i = i + 1;
    }
    proof {
        assert(uv.take(updates@.len() as int) =~= uv);
    }
    (oks, errs)
}

/// A request for an arrangement: a relation and the key by which it is to
/// be arranged.
pub type Request = (usize, Seq<MirScalarExpr>);

/// The arrangement of relation `relation` by `key`, if the inputs have it.
pub open spec fn spec_lookup(
    inputs: Seq<CollectionBundle>,
    relation: usize,
    key: Seq<MirScalarExpr>,
) -> Option<ArrangementFlavor> {
    if relation < inputs.len() {
        inputs[relation as int].spec_arrangement(key)
    } else {
        None
    }
}

/// The updates of the arrangement of relation `relation` by `key`.
pub open spec fn spec_lookup_oks(
    inputs: Seq<CollectionBundle>,
    relation: usize,
    key: Seq<MirScalarExpr>,
) -> Seq<ArrangedView> {
    match spec_lookup(inputs, relation, key) {
        Some(flavor) => spec_arranged(flavor.spec_oks()),
        None => Seq::empty(),
    }
}

/// The arrangement that a path reads its source from.
pub open spec fn spec_source_request(path: &DeltaPathPlan) -> Request {
    (path.source_relation, path.source_key@)
}

/// The arrangement that stage `k` of a path looks up.
pub open spec fn spec_stage_request(path: &DeltaPathPlan, k: int) -> Request {
    (path.stage_plans@[k].lookup_relation, path.stage_plans@[k].lookup_key@)
}

/// The arrangements that one path names: that of its source, and then
/// those that its stages look up, in the order of the stages.
pub open spec fn spec_requests_of(path: &DeltaPathPlan) -> Seq<Request> {
    seq![spec_source_request(path)] + Seq::new(
        path.stage_plans@.len(),
        |k: int| spec_stage_request(path, k),
    )
}

/// Whether the inputs have each of the arrangements `requests`.
pub open spec fn spec_served(inputs: Seq<CollectionBundle>, requests: Seq<Request>) -> bool {
    forall|i: int|
        0 <= i < requests.len() ==> spec_lookup(inputs, (#[trigger] requests[i]).0, requests[i].1)
            is Some
}

/// The arrangements that some paths name, in the order of the paths: for
/// each path its source, and then what its stages look up.
pub open spec fn spec_requests(paths: Seq<DeltaPathPlan>) -> Seq<Request>
    decreases paths.len(),
{
    if paths.len() == 0 {
        Seq::empty()
    } else {
        spec_requests(paths.drop_last()) + spec_requests_of(&paths.last())
    }
}

/// The requests without repetitions: each where it occurs first.
pub open spec fn spec_resolved(requests: Seq<Request>) -> Seq<Request>
    decreases requests.len(),
{
    if requests.len() == 0 {
        Seq::empty()
    } else {
        let rest = spec_resolved(requests.drop_last());
        if rest.contains(requests.last()) {
            rest
        } else {
            rest.push(requests.last())
        }
    }
}

/// The failures that come with the arrangements `resolved`, in order.
pub open spec fn spec_arrangement_errs(inputs: Seq<CollectionBundle>, resolved: Seq<Request>) -> Seq<
    ErrUpdate,
>
    decreases resolved.len(),
{
    if resolved.len() == 0 {
        Seq::empty()
    } else {
        let rest = spec_arrangement_errs(inputs, resolved.drop_last());
        match spec_lookup(inputs, resolved.last().0, resolved.last().1) {
            Some(flavor) => rest + flavor.spec_errs(),
            None => rest,
        }
    }
}

/// The stream of a path before its stage `k`; with `k` the number of its
/// stages, the stream after its last stage.
pub open spec fn spec_path_stream(
    inputs: Seq<CollectionBundle>,
    path: &DeltaPathPlan,
    as_of: Seq<Timestamp>,
    alive: bool,
    k: int,
) -> Seq<StreamView>
    decreases k,
{
    if 0 < k <= path.stage_plans@.len() {
        let stage = path.stage_plans@[k - 1];
        spec_stage_oks(
            spec_path_stream(inputs, path, as_of, alive, k - 1),
            spec_lookup_oks(inputs, stage.lookup_relation, stage.lookup_key@),
            stage.stream_key@,
            stage.stream_thinning@,
            TimeComparison::spec_between(path.source_relation, stage.lookup_relation),
            &stage.closure,
            alive,
        )
    } else {
        spec_promote(
            spec_update_oks(
                spec_lookup_oks(inputs, path.source_relation, path.source_key@),
                as_of,
                path.source_relation,
                &path.initial_closure,
            ),
        )
    }
}

/// The failures of a path up to its stage `k`: those of its initial
/// closure, then those of each stage before `k`, in order.
pub open spec fn spec_path_stage_errs(
    inputs: Seq<CollectionBundle>,
    path: &DeltaPathPlan,
    as_of: Seq<Timestamp>,
    alive: bool,
    k: int,
) -> Seq<ErrUpdate>
    decreases k,
{
    if 0 < k <= path.stage_plans@.len() {
        let stage = path.stage_plans@[k - 1];
        spec_path_stage_errs(inputs, path, as_of, alive, k - 1) + spec_stage_errs(
            spec_path_stream(inputs, path, as_of, alive, k - 1),
            spec_lookup_oks(inputs, stage.lookup_relation, stage.lookup_key@),
            stage.stream_key@,
            stage.stream_thinning@,
            TimeComparison::spec_between(path.source_relation, stage.lookup_relation),
            &stage.closure,
            alive,
        )
    } else {
        spec_update_errs(
            spec_lookup_oks(inputs, path.source_relation, path.source_key@),
            as_of,
            path.source_relation,
            &path.initial_closure,
        )
    }
}

/// The updates of a path after its last stage, each at the time that is
/// kept with its row.
pub open spec fn spec_path_restored(
    inputs: Seq<CollectionBundle>,
    path: &DeltaPathPlan,
    as_of: Seq<Timestamp>,
    alive: bool,
) -> Seq<UpdateView> {
    spec_restore(spec_path_stream(inputs, path, as_of, alive, path.stage_plans@.len() as int))
}

/// The updates that a path contributes to the join.
pub open spec fn spec_path_oks(
    inputs: Seq<CollectionBundle>,
    path: &DeltaPathPlan,
    as_of: Seq<Timestamp>,
    alive: bool,
) -> Seq<UpdateView> {
    match path.final_closure {
        Some(closure) => spec_finish_oks(
            spec_path_restored(inputs, path, as_of, alive),
            &closure,
        ),
        None => spec_path_restored(inputs, path, as_of, alive),
    }
}

/// The failures that a path contributes to the join: those of its initial
/// closure, those of its stages in order, and those of its final closure.
pub open spec fn spec_path_errs(
    inputs: Seq<CollectionBundle>,
    path: &DeltaPathPlan,
    as_of: Seq<Timestamp>,
    alive: bool,
) -> Seq<ErrUpdate> {
    let staged = spec_path_stage_errs(
        inputs,
        path,
        as_of,
        alive,
        path.stage_plans@.len() as int,
    );
    match path.final_closure {
        Some(closure) => staged + spec_finish_errs(
            spec_path_restored(inputs, path, as_of, alive),
            &closure,
        ),
        None => staged,
    }
}

/// Whether every stage of a path can run on the stream that reaches it.
pub open spec fn spec_path_ready(
    inputs: Seq<CollectionBundle>,
    path: &DeltaPathPlan,
    as_of: Seq<Timestamp>,
    alive: bool,
) -> bool {
    forall|k: int|
        0 <= k < path.stage_plans@.len() ==> spec_stage_ready(
            spec_path_stream(inputs, path, as_of, alive, k),
            spec_lookup_oks(
                inputs,
                (#[trigger] path.stage_plans@[k]).lookup_relation,
                path.stage_plans@[k].lookup_key@,
            ),
            path.stage_plans@[k].stream_key@,
            path.stage_plans@[k].stream_thinning@,
            TimeComparison::spec_between(
                path.source_relation,
                path.stage_plans@[k].lookup_relation,
            ),
            &path.stage_plans@[k].closure,
            alive,
        )
}

/// The updates that some paths contribute to the join, in the order of the
/// paths.
pub open spec fn spec_paths_oks(
    inputs: Seq<CollectionBundle>,
    paths: Seq<DeltaPathPlan>,
    as_of: Seq<Timestamp>,
    alive: bool,
) -> Seq<UpdateView>
    decreases paths.len(),
{
    if paths.len() == 0 {
        Seq::empty()
    } else {
        spec_paths_oks(inputs, paths.drop_last(), as_of, alive) + spec_path_oks(
            inputs,
            &paths.last(),
            as_of,
            alive,
        )
    }
}

/// The failures that some paths contribute to the join, in the order of
/// the paths.
pub open spec fn spec_paths_errs(
    inputs: Seq<CollectionBundle>,
    paths: Seq<DeltaPathPlan>,
    as_of: Seq<Timestamp>,
    alive: bool,
) -> Seq<ErrUpdate>
    decreases paths.len(),
{
    if paths.len() == 0 {
        Seq::empty()
    } else {
        spec_paths_errs(inputs, paths.drop_last(), as_of, alive) + spec_path_errs(
            inputs,
            &paths.last(),
            as_of,
            alive,
        )
    }
}

/// The updates of a delta join: those of all its paths.
pub open spec fn spec_join_oks(
    inputs: Seq<CollectionBundle>,
    plan: &DeltaJoinPlan,
    as_of: Seq<Timestamp>,
    alive: bool,
) -> Seq<UpdateView> {
    spec_paths_oks(inputs, plan.path_plans@, as_of, alive)
}

/// The failures of a delta join: those that come with the arrangements
/// that its paths name, each arrangement counted once, and then those of
/// all its paths.
pub open spec fn spec_join_errs(
    inputs: Seq<CollectionBundle>,
    plan: &DeltaJoinPlan,
    as_of: Seq<Timestamp>,
    alive: bool,
) -> Seq<ErrUpdate> {
    spec_arrangement_errs(inputs, spec_resolved(spec_requests(plan.path_plans@)))
        + spec_paths_errs(inputs, plan.path_plans@, as_of, alive)
}

/// Whether a delta join can be rendered: the inputs have every
/// arrangement that a path names, be it for its source or for the lookup of
/// a stage; and every stage of every path can run on the stream that
/// reaches it.
pub open spec fn spec_join_ready(
    inputs: Seq<CollectionBundle>,
    plan: &DeltaJoinPlan,
    as_of: Seq<Timestamp>,
    alive: bool,
) -> bool {
    &&& forall|p: int|
        0 <= p < plan.path_plans@.len() ==> spec_served(
            inputs,
            spec_requests_of(&#[trigger] plan.path_plans@[p]),
        )
    &&& forall|p: int|
        0 <= p < plan.path_plans@.len() ==> spec_path_ready(
            inputs,
            &#[trigger] plan.path_plans@[p],
            as_of,
            alive,
        )
}

/// Appends the failures `more` to `errs`.
pub fn extend_errs(errs: &mut Vec<ErrUpdate>, more: &Vec<ErrUpdate>)
    ensures
        final(errs)@ == old(errs)@ + more@,
{
    let mut i: usize = 0;
    while i < more.len()
        invariant
            i <= more.len(),
            errs@ == old(errs)@ + more@.take(i as int),
        decreases more.len() - i,
    {
        errs.push(more[i]);
        proof {
            assert(old(errs)@ + more@.take(i as int + 1) =~= (old(errs)@ + more@.take(
                i as int,
            )).push(more@[i as int]));
        }
        i = i + 1;
    }
    proof {
        assert(more@.take(more@.len() as int) =~= more@);
    }
}

/// An arrangement that the renderer has resolved: the relation, the key,
/// and the arrangement.
pub type Resolved<'a> = (usize, &'a Vec<MirScalarExpr>, &'a ArrangementFlavor);

/// The requests that a list of resolved arrangements answers.
pub open spec fn spec_answered(arrangements: Seq<Resolved>) -> Seq<Request> {
    Seq::new(arrangements.len(), |i: int| (arrangements[i].0, arrangements[i].1@))
}

/// Finds the arrangement of `relation` by `key` among the resolved ones.
pub fn find_resolved(arrangements: &Vec<Resolved>, relation: usize, key: &Vec<MirScalarExpr>) -> (at:
    Option<usize>)
    ensures
        match at {
            Some(i) => {
                &&& i < arrangements@.len()
                &&& spec_answered(arrangements@)[i as int] == (relation, key@)
                &&& forall|j: int| 0 <= j < i ==> spec_answered(arrangements@)[j] != (relation, key@)
            },
            None => !spec_answered(arrangements@).contains((relation, key@)),
        },
{
    let mut i: usize = 0;
    while i < arrangements.len()
        invariant
            i <= arrangements.len(),
            forall|j: int| 0 <= j < i ==> spec_answered(arrangements@)[j] != (relation, key@),
        decreases arrangements.len() - i,
    {
        let (r, k, _) = &arrangements[i];
        if *r == relation && same_exprs(k, key) {
            return Some(i);
        }
        i = i + 1;
    }
    None
}

/// A request is among the requests without repetitions exactly if it is
/// among the requests.
pub proof fn lemma_resolved_contains(requests: Seq<Request>, r: Request)
    ensures
        spec_resolved(requests).contains(r) <==> requests.contains(r),
    decreases requests.len(),
{
    if requests.len() > 0 {
        let rest = spec_resolved(requests.drop_last());
        lemma_resolved_contains(requests.drop_last(), r);
        lemma_resolved_contains(requests.drop_last(), requests.last());
        if requests.contains(r) {
            let i = choose|i: int| 0 <= i < requests.len() && requests[i] == r;
            if i < requests.len() - 1 {
                assert(requests.drop_last()[i] == r);
            }
        }
        if requests.drop_last().contains(r) {
            let i = choose|i: int| 0 <= i < requests.drop_last().len() && requests.drop_last()[i] == r;
            assert(requests[i] == r);
        }
        if !rest.contains(requests.last()) {
            let pushed = rest.push(requests.last());
            if pushed.contains(r) {
                let i = choose|i: int| 0 <= i < pushed.len() && pushed[i] == r;
                if i < rest.len() {
                    assert(rest[i] == r);
                }
            }
            if rest.contains(r) {
                let i = choose|i: int| 0 <= i < rest.len() && rest[i] == r;
                assert(pushed[i] == r);
            }
            if r == requests.last() {
                assert(pushed[rest.len() as int] == r);
                assert(requests[requests.len() - 1] == r);
            }
        } else {
            if r == requests.last() {
                assert(requests[requests.len() - 1] == r);
            }
        }
    }
}

/// Whether each resolved arrangement is the arrangement that the inputs
/// have for its relation and its key.
pub open spec fn spec_resolved_from(inputs: Seq<CollectionBundle>, arrangements: Seq<Resolved>) -> bool {
    forall|i: int|
        0 <= i < arrangements.len() ==> spec_lookup(
            inputs,
            (#[trigger] arrangements[i]).0,
            arrangements[i].1@,
        ) == Some(*arrangements[i].2)
}

/// Resolves one request: where no arrangement of this relation by this key
/// is resolved yet, asks the inputs for it and takes the failures that come
/// with it.
fn resolve_one<'a>(
    inputs: &'a Vec<CollectionBundle>,
    arrangements: &mut Vec<Resolved<'a>>,
    inner_errs: &mut Vec<ErrUpdate>,
    relation: usize,
    key: &'a Vec<MirScalarExpr>,
    Ghost(seen): Ghost<Seq<Request>>,
)
    requires
        spec_lookup(inputs@, relation, key@) is Some,
        spec_answered(old(arrangements)@) == spec_resolved(seen),
        spec_resolved_from(inputs@, old(arrangements)@),
        old(inner_errs)@ == spec_arrangement_errs(inputs@, spec_answered(old(arrangements)@)),
    ensures
        spec_answered(final(arrangements)@) == spec_resolved(seen.push((relation, key@))),
        spec_resolved_from(inputs@, final(arrangements)@),
        final(inner_errs)@ == spec_arrangement_errs(
            inputs@,
            spec_answered(final(arrangements)@),
        ),
{
    proof {
        let next = seen.push((relation, key@));
        assert(next.drop_last() =~= seen);
        assert(next.last() == (relation, key@));
    }
    if find_resolved(arrangements, relation, key).is_none() {
        let flavor = inputs[relation].arrangement(key).unwrap();
        let ghost old_answered = spec_answered(arrangements@);
        let ghost old_errs = inner_errs@;
        extend_errs(inner_errs, flavor.errs());
        arrangements.push((relation, key, flavor));
        proof {
            let answered = spec_answered(arrangements@);
            assert(answered =~= old_answered.push((relation, key@)));
            assert(answered.drop_last() =~= old_answered);
            assert(inner_errs@ =~= old_errs + flavor.spec_errs());
        }
    }
}

/// Prepares the arrangements that the paths of a delta join name.
///
/// Each arrangement is asked for once, where a path first names it, be it
/// for its source or for the lookup of a stage, and the failures that come
/// with it are taken once, at that moment. Paths and stages that name the
/// same relation by the same key share the arrangement.
pub fn resolve_arrangements<'a>(inputs: &'a Vec<CollectionBundle>, join_plan: &'a DeltaJoinPlan) -> (out:
    (Vec<Resolved<'a>>, Vec<ErrUpdate>))
    requires
        forall|p: int|
            0 <= p < join_plan.path_plans@.len() ==> spec_served(
                inputs@,
                spec_requests_of(&#[trigger] join_plan.path_plans@[p]),
            ),
    ensures
        spec_answered(out.0@) == spec_resolved(spec_requests(join_plan.path_plans@)),
        spec_resolved_from(inputs@, out.0@),
        out.1@ == spec_arrangement_errs(inputs@, spec_answered(out.0@)),
{
    let mut inner_errs: Vec<ErrUpdate> = Vec::new();
    let mut arrangements: Vec<Resolved<'a>> = Vec::new();
    let ghost paths = join_plan.path_plans@;
    let mut p: usize = 0;
    while p < join_plan.path_plans.len()
        invariant
            p <= join_plan.path_plans.len(),
            paths == join_plan.path_plans@,
            forall|p: int|
                0 <= p < paths.len() ==> spec_served(inputs@, spec_requests_of(&#[trigger] paths[p])),
            spec_answered(arrangements@) == spec_resolved(spec_requests(paths.take(p as int))),
            spec_resolved_from(inputs@, arrangements@),
            inner_errs@ == spec_arrangement_errs(inputs@, spec_answered(arrangements@)),
        decreases join_plan.path_plans.len() - p,
    {
        let path_plan = &join_plan.path_plans[p];
        let ghost wanted = spec_requests_of(path_plan);
        let ghost earlier = spec_requests(paths.take(p as int));
        proof {
            assert(spec_served(inputs@, spec_requests_of(&paths[p as int])));
            assert(wanted[0] == spec_source_request(path_plan));
            assert(earlier.push(wanted[0]) =~= earlier + wanted.take(1));
        }
        resolve_one(
            inputs,
            &mut arrangements,
            &mut inner_errs,
            path_plan.source_relation,
            &path_plan.source_key,
            Ghost(earlier),
        );
        let mut k: usize = 0;
        while k < path_plan.stage_plans.len()
            invariant
                k <= path_plan.stage_plans.len(),
                p < join_plan.path_plans.len(),
                paths == join_plan.path_plans@,
                *path_plan == paths[p as int],
                wanted == spec_requests_of(path_plan),
                earlier == spec_requests(paths.take(p as int)),
                spec_served(inputs@, wanted),
                spec_answered(arrangements@) == spec_resolved(earlier + wanted.take(k as int + 1)),
                spec_resolved_from(inputs@, arrangements@),
                inner_errs@ == spec_arrangement_errs(inputs@, spec_answered(arrangements@)),
            decreases path_plan.stage_plans.len() - k,
        {
            let stage_plan = &path_plan.stage_plans[k];
            proof {
                assert(wanted[k as int + 1] == spec_stage_request(path_plan, k as int));
                assert((earlier + wanted.take(k as int + 1)).push(wanted[k as int + 1]) =~= earlier
                    + wanted.take(k as int + 2));
            }
            resolve_one(
                inputs,
                &mut arrangements,
                &mut inner_errs,
                stage_plan.lookup_relation,
                &stage_plan.lookup_key,
                Ghost(earlier + wanted.take(k as int + 1)),
            );
            k = k + 1;
        }
        proof {
            assert(wanted.take(path_plan.stage_plans@.len() as int + 1) =~= wanted);
            assert(paths.take(p as int + 1).drop_last() =~= paths.take(p as int));
            assert(paths.take(p as int + 1).last() == paths[p as int]);
        }
        p = p + 1;
    }
    proof {
        assert(paths.take(paths.len() as int) =~= paths);
    }
    (arrangements, inner_errs)
}

/// Reports whether the inputs have the arrangement of `relation` by `key`.
pub fn has_arrangement(inputs: &Vec<CollectionBundle>, relation: usize, key: &Vec<MirScalarExpr>) -> (b:
    bool)
    ensures
        b == (spec_lookup(inputs@, relation, key@) is Some),
{
    relation < inputs.len() && inputs[relation].arrangement(key).is_some()
}

/// Reports whether the inputs have every arrangement that a path names.
pub fn serves(inputs: &Vec<CollectionBundle>, path_plan: &DeltaPathPlan) -> (b: bool)
    ensures
        b == spec_served(inputs@, spec_requests_of(path_plan)),
{
    let ghost wanted = spec_requests_of(path_plan);
    if !has_arrangement(inputs, path_plan.source_relation, &path_plan.source_key) {
        assert(wanted[0] == spec_source_request(path_plan));
        return false;
    }
    let mut k: usize = 0;
    while k < path_plan.stage_plans.len()
        invariant
            k <= path_plan.stage_plans.len(),
            wanted == spec_requests_of(path_plan),
            forall|i: int|
                0 <= i < k + 1 ==> spec_lookup(inputs@, (#[trigger] wanted[i]).0, wanted[i].1)
                    is Some,
        decreases path_plan.stage_plans.len() - k,
    {
        let stage_plan = &path_plan.stage_plans[k];
        assert(wanted[k as int + 1] == spec_stage_request(path_plan, k as int));
        if !has_arrangement(inputs, stage_plan.lookup_relation, &stage_plan.lookup_key) {
            return false;
        }
        k = k + 1;
    }
    true
}

/// Appending updates appends their values.
pub proof fn lemma_updates_concat(a: Seq<Update>, b: Seq<Update>)
    ensures
        spec_updates(a + b) == spec_updates(a) + spec_updates(b),
{
    assert(spec_updates(a + b) =~= spec_updates(a) + spec_updates(b));
}

impl Context {
    /// Renders one delta path: the changes to the join that the updates of
    /// one relation cause.
    ///
    /// The stream starts with the updates of the source relation. It runs
    /// through the stages in order; at each moment it holds the columns of
    /// the relations met so far, as far as the closures have kept them.
    /// Each stage presents the updates of its lookup relation that are at
    /// or before the update of the stream where the source relation comes
    /// before the lookup relation, and those strictly before it otherwise.
    fn render_path(
        &self,
        Ghost(inputs): Ghost<Seq<CollectionBundle>>,
        arrangements: &Vec<Resolved>,
        path_plan: &DeltaPathPlan,
    ) -> (out: (Vec<Update>, Vec<ErrUpdate>))
        requires
            spec_resolved_from(inputs, arrangements@),
            spec_answered(arrangements@).contains(
                (path_plan.source_relation, path_plan.source_key@),
            ),
            forall|k: int|
                0 <= k < path_plan.stage_plans@.len() ==> spec_answered(arrangements@).contains(
                    (
                        (#[trigger] path_plan.stage_plans@[k]).lookup_relation,
                        path_plan.stage_plans@[k].lookup_key@,
                    ),
                ),
            spec_path_ready(
                inputs,
                path_plan,
                spec_elements(&self.as_of_frontier),
                !self.shutdown_probe.in_shutdown(),
            ),
        ensures
            spec_updates(out.0@) == spec_path_oks(
                inputs,
                path_plan,
                spec_elements(&self.as_of_frontier),
                !self.shutdown_probe.in_shutdown(),
            ),
            out.1@ == spec_path_errs(
                inputs,
                path_plan,
                spec_elements(&self.as_of_frontier),
                !self.shutdown_probe.in_shutdown(),
            ),
    {
        let ghost as_of = spec_elements(&self.as_of_frontier);
        let ghost alive = !self.shutdown_probe.in_shutdown();
        let source_relation = path_plan.source_relation;
        // Collects the failures of the path.
        let mut region_errs: Vec<ErrUpdate> = Vec::new();
        // Ensure this input is rendered, and extract its update stream.
        let at = find_resolved(arrangements, source_relation, &path_plan.source_key).unwrap();
        let val = arrangements[at].2;
        let (update_stream, mut err_stream) = build_update_stream(
            val.oks(),
            &self.as_of_frontier,
            source_relation,
            &path_plan.initial_closure,
        );
        region_errs.append(&mut err_stream);
        // Promote `time` to a datum element.
        //
        // A half-join handles as data a pair of a row and a time, and hands
        // the initial time on beside it, unchanged. Both start out as the
        // time of the update.
        let mut update_stream = promote(update_stream);
        // Repeatedly update `update_stream` to reflect joins with more and
        // more other relations, in the specified order.
        let mut k: usize = 0;
        while k < path_plan.stage_plans.len()
            invariant
                k <= path_plan.stage_plans.len(),
                as_of == spec_elements(&self.as_of_frontier),
                alive == !self.shutdown_probe.in_shutdown(),
                source_relation == path_plan.source_relation,
                spec_resolved_from(inputs, arrangements@),
                forall|k: int|
                    0 <= k < path_plan.stage_plans@.len() ==> spec_answered(
                        arrangements@,
                    ).contains(
                        (
                            (#[trigger] path_plan.stage_plans@[k]).lookup_relation,
                            path_plan.stage_plans@[k].lookup_key@,
                        ),
                    ),
                spec_path_ready(inputs, path_plan, as_of, alive),
                spec_stream(update_stream@) == spec_path_stream(
                    inputs,
                    path_plan,
                    as_of,
                    alive,
                    k as int,
                ),
                region_errs@ == spec_path_stage_errs(inputs, path_plan, as_of, alive, k as int),
            decreases path_plan.stage_plans.len() - k,
        {
            let stage_plan = &path_plan.stage_plans[k];
            let lookup_relation = stage_plan.lookup_relation;
            assert(spec_answered(arrangements@).contains(
                (
                    path_plan.stage_plans@[k as int].lookup_relation,
                    path_plan.stage_plans@[k as int].lookup_key@,
                ),
            ));
            let at = find_resolved(arrangements, lookup_relation, &stage_plan.lookup_key).unwrap();
            let looked_up = arrangements[at].2;
            // The logic depends on the relative order of the two inputs.
            // If the source relation precedes the lookup relation, all
            // updates at a time less than or equal to the time of the
            // stream update are presented, and else only those at a
            // strictly lesser time.
            let comparison = if source_relation < lookup_relation {
                TimeComparison::LessEqual
            } else {
                TimeComparison::LessThan
            };
            let (oks, mut errs) = build_halfjoin(
                update_stream,
                looked_up.oks(),
                &stage_plan.stream_key,
                &stage_plan.stream_thinning,
                comparison,
                &stage_plan.closure,
                self.shutdown_probe,
            );
            update_stream = oks;
            region_errs.append(&mut errs);
            k = k + 1;
        }
        // Delay updates as appropriate.
        //
        // The initial time that the half-joins handed on is dropped now,
        // and the time that was kept with the data takes its place.
        let mut update_stream = restore(update_stream);
        // The join is built, but work may remain: expressions that could
        // not be pushed down, and projections that could not be applied.
        match &path_plan.final_closure {
            Some(final_closure) => {
                let (updates, mut errors) = finish(&update_stream, final_closure);
                update_stream = updates;
                region_errs.append(&mut errors);
            },
            None => {},
        }
        (update_stream, region_errs)
    }

    /// Reports whether every stage of a path can run on the stream that
    /// reaches it.
    fn is_path_ready(&self, inputs: &Vec<CollectionBundle>, path_plan: &DeltaPathPlan) -> (b: bool)
        requires
            spec_served(inputs@, spec_requests_of(path_plan)),
        ensures
            b == spec_path_ready(
                inputs@,
                path_plan,
                spec_elements(&self.as_of_frontier),
                !self.shutdown_probe.in_shutdown(),
            ),
    {
        let ghost as_of = spec_elements(&self.as_of_frontier);
        let ghost alive = !self.shutdown_probe.in_shutdown();
        let ghost wanted = spec_requests_of(path_plan);
        let source_relation = path_plan.source_relation;
        assert(wanted[0] == spec_source_request(path_plan));
        let source = inputs[source_relation].arrangement(&path_plan.source_key).unwrap();
        let (update_stream, _) = build_update_stream(
            source.oks(),
            &self.as_of_frontier,
            source_relation,
            &path_plan.initial_closure,
        );
        let mut update_stream = promote(update_stream);
        let mut k: usize = 0;
        while k < path_plan.stage_plans.len()
            invariant
                k <= path_plan.stage_plans.len(),
                as_of == spec_elements(&self.as_of_frontier),
                alive == !self.shutdown_probe.in_shutdown(),
                source_relation == path_plan.source_relation,
                wanted == spec_requests_of(path_plan),
                spec_served(inputs@, wanted),
                spec_stream(update_stream@) == spec_path_stream(
                    inputs@,
                    path_plan,
                    as_of,
                    alive,
                    k as int,
                ),
                forall|j: int|
                    0 <= j < k ==> spec_stage_ready(
                        spec_path_stream(inputs@, path_plan, as_of, alive, j),
                        spec_lookup_oks(
                            inputs@,
                            (#[trigger] path_plan.stage_plans@[j]).lookup_relation,
                            path_plan.stage_plans@[j].lookup_key@,
                        ),
                        path_plan.stage_plans@[j].stream_key@,
                        path_plan.stage_plans@[j].stream_thinning@,
                        TimeComparison::spec_between(
                            path_plan.source_relation,
                            path_plan.stage_plans@[j].lookup_relation,
                        ),
                        &path_plan.stage_plans@[j].closure,
                        alive,
                    ),
            decreases path_plan.stage_plans.len() - k,
        {
            let stage_plan = &path_plan.stage_plans[k];
            let lookup_relation = stage_plan.lookup_relation;
            assert(wanted[k as int + 1] == spec_stage_request(path_plan, k as int));
            let looked_up = inputs[lookup_relation].arrangement(&stage_plan.lookup_key).unwrap();
            let comparison = TimeComparison::between(source_relation, lookup_relation);
            if !is_stage_ready(
                &update_stream,
                looked_up.oks(),
                &stage_plan.stream_key,
                &stage_plan.stream_thinning,
                comparison,
                &stage_plan.closure,
                self.shutdown_probe,
            ) {
                assert(path_plan.stage_plans@[k as int] == *stage_plan);
                return false;
            }
            let (oks, _) = build_halfjoin(
                update_stream,
                looked_up.oks(),
                &stage_plan.stream_key,
                &stage_plan.stream_thinning,
                comparison,
                &stage_plan.closure,
                self.shutdown_probe,
            );
            update_stream = oks;
            k = k + 1;
        }
        true
    }

    /// Reports whether a delta join can be rendered: whether
    /// [`Context::render_delta_join`] may be called with these inputs and
    /// this plan. The inputs must have every arrangement that the plan
    /// names, and every stage must be able to run on the stream that
    /// reaches it: each row has the columns that the stage keeps, no
    /// product of multiplicities overflows, and no closure fails that says
    /// it cannot.
    pub fn is_join_ready(&self, inputs: &Vec<CollectionBundle>, join_plan: &DeltaJoinPlan) -> (b:
        bool)
        ensures
            b == spec_join_ready(
                inputs@,
                join_plan,
                spec_elements(&self.as_of_frontier),
                !self.shutdown_probe.in_shutdown(),
            ),
    {
        let ghost as_of = spec_elements(&self.as_of_frontier);
        let ghost alive = !self.shutdown_probe.in_shutdown();
        let ghost paths = join_plan.path_plans@;
        let mut p: usize = 0;
        while p < join_plan.path_plans.len()
            invariant
                p <= join_plan.path_plans.len(),
                paths == join_plan.path_plans@,
                as_of == spec_elements(&self.as_of_frontier),
                alive == !self.shutdown_probe.in_shutdown(),
                forall|q: int|
                    0 <= q < p ==> spec_served(inputs@, spec_requests_of(&#[trigger] paths[q])),
                forall|q: int|
                    0 <= q < p ==> spec_path_ready(inputs@, &#[trigger] paths[q], as_of, alive),
            decreases join_plan.path_plans.len() - p,
        {
            let path_plan = &join_plan.path_plans[p];
            assert(*path_plan == paths[p as int]);
            if !serves(inputs, path_plan) {
                return false;
            }
            if !self.is_path_ready(inputs, path_plan) {
                return false;
            }
            p = p + 1;
        }
        true
    }

    /// Renders a join as a set of delta paths, one for each input, where
    /// the join can be rendered, and returns nothing where it cannot.
    pub fn try_render_delta_join(&self, inputs: Vec<CollectionBundle>, join_plan: DeltaJoinPlan) -> (bundle:
        Option<CollectionBundle>)
        ensures
            bundle is Some <==> spec_join_ready(
                inputs@,
                &join_plan,
                spec_elements(&self.as_of_frontier),
                !self.shutdown_probe.in_shutdown(),
            ),
            bundle matches Some(b) ==> {
                &&& b.arranged@.len() == 0
                &&& b.collection is Some
                &&& spec_updates((b.collection->Some_0).0@) == spec_join_oks(
                    inputs@,
                    &join_plan,
                    spec_elements(&self.as_of_frontier),
                    !self.shutdown_probe.in_shutdown(),
                )
                &&& (b.collection->Some_0).1@ == spec_join_errs(
                    inputs@,
                    &join_plan,
                    spec_elements(&self.as_of_frontier),
                    !self.shutdown_probe.in_shutdown(),
                )
            },
    {
        if self.is_join_ready(&inputs, &join_plan) {
            Some(self.render_delta_join(inputs, join_plan))
        } else {
            None
        }
    }

    /// Renders a join as a set of delta paths, one for each input.
    ///
    /// The arrangements that the paths name, for their sources and for the
    /// lookups of their stages, are prepared first, each once. Then each
    /// path is rendered. The result holds the updates of
    /// all paths; its failures are those that come with the arrangements,
    /// followed by those of the paths.
    pub fn render_delta_join(&self, inputs: Vec<CollectionBundle>, join_plan: DeltaJoinPlan) -> (bundle:
        CollectionBundle)
        requires
            spec_join_ready(
                inputs@,
                &join_plan,
                spec_elements(&self.as_of_frontier),
                !self.shutdown_probe.in_shutdown(),
            ),
        ensures
            bundle.arranged@.len() == 0,
            bundle.collection is Some,
            spec_updates((bundle.collection->Some_0).0@) == spec_join_oks(
                inputs@,
                &join_plan,
                spec_elements(&self.as_of_frontier),
                !self.shutdown_probe.in_shutdown(),
            ),
            (bundle.collection->Some_0).1@ == spec_join_errs(
                inputs@,
                &join_plan,
                spec_elements(&self.as_of_frontier),
                !self.shutdown_probe.in_shutdown(),
            ),
    {
        let ghost as_of = spec_elements(&self.as_of_frontier);
        let ghost alive = !self.shutdown_probe.in_shutdown();
        let ghost paths = join_plan.path_plans@;
        // First prepare the input arrangements that will be needed. This
        // avoids redundant imports, and deduplicates the error streams of
        // multiply used arrangements.
        let (arrangements, mut inner_errs) = resolve_arrangements(&inputs, &join_plan);
        let ghost shared_errs = inner_errs@;
        // Collects the results of the paths.
        let mut join_results: Vec<Update> = Vec::new();
        let mut p: usize = 0;
        while p < join_plan.path_plans.len()
            invariant
                p <= join_plan.path_plans.len(),
                paths == join_plan.path_plans@,
                as_of == spec_elements(&self.as_of_frontier),
                alive == !self.shutdown_probe.in_shutdown(),
                spec_join_ready(inputs@, &join_plan, as_of, alive),
                spec_answered(arrangements@) == spec_resolved(spec_requests(paths)),
                spec_resolved_from(inputs@, arrangements@),
                spec_updates(join_results@) == spec_paths_oks(
                    inputs@,
                    paths.take(p as int),
                    as_of,
                    alive,
                ),
                inner_errs@ == shared_errs + spec_paths_errs(
                    inputs@,
                    paths.take(p as int),
                    as_of,
                    alive,
                ),
            decreases join_plan.path_plans.len() - p,
        {
            let path_plan = &join_plan.path_plans[p];
            proof {
                assert(paths.take(p as int + 1).drop_last() =~= paths.take(p as int));
                assert(paths.take(p as int + 1).last() == paths[p as int]);
                let requests = spec_requests(paths);
                lemma_requests_contain(paths, p as int, 0);
                lemma_resolved_contains(requests, spec_source_request(path_plan));
                assert forall|k: int| 0 <= k < path_plan.stage_plans@.len() implies spec_answered(
                    arrangements@,
                ).contains(
                    (
                        (#[trigger] path_plan.stage_plans@[k]).lookup_relation,
                        path_plan.stage_plans@[k].lookup_key@,
                    ),
                ) by {
                    lemma_requests_contain(paths, p as int, k + 1);
                    lemma_resolved_contains(requests, spec_stage_request(path_plan, k));
                }
                assert(spec_path_ready(inputs@, &paths[p as int], as_of, alive));
            }
            // This collection determines changes that result from updates
            // inbound from the source relation of the path, and reflects
            // all strictly prior updates and concurrent updates from
            // relations prior to it.
            let (mut path_results, mut path_errs) = self.render_path(
                Ghost(inputs@),
                &arrangements,
                path_plan,
            );
            proof {
                lemma_updates_concat(join_results@, path_results@);
            }
            inner_errs.append(&mut path_errs);
            join_results.append(&mut path_results);
            proof {
                assert(inner_errs@ =~= shared_errs + spec_paths_errs(
                    inputs@,
                    paths.take(p as int + 1),
                    as_of,
                    alive,
                ));
            }
            p = p + 1;
        }
        proof {
            assert(paths.take(paths.len() as int) =~= paths);
        }
        // Concatenate the results of each delta query as the accumulated
        // results.
        CollectionBundle::from_collections(join_results, inner_errs)
    }
}

/// What a path names is among the requests of the paths.
pub proof fn lemma_requests_contain(paths: Seq<DeltaPathPlan>, p: int, i: int)
    requires
        0 <= p < paths.len(),
        0 <= i < spec_requests_of(&paths[p]).len(),
    ensures
        spec_requests(paths).contains(spec_requests_of(&paths[p])[i]),
    decreases paths.len(),
{
    let r = spec_requests_of(&paths[p])[i];
    let before = spec_requests(paths.drop_last());
    let last = spec_requests_of(&paths.last());
    if p == paths.len() - 1 {
        assert((before + last)[before.len() + i] == r);
    } else {
        assert(paths.drop_last()[p] == paths[p]);
        lemma_requests_contain(paths.drop_last(), p, i);
        let j = choose|j: int| 0 <= j < before.len() && before[j] == r;
        assert((before + last)[j] == r);
    }
}

} // verus!

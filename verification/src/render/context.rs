//! The collections that the renderer works on.
use vstd::prelude::*;
use timely::progress::Antichain;
use crate::expr::error::DataflowError;
use crate::expr::scalar::{same_exprs, MirScalarExpr};
use crate::plan::tree::GlobalId;
use crate::repr::datum::{Datum, Diff, Timestamp};
use crate::repr::row::Row;

verus! {

/// An update of a collection: a row, the time of the change, and the change
/// of the multiplicity of the row.
pub type Update = (Row, Timestamp, Diff);

/// An update of an error collection.
pub type ErrUpdate = (DataflowError, Timestamp, Diff);

/// An update inside a delta path. The time of the update is paired with the
/// row; the initial time stays as it was when the update entered the path.
pub type StreamUpdate = ((Row, Timestamp), Timestamp, Diff);

/// An update of an arrangement: a key, the rest of the row, a time and a
/// change of multiplicity.
pub type ArrangedUpdate = (Row, Row, Timestamp, Diff);

/// An update as a mathematical value.
pub type UpdateView = (Seq<Datum>, Timestamp, Diff);

/// An update inside a delta path as a mathematical value.
pub type StreamView = ((Seq<Datum>, Timestamp), Timestamp, Diff);

/// An update of an arrangement as a mathematical value.
pub type ArrangedView = (Seq<Datum>, Seq<Datum>, Timestamp, Diff);

/// The values of a sequence of updates.
pub open spec fn spec_updates(updates: Seq<Update>) -> Seq<UpdateView> {
    Seq::new(updates.len(), |i: int| (updates[i].0@, updates[i].1, updates[i].2))
}

/// The values of a sequence of updates inside a delta path.
pub open spec fn spec_stream(updates: Seq<StreamUpdate>) -> Seq<StreamView> {
    Seq::new(
        updates.len(),
        |i: int| (((updates[i].0).0@, (updates[i].0).1), updates[i].1, updates[i].2),
    )
}

/// The values of a sequence of updates of an arrangement.
pub open spec fn spec_arranged(updates: Seq<ArrangedUpdate>) -> Seq<ArrangedView> {
    Seq::new(
        updates.len(),
        |i: int| (updates[i].0@, updates[i].1@, updates[i].2, updates[i].3),
    )
}

/// A probe that tells whether the dataflow is shutting down.
#[derive(Clone, Copy, Debug, PartialEq, Eq, Structural)]
pub struct ShutdownProbe {
    shutdown: bool,
}

impl ShutdownProbe {
    /// Whether the dataflow is shutting down.
    pub closed spec fn in_shutdown(&self) -> bool {
        self.shutdown
    }

    /// A probe of a dataflow that runs, or that shuts down.
    pub fn new(shutdown: bool) -> (p: ShutdownProbe)
        ensures
            p.in_shutdown() == shutdown,
    {
        ShutdownProbe { shutdown }
    }

    /// Probes the dataflow: `None` where it is shutting down.
    pub fn probe(&self) -> (alive: Option<()>)
        ensures
            alive is Some <==> !self.in_shutdown(),
    {
        if self.shutdown {
            None
        } else {
            Some(())
        }
    }
}

/// An arrangement as it is at hand when a dataflow is rendered, with the
/// failures of the collection that it arranges.
#[derive(Debug)]
pub enum ArrangementFlavor {
    /// An arrangement that this dataflow built.
    Local(Vec<ArrangedUpdate>, Vec<ErrUpdate>),
    /// An arrangement that another dataflow built, known by its name.
    Trace(GlobalId, Vec<ArrangedUpdate>, Vec<ErrUpdate>),
}

impl ArrangementFlavor {
    /// The updates of the arrangement.
    pub open spec fn spec_oks(&self) -> Seq<ArrangedUpdate> {
        match self {
            ArrangementFlavor::Local(oks, _) => oks@,
            ArrangementFlavor::Trace(_, oks, _) => oks@,
        }
    }

    /// The failures that come with the arrangement.
    pub open spec fn spec_errs(&self) -> Seq<ErrUpdate> {
        match self {
            ArrangementFlavor::Local(_, errs) => errs@,
            ArrangementFlavor::Trace(_, _, errs) => errs@,
        }
    }

    /// The updates of the arrangement.
    pub fn oks(&self) -> (oks: &Vec<ArrangedUpdate>)
        ensures
            oks@ == self.spec_oks(),
    {
        match self {
            ArrangementFlavor::Local(oks, _) => oks,
            ArrangementFlavor::Trace(_, oks, _) => oks,
        }
    }

    /// The failures that come with the arrangement.
    pub fn errs(&self) -> (errs: &Vec<ErrUpdate>)
        ensures
            errs@ == self.spec_errs(),
    {
        match self {
            ArrangementFlavor::Local(_, errs) => errs,
            ArrangementFlavor::Trace(_, _, errs) => errs,
        }
    }
}

/// The first arrangement among `arranged`, from position `i` on, whose key
/// is `key`.
pub open spec fn spec_find_from(
    arranged: Seq<(Vec<MirScalarExpr>, ArrangementFlavor)>,
    key: Seq<MirScalarExpr>,
    i: int,
) -> Option<ArrangementFlavor>
    decreases arranged.len() - i,
{
    if 0 <= i < arranged.len() {
        if arranged[i].0@ == key {
            Some(arranged[i].1)
        } else {
            spec_find_from(arranged, key, i + 1)
        }
    } else {
        None
    }
}

/// A collection as it is at hand when a dataflow is rendered: as it is, and
/// arranged by some keys.
#[derive(Debug)]
pub struct CollectionBundle {
    /// The updates and the failures of the collection, where it is at hand
    /// without an arrangement.
    pub collection: Option<(Vec<Update>, Vec<ErrUpdate>)>,
    /// The arrangements of the collection, each with its key.
    pub arranged: Vec<(Vec<MirScalarExpr>, ArrangementFlavor)>,
}

impl CollectionBundle {
    /// A bundle of a collection that is not arranged.
    pub fn from_collections(oks: Vec<Update>, errs: Vec<ErrUpdate>) -> (b: CollectionBundle)
        ensures
            b.collection == Some((oks, errs)),
            b.arranged@.len() == 0,
    {
        CollectionBundle { collection: Some((oks, errs)), arranged: Vec::new() }
    }

    /// The arrangement of the collection by `key`, if there is one.
    pub open spec fn spec_arrangement(&self, key: Seq<MirScalarExpr>) -> Option<ArrangementFlavor> {
        spec_find_from(self.arranged@, key, 0)
    }

    /// Asks for the arrangement of the collection by `key`.
    pub fn arrangement(&self, key: &Vec<MirScalarExpr>) -> (a: Option<&ArrangementFlavor>)
        ensures
            match self.spec_arrangement(key@) {
                Some(flavor) => a == Some(&flavor),
                None => a is None,
            },
    {
        let mut i: usize = 0;
        while i < self.arranged.len()
            invariant
                i <= self.arranged.len(),
                spec_find_from(self.arranged@, key@, i as int) == self.spec_arrangement(key@),
            decreases self.arranged.len() - i,
        {
            if same_exprs(&self.arranged[i].0, key) {
                return Some(&self.arranged[i].1);
            }
            i = i + 1;
        }
        None
    }
}

/// What the renderer knows of the dataflow that it renders into.
pub struct Context {
    /// The frontier before which the dataflow does not tell updates apart:
    /// what was there then enters the dataflow as updates at this frontier.
    pub as_of_frontier: Antichain<Timestamp>,
    /// The probe that tells whether the dataflow is shutting down.
    pub shutdown_probe: ShutdownProbe,
}

} // verus!

//! The sink that copies a collection out once.
//!
//! The rows are spread over a fixed number of batches, so that replicas of
//! different sizes write the same files. When the sink is done it answers
//! once: with the number of rows, with a failure, or, where it is dropped
//! before it is done, with the word that it was dropped.
use vstd::prelude::*;
use differential_dataflow::Hashable;
use crate::plan::tree::GlobalId;
use crate::repr::row::Row;

verus! {

/// The answer of a sink that copies a collection out.
#[derive(Debug)]
pub enum CopyToResponse {
    /// The copy is done; this many rows were written.
    RowCount(u64),
    /// The copy failed.
    Error(String),
    /// The sink was dropped before the copy was done.
    Dropped,
}

/// `Hashable::hashed` of differential dataflow, on a row: the hash of the
/// row by which rows are spread over workers and batches. It feeds the row
/// to a hasher without a seed. The contract says nothing of the number that
/// comes out: it depends on how wide the machine writes a length.
#[verifier::external_body]
fn hashed(row: &Row) -> (hash: u64) {
    row.hashed()
}

/// The batch of a row with the hash `hash`, where there are `batch_count`
/// batches.
pub fn batch_of(hash: u64, batch_count: u64) -> (batch: u64)
    requires
        batch_count > 0,
    ensures
        batch == hash % batch_count,
{
    hash % batch_count
}

/// The batch that `row` belongs to, where there are `batch_count`
/// batches. It is one of the batches; which one, the hash of the row
/// decides.
pub fn assign_batch(row: &Row, batch_count: u64) -> (batch: u64)
    requires
        batch_count > 0,
    ensures
        batch < batch_count,
{
    batch_of(hashed(row), batch_count)
}

/// A type that guides the transmission of the number of rows back to the
/// coordinator.
///
/// The protocol answers exactly once: through [`ResponseProtocol::send`]
/// when the input of the dataflow is exhausted, or else through
/// [`ResponseProtocol::drop_response`] when the sink is dropped.
#[derive(Debug)]
pub struct ResponseProtocol {
    sink_id: GlobalId,
    open: bool,
}

impl ResponseProtocol {
    /// Whether the protocol has not answered yet.
    pub closed spec fn is_open(&self) -> bool {
        self.open
    }

    /// The sink that answers.
    pub closed spec fn spec_sink_id(&self) -> GlobalId {
        self.sink_id
    }

    /// The sink that answers.
    #[verifier::when_used_as_spec(spec_sink_id)]
    pub fn sink_id(&self) -> (id: GlobalId)
        ensures
            id == self.spec_sink_id(),
    {
        self.sink_id
    }

    /// A protocol for the sink `sink_id` that has not answered yet.
    pub fn new(sink_id: GlobalId) -> (p: ResponseProtocol)
        ensures
            p.sink_id() == sink_id,
            p.is_open(),
    {
        ResponseProtocol { sink_id, open: true }
    }

    /// The answer to a finished copy: the number of rows, or the failure.
    /// The protocol has answered then.
    ///
    /// This method must be called once at most.
    pub fn send(&mut self, count: Result<u64, String>) -> (response: (GlobalId, CopyToResponse))
        requires
            old(self).is_open(),
        ensures
            !final(self).is_open(),
            final(self).sink_id() == old(self).sink_id(),
            response.0 == old(self).sink_id(),
            response.1 == match count {
                Ok(count) => CopyToResponse::RowCount(count),
                Err(error) => CopyToResponse::Error(error),
            },
    {
        // The dataflow's input has been exhausted: close the protocol, to
        // avoid answering that the sink was dropped.
        self.open = false;
        let response = match count {
            Ok(count) => CopyToResponse::RowCount(count),
            Err(error) => CopyToResponse::Error(error),
        };
        (self.sink_id, response)
    }

    /// The answer of a sink that is dropped: that it was dropped, where
    /// the protocol has not answered yet, and nothing where it has. The
    /// protocol has answered then.
    pub fn drop_response(&mut self) -> (response: Option<(GlobalId, CopyToResponse)>)
        ensures
            !final(self).is_open(),
            final(self).sink_id() == old(self).sink_id(),
            response == if old(self).is_open() {
                Some((old(self).sink_id(), CopyToResponse::Dropped))
            } else {
                None
            },
    {
        if self.open {
            self.open = false;
            Some((self.sink_id, CopyToResponse::Dropped))
        } else {
            None
        }
    }
}

} // verus!

//! A re-useable vector of datums.
//!
//! Unpacking a row needs a vector to unpack into. A [`DatumVec`] keeps one
//! allocation alive across many rows: each [`DatumVec::borrow`] hands the
//! allocation out, emptied, and the end of the borrow hands it back.
use vstd::prelude::*;
use crate::repr::datum::Datum;
use crate::repr::row::RowRef;

verus! {

/// A re-useable vector of datums.
#[derive(Debug)]
pub struct DatumVec {
    outer: Vec<Datum>,
}

/// A borrowed allocation of datums.
///
/// When an instance is dropped, its allocation is returned to the
/// [`DatumVec`] it was taken from.
#[derive(Debug)]
pub struct DatumVecBorrow<'outer> {
    outer: &'outer mut Vec<Datum>,
    inner: Vec<Datum>,
}

impl View for DatumVec {
    type V = Seq<Datum>;

    /// The datums left in the allocation that the vector holds.
    closed spec fn view(&self) -> Seq<Datum> {
        self.outer@
    }
}

impl<'outer> View for DatumVecBorrow<'outer> {
    type V = Seq<Datum>;

    /// The datums that the borrow holds.
    closed spec fn view(&self) -> Seq<Datum> {
        self.inner@
    }
}

impl Default for DatumVec {
    fn default() -> (d: Self)
        ensures
            d@ == Seq::<Datum>::empty(),
    {
        DatumVec::new()
    }
}

impl Clone for DatumVec {
    /// A vector of its own: the copy shares no allocation, and holds no
    /// datum.
    fn clone(&self) -> (d: Self)
        ensures
            d@ == Seq::<Datum>::empty(),
    {
        DatumVec::new()
    }
}

impl DatumVec {
    /// Allocates a new instance. It holds no datum.
    pub fn new() -> (d: Self)
        ensures
            d@ == Seq::<Datum>::empty(),
    {
        Self { outer: Vec::new() }
    }

    /// Borrows the allocation. The borrow starts out empty, whatever an
    /// earlier borrow left behind.
    pub fn borrow<'a>(&'a mut self) -> (b: DatumVecBorrow<'a>)
        ensures
            b@ == Seq::<Datum>::empty(),
    {
        let mut inner: Vec<Datum> = Vec::new();
        std::mem::swap(&mut inner, &mut self.outer);
        inner.clear();
        DatumVecBorrow { outer: &mut self.outer, inner }
    }

    /// Borrows the allocation and fills it with the datums of `row`.
    pub fn borrow_with<'a>(&'a mut self, row: &'a RowRef) -> (b: DatumVecBorrow<'a>)
        ensures
            b@ == row@,
    {
        let mut borrow = self.borrow();
        let n = row.len();
        let mut i: usize = 0;
        while i < n
            invariant
                n == row@.len(),
                i <= n,
                borrow@ == row@.take(i as int),
            decreases n - i,
        {
            borrow.push_datum(row.datum(i));
            proof {
                assert(row@.take(i as int + 1) =~= row@.take(i as int).push(row@[i as int]));
            }
            i = i + 1;
        }
        proof {
            assert(row@.take(n as int) =~= row@);
        }
        borrow
    }

    /// Borrows the allocation and fills it with the first `limit` datums of
    /// `row`, or with all of them where the row has fewer.
    pub fn borrow_with_limit<'a>(&'a mut self, row: &'a RowRef, limit: usize) -> (b:
        DatumVecBorrow<'a>)
        ensures
            b@ == row@.take(spec_prefix_len(row@.len(), limit as nat) as int),
    {
        let mut borrow = self.borrow();
        let n = if limit < row.len() {
            limit
        } else {
            row.len()
        };
        let mut i: usize = 0;
        while i < n
            invariant
                n <= row@.len(),
                i <= n,
                borrow@ == row@.take(i as int),
            decreases n - i,
        {
            borrow.push_datum(row.datum(i));
            proof {
                assert(row@.take(i as int + 1) =~= row@.take(i as int).push(row@[i as int]));
            }
            i = i + 1;
        }
        borrow
    }
}

/// The number of datums that a prefix of at most `limit` datums takes from a
/// row of `len` datums.
pub open spec fn spec_prefix_len(len: nat, limit: nat) -> nat {
    if limit < len {
        limit
    } else {
        len
    }
}

impl<'outer> DatumVecBorrow<'outer> {
    /// Appends one datum to the borrow.
    pub fn push_datum(&mut self, d: Datum)
        ensures
            final(self)@ == old(self)@.push(d),
    {
        self.inner.push(d);
    }
}

impl<'outer> Drop for DatumVecBorrow<'outer> {
    /// Returns the allocation to the vector it was borrowed from.
    fn drop(&mut self)
        opens_invariants none
        no_unwind
    {
        std::mem::swap(self.outer, &mut self.inner);
    }
}

impl<'outer> std::ops::Deref for DatumVecBorrow<'outer> {
    type Target = Vec<Datum>;

    fn deref(&self) -> (v: &Vec<Datum>)
        ensures
            v@ == self@,
    {
        &self.inner
    }
}

impl<'outer> std::ops::DerefMut for DatumVecBorrow<'outer> {
    fn deref_mut(&mut self) -> (v: &mut Vec<Datum>)
        ensures
            v@ == old(self)@,
            final(self)@ == final(v)@,
    {
        &mut self.inner
    }
}

} // verus!

//! Rows: finite sequences of datums.
use vstd::prelude::*;
use crate::repr::datum::Datum;

verus! {

/// A sequence of datums.
#[derive(Debug, Hash)]
pub struct Row {
    datums: Vec<Datum>,
}

/// A borrowed row.
pub type RowRef = Row;

impl View for Row {
    type V = Seq<Datum>;

    closed spec fn view(&self) -> Seq<Datum> {
        self.datums@
    }
}

impl PartialEq for Row {
    fn eq(&self, other: &Row) -> (b: bool) {
        self.same(other)
    }
}

impl vstd::std_specs::cmp::PartialEqSpecImpl for Row {
    open spec fn obeys_eq_spec() -> bool {
        true
    }

    open spec fn eq_spec(&self, other: &Row) -> bool {
        self@ == other@
    }
}

impl Eq for Row {

}

impl Clone for Row {
    fn clone(&self) -> (r: Row)
        ensures
            r@ == self@,
    {
        Row::pack_slice(self.datums.as_slice())
    }
}

impl Row {
    /// The row without any datum.
    pub fn empty() -> (r: Row)
        ensures
            r@ == Seq::<Datum>::empty(),
    {
        Row { datums: Vec::new() }
    }

    /// The row that holds the datums of `slice`, in order.
    pub fn pack_slice(slice: &[Datum]) -> (r: Row)
        ensures
            r@ == slice@,
    {
        let mut datums: Vec<Datum> = Vec::new();
        let mut i: usize = 0;
        while i < slice.len()
            invariant
                i <= slice.len(),
                datums@ == slice@.take(i as int),
            decreases slice.len() - i,
        {
            datums.push(slice[i]);
            proof {
                assert(slice@.take(i as int + 1) =~= slice@.take(i as int).push(slice@[i as int]));
            }
            i = i + 1;
        }
        proof {
            assert(slice@.take(slice.len() as int) =~= slice@);
        }
        Row { datums }
    }

    /// The row that holds the datums of `datums`, in order.
    pub fn pack(datums: Vec<Datum>) -> (r: Row)
        ensures
            r@ == datums@,
    {
        Row { datums }
    }

    /// The number of datums in the row.
    pub fn len(&self) -> (n: usize)
        ensures
            n == self@.len(),
    {
        self.datums.len()
    }

    /// The datum at position `i`.
    pub fn datum(&self, i: usize) -> (d: Datum)
        requires
            i < self@.len(),
        ensures
            d == self@[i as int],
    {
        self.datums[i]
    }

    /// The datums of the row, in order.
    pub fn unpack(&self) -> (datums: Vec<Datum>)
        ensures
            datums@ == self@,
    {
        let mut out: Vec<Datum> = Vec::new();
        let mut i: usize = 0;
        while i < self.datums.len()
            invariant
                i <= self.datums.len(),
                out@ == self.datums@.take(i as int),
            decreases self.datums.len() - i,
        {
            out.push(self.datums[i]);
            proof {
                assert(self.datums@.take(i as int + 1) =~= self.datums@.take(i as int).push(
                    self.datums@[i as int],
                ));
            }
            i = i + 1;
        }
        proof {
            assert(self.datums@.take(self.datums.len() as int) =~= self.datums@);
        }
        out
    }

    /// Whether two rows hold the same datums in the same order.
    pub fn same(&self, other: &Row) -> (b: bool)
        ensures
            b == (self@ == other@),
    {
        if self.datums.len() != other.datums.len() {
            return false;
        }
        let mut i: usize = 0;
        while i < self.datums.len()
            invariant
                i <= self.datums.len(),
                self.datums.len() == other.datums.len(),
                forall|j: int| 0 <= j < i ==> self.datums@[j] == other.datums@[j],
            decreases self.datums.len() - i,
        {
            if self.datums[i] != other.datums[i] {
                return false;
            }
            i = i + 1;
        }
        proof {
            assert(self.datums@ =~= other.datums@);
        }
        true
    }
}

} // verus!

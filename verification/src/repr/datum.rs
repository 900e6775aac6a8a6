//! The values that a row holds.
use vstd::prelude::*;

verus! {

/// A logical timestamp. Timestamps are totally ordered.
pub type Timestamp = u64;

/// The signed multiplicity of an update: positive for an insertion,
/// negative for a retraction.
pub type Diff = i64;

/// A single value of a row.
#[derive(Clone, Copy, Debug, PartialEq, Eq, Structural, Hash)]
pub enum Datum {
    /// The boolean `false`.
    False,
    /// The boolean `true`.
    True,
    /// A signed 16-bit integer.
    Int16(i16),
    /// A signed 32-bit integer.
    Int32(i32),
    /// A signed 64-bit integer.
    Int64(i64),
    /// An unsigned 8-bit integer.
    UInt8(u8),
    /// An unsigned 16-bit integer.
    UInt16(u16),
    /// An unsigned 32-bit integer.
    UInt32(u32),
    /// An unsigned 64-bit integer.
    UInt64(u64),
    /// A placeholder that stands for a value no operator will look at.
    Dummy,
    /// The unknown value.
    Null,
}

impl Datum {
    /// Whether this datum is the unknown value.
    pub open spec fn spec_is_null(&self) -> bool {
        *self == Datum::Null
    }

    /// Reports whether this datum is the unknown value.
    #[verifier::when_used_as_spec(spec_is_null)]
    pub fn is_null(&self) -> (b: bool)
        ensures
            b == self.spec_is_null(),
    {
        match self {
            Datum::Null => true,
            _ => false,
        }
    }

    /// The datum that stands for a boolean.
    pub open spec fn spec_from_bool(b: bool) -> Datum {
        if b {
            Datum::True
        } else {
            Datum::False
        }
    }

    /// Converts a boolean into its datum.
    #[verifier::when_used_as_spec(spec_from_bool)]
    pub fn from_bool(b: bool) -> (d: Datum)
        ensures
            d == Datum::spec_from_bool(b),
    {
        if b {
            Datum::True
        } else {
            Datum::False
        }
    }
}

} // verus!

//! Failures of scalar evaluation.
use vstd::prelude::*;

verus! {

/// A failure of evaluating a scalar expression on one row.
///
/// Such a failure is data: it travels in the error collection with the time
/// and the multiplicity of the update that caused it.
#[derive(Clone, Copy, Debug, PartialEq, Eq, Structural, Hash)]
pub enum EvalError {
    /// The code point is a surrogate, which no character has.
    CharacterNotValidForEncoding(i32),
    /// The code point is negative or beyond the last character.
    CharacterTooLargeForEncoding(i32),
    /// The value does not fit a one-byte character.
    CharOutOfRange,
    /// The value does not fit a signed 16-bit integer.
    Int16OutOfRange(i32),
    /// The result does not fit a signed 32-bit integer.
    Int32OutOfRange(i32),
    /// An expression met a datum that its planner promised it would not meet:
    /// a column that the row does not have, or a value of another type.
    Internal,
    /// The code point zero stands for no character.
    NullCharacterNotPermitted,
    /// The value does not fit the precision of a numeric.
    NumericFieldOverflow,
    /// The value does not fit an unsigned 16-bit integer.
    UInt16OutOfRange(i32),
    /// The value does not fit an unsigned 32-bit integer.
    UInt32OutOfRange(i32),
    /// The value does not fit an unsigned 64-bit integer.
    UInt64OutOfRange(i32),
}

/// A failure that travels in the error collection of a dataflow.
#[derive(Clone, Copy, Debug, PartialEq, Eq, Structural, Hash)]
pub enum DataflowError {
    /// A scalar expression failed on a row.
    EvalError(EvalError),
}

impl From<EvalError> for DataflowError {
    fn from(e: EvalError) -> (d: DataflowError) {
        DataflowError::EvalError(e)
    }
}

impl vstd::std_specs::convert::FromSpecImpl<EvalError> for DataflowError {
    open spec fn obeys_from_spec() -> bool {
        true
    }

    open spec fn from_spec(e: EvalError) -> DataflowError {
        DataflowError::EvalError(e)
    }
}

} // verus!

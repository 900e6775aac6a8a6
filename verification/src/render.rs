//! The renderer of delta joins.
//!
//! A delta join over some relations is evaluated as one delta path per
//! relation. The path of a relation follows the updates of that relation
//! through a chain of half-joins, one with each other relation, and so
//! computes the changes to the join that the updates of its relation cause.
//! A fixed order among the relations breaks the ties between updates at one
//! time, so that each pair of matching updates is found by exactly one
//! path.
pub mod accumulate;
pub mod context;
pub mod delta_join;
pub mod frontier;
pub mod half_join;
pub mod laws;

//! The plan tree, the plans of its joins, and the abstract interpreter that
//! folds a plan into a lattice value.
pub mod interpret;
pub mod join;
pub mod scope;
pub mod tree;

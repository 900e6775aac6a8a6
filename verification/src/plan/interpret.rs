//! Abstract interpretation of plans.
//!
//! An analysis of plans is written as an [`api::Interpreter`]: one method
//! for each kind of operator, each from the lattice values of the inputs to
//! the lattice value of the operator. The folds of this module walk a plan
//! bottom-up, keep the bindings of `Let` and `LetRec` in a context, and
//! resolve recursive bindings by iterating to a fixpoint.
pub mod api;
pub mod fold;
pub mod fold_mut;
pub mod laws;
pub mod monotone;

//! Incremental execution core of a streaming SQL engine.
//!
//! The crate has two halves that work on one plan representation:
//!
//! * [`plan`] holds the plan tree and a generic abstract interpreter that
//!   folds a plan bottom-up into a lattice value, resolving recursive
//!   bindings by a bounded fixpoint iteration;
//! * [`render`] holds the delta-join renderer: the rules by which a planned
//!   multi-way join is evaluated as one delta path per input, each a chain
//!   of half-joins against shared arrangements.
//!
//! [`repr`] and [`expr`] hold the rows and the scalar expressions that both
//! halves work on. [`logging`] and [`sink`] hold what the dataflows around
//! the renderer decide: how the events of arrangements are logged, and how
//! a sink that copies a collection out answers.
pub mod expr;
pub mod logging;
pub mod plan;
pub mod render;
pub mod repr;
pub mod sink;

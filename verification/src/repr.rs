//! Rows, the values they hold, and the bookkeeping types of updates.
pub mod datum;
pub mod datum_vec;
pub mod row;

//! Sinks: where the rows of a dataflow leave it.
pub mod copy_to_s3_oneshot;

//! What the logging dataflows make of the events that they replay.
pub mod differential;

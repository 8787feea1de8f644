//! Picking a workspace directory from a keyboard-driven list.
//!
//! The library holds the logic of the picker: turning directory listings into
//! workspace records, keeping them in a sorted list with a wrapping cursor,
//! reacting to keys, and projecting records into display cells.

pub mod workspace;
pub mod table;
pub mod display;
pub mod script;

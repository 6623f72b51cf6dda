//! A personal time-tracking library.
//!
//! Work intervals are recorded as one-line records in a per-day log file,
//! with a single-slot "current task" file holding the one interval that is
//! still open.  This crate holds the verified core of that store: the line
//! grammar with its round-trip guarantee, the open/close state machine over
//! the two files' contents, and timezone-correct conversion of local clock
//! times to RFC 3339 instants.  All file, network and terminal traffic is
//! left to the surrounding application, which hands the library plain values.

pub mod boards;
pub mod cli;
pub mod clocks;
pub mod error;
pub mod grammar;
pub mod secrets;
pub mod text;
pub mod timefmt;
pub mod tracker;

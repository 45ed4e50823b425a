//! A bounded recursive directory scanner and a small set of filesystem
//! mutation checks for a disk-usage cleanup tool.
//!
//! The crate holds the decision logic of the tool: which entries a walk
//! collects under its entry cap, how totals are aggregated, how results are
//! ordered, and which preconditions each mutation operation demands. All
//! filesystem access stays with the caller, which feeds plain observations
//! (metadata fields, existence and kind of a path, enumerated children) into
//! the functions here.

pub mod entry;
pub mod ops;
pub mod scanner;
pub mod sorter;

//! Discovery, classification and selection of Design History File documents.
//!
//! The library works on plain values: directory listings handed in by the
//! caller (as produced by a sorted, depth-bounded walk), file names, and the
//! operator's selections. Reading the disk and drawing the screen are left to
//! the caller.
pub mod classify;
pub mod filters;
pub mod model;
pub mod order;
pub mod paths;
pub mod scan;
pub mod text;
pub mod workflow;

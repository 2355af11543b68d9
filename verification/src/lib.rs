//! Free-index tracking over `usize`, kept as a sorted list of maximal closed
//! intervals.
//!
//! [`Range`] is one closed interval, with the comparison under which two
//! intervals that share an index are equal. [`FreeRanges`] is the set of free
//! indices, stored as intervals that are pairwise disjoint, never adjacent and
//! ascending. `model` holds what such a list means as a set of indices, and
//! `laws` what holds of it as a whole.

pub mod range;
pub mod model;
pub mod free_list;
pub mod laws;

pub use crate::free_list::FreeRanges;
pub use crate::range::Range;

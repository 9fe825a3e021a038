//! Supplemental operations over common primitive and container values:
//! boolean toggling and negation helpers, string case conversion and
//! classification, generic search-and-replace over vectors, bounds-safe
//! splitting of slices and vectors, and option/result refinements.
//!
//! Every operation is total: out-of-range indices, missing matches and
//! empty inputs resolve to a defined value rather than a panic.

pub mod bools;
pub mod maps;
pub mod options;
pub mod results;
pub mod slices;
pub mod strings;
pub mod text;
pub mod vecs;

//! Grid layout generation for a spatial canvas viewer.
//!
//! Given an ordered list of document paths and an ordered list of column
//! labels, the generator lays out one positioned reference node per
//! (document, label) pair on a uniform grid and packages them, together with
//! an always-empty connector list, into a canvas document ready for
//! serialization.

pub mod canvas;
pub mod ids;
pub mod json;
pub mod parse;
pub mod paths;

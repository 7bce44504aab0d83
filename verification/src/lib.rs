//! Verified core of a weighted-histogram-analysis (WHAM) engine.
//!
//! The fixed-point solver itself works on IEEE doubles and therefore lives in
//! an unverified front end; this crate holds everything around it that can be
//! stated and proved over plain values: the bin-index linearisation shared by
//! all multidimensional grids, integer histogram counting, the input record
//! formats, time-window selection, and the solver's iteration control.

pub mod config;
pub mod errors;
pub mod grid;
pub mod histogram;
pub mod output;
pub mod parse;
pub mod paths;
pub mod records;
pub mod select;
pub mod solver;

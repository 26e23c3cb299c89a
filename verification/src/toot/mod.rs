//! TOOT-OTTO on a grid of four rows and six columns: `0` is an empty cell,
//! `1` and `2` are the human's T and O, `3` and `4` the automated side's.
//! The human wins with a line that spells TOOT, the automated side with
//! OTTO.

pub mod pattern;
pub mod policy;
pub mod laws;

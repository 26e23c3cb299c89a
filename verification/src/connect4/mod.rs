//! Connect4 on a grid of six rows and seven columns: `0` is an empty cell,
//! `1` a human disc, `2` a disc of the automated side.

pub mod detect;
pub mod scoring;
pub mod search;
pub mod engine;
pub mod laws;

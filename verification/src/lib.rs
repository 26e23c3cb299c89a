//! Move selection for two four-in-a-row board games, Connect4 and TOOT-OTTO,
//! played by one human against an automated opponent.
//!
//! Every function here is a pure computation on a board snapshot. Boards are
//! rows of integer cell codes, row 0 at the top; contracts speak of them
//! through [`grid::grid_of`], a sequence of rows.

pub mod grid;
pub mod connect4;
pub mod toot;
pub mod chance;
pub mod text;
pub mod model;
pub mod service;
pub mod turn;
pub mod page;

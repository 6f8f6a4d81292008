//! Core engine for a two-player connect-three game played on a 3x3x3 frame
//! with an unusable center column: board model and legal moves, symmetry
//! canonicalization, position fingerprinting, an exhaustive memoized solver,
//! and a small persistence layer for solved-position maps.

pub mod cubie;
pub mod line;
pub mod cage;
pub mod canon;
pub mod moves;
pub mod zobrist;
pub mod game;
pub mod search;

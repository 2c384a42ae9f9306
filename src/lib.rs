//! Chess rules engine: an 8x8 board of typed pieces, per-piece move
//! generation, check detection, legal-move filtering, move execution and the
//! click-driven selection/turn state machine, together with the keyboard and
//! mouse button state that a host loop feeds it.

pub mod piece;
pub mod board;
pub mod moves;
pub mod execute;
pub mod check;
pub mod state;
pub mod input;

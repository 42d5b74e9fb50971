//! A terminal falling-block puzzle engine: the playfield grid, the piece
//! catalogue and its rotation indexing, the collision test, piece locking,
//! line clearing, scoring, and the per-tick game state machine.

pub mod field;
pub mod game;
pub mod rotation;
pub mod shapes;
pub mod windows;

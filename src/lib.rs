//! Conway's Game of Life on a bounded grid with hard edges: a sparse board,
//! the generation step, a text renderer and the per-frame session logic of an
//! interactive terminal player.

pub mod board;
pub mod point;
pub mod render;
pub mod rules;
pub mod session;

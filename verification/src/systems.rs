//! The per-frame decisions of the game's systems.

pub mod input;
pub mod movement;
pub mod render;

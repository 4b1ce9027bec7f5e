//! Verified game logic for the Zephyr side-scroller: asset reference
//! counting, level backdrop planning, render ordering, pilot controls and
//! sprite-sheet frame selection.

pub mod asset_manager;
pub mod components;
pub mod level_loader;
pub mod systems;

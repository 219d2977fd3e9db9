//! Decisions of the colony's structures: spawns and towers.
pub mod spawns;
pub mod towers;

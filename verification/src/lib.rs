//! Verified core of a Screeps colony bot: fixed-size queues, compact room
//! grids with their text encoding, room coordinates, behaviour tree control
//! and the rules that pick what the colony builds and spawns next and what
//! its creeps and structures do.

pub mod bounded;
pub mod bt;
pub mod collections;
pub mod constructions;
pub mod creeps;
pub mod expansion;
pub mod rooms;
pub mod state;
pub mod structures;

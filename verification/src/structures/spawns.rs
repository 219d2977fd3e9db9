//! When spawns run, and which spawn of a room runs.
use vstd::prelude::*;

verus! {

/// Spawns run every this many ticks.
pub const SPAWN_SKIP: u32 = 5;

/// Whether spawns run at tick `time`.
pub fn spawn_turn(time: u32) -> (b: bool)
    ensures
        b == (time % SPAWN_SKIP == 0),
{
    time % SPAWN_SKIP == 0
}

/// Which of a room's `n_spawns` spawns runs at tick `time`.
pub fn spawn_index(time: u32, n_spawns: usize) -> (i: usize)
    requires
        n_spawns > 0,
    ensures
        i == (time as usize) % n_spawns,
        i < n_spawns,
{
    (time as usize) % n_spawns
}

} // verus!

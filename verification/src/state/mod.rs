//! What the colony remembers between ticks.
pub mod construction_state;
pub mod game_state;

pub use self::construction_state::ConstructionState;
pub use self::game_state::{scout_info, CreepName, RoomIFF, ScoutInfo};

use crate::bt::TaskInput;
use vstd::prelude::*;

verus! {

/// An item handed to a task together with the state it runs on.
pub struct WrappedState<'a, T, S: TaskInput> {
    pub item: T,
    pub state: &'a mut S,
}

impl<'a, T, S: TaskInput> TaskInput for WrappedState<'a, T, S> {
    /// The bucket of the wrapped state.
    open spec fn spec_cpu_bucket(&self) -> Option<i16> {
        self.state.spec_cpu_bucket()
    }

    /// The bucket of the wrapped state.
    fn cpu_bucket(&self) -> (b: Option<i16>) {
        self.state.cpu_bucket()
    }
}

impl<'a, T, S: TaskInput> WrappedState<'a, T, S> {
    /// Wrap `item` with the state `game_state`.
    pub fn new(item: T, game_state: &'a mut S) -> (w: Self)
        ensures
            w.item == item,
            *w.state == *old(game_state),
    {
        Self { item, state: game_state }
    }
}

} // verus!

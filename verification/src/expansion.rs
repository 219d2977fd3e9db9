//! Rooms flagged as targets for expansion, and when a flag is dropped.
use crate::rooms::WorldPosition;
use vstd::prelude::*;

verus! {

/// What is seen of a room flagged for expansion.
#[derive(Debug, Clone, Copy, PartialEq, Eq, Structural)]
pub enum MarkerView {
    /// The room is not visible.
    Unseen,
    /// The room is visible and has no controller.
    NoController,
    /// The room is visible: whether its controller is ours, its level and
    /// the number of our spawns in it.
    Controlled { my: bool, level: u32, spawns: usize },
}

/// Whether a room stays flagged: help it until it is ours, at level 4 or
/// more and has a spawn; rooms without a controller are dropped and unseen
/// rooms kept.
pub open spec fn keeps_marker(view: MarkerView) -> bool {
    match view {
        MarkerView::Unseen => true,
        MarkerView::NoController => false,
        MarkerView::Controlled { my, level, spawns } => !(my && level >= 4) || spawns == 0,
    }
}

/// An expansion flag is dropped once its room stands on its own: the room
/// is ours, its controller has level 4 or more and it has a spawn. While the
/// room is someone else's or unowned, below level 4 or without a spawn the
/// flag stays, and so it does while the room is not seen; a room without a
/// controller drops it.
pub proof fn law_marker_dropped_once_room_stands(my: bool, level: u32, spawns: usize)
    ensures
        my && level >= 4 && spawns > 0 ==> !keeps_marker(MarkerView::Controlled { my, level, spawns }),
        my && level >= 4 && spawns == 0 ==> keeps_marker(MarkerView::Controlled { my, level, spawns }),
        !my ==> keeps_marker(MarkerView::Controlled { my, level, spawns }),
        level < 4 ==> keeps_marker(MarkerView::Controlled { my, level, spawns }),
        keeps_marker(MarkerView::Unseen),
        !keeps_marker(MarkerView::NoController),
{
}

/// Whether a room stays flagged.
pub fn keep_marker(view: MarkerView) -> (b: bool)
    ensures
        b == keeps_marker(view),
{
    match view {
        MarkerView::Unseen => true,
        MarkerView::NoController => false,
        MarkerView::Controlled { my, level, spawns } => {
            if my && level >= 4 {
                spawns == 0
            } else {
                true
            }
        },
    }
}

/// The flagged rooms that stay flagged, in order.
pub fn remove_exp_markers(markers: &[(WorldPosition, MarkerView)]) -> (kept: Vec<WorldPosition>)
    ensures
        kept@ == markers@.filter(|m: (WorldPosition, MarkerView)| keeps_marker(m.1)).map_values(
            |m: (WorldPosition, MarkerView)| m.0,
        ),
{
    let mut kept: Vec<WorldPosition> = Vec::new();
    let mut i: usize = 0;
    while i < markers.len()
        invariant
            i <= markers@.len(),
            kept@ == markers@.take(i as int).filter(|m: (WorldPosition, MarkerView)| keeps_marker(m.1)).map_values(
                |m: (WorldPosition, MarkerView)| m.0,
            ),
        decreases markers@.len() - i,
    {
        let ghost pred = |m: (WorldPosition, MarkerView)| keeps_marker(m.1);
        proof {
            markers@.take(i as int).lemma_filter_push(markers@[i as int], pred);
            assert(markers@.take(i + 1) =~= markers@.take(i as int).push(markers@[i as int]));
        }
        let (pos, view) = markers[i];
        if keep_marker(view) {
            kept.push(pos);
        }
        proof {
            let f = |m: (WorldPosition, MarkerView)| m.0;
            let before = markers@.take(i as int).filter(pred);
            let after = markers@.take(i + 1).filter(pred);
            if keeps_marker(view) {
                assert(after == before.push(markers@[i as int]));
                assert(after.map_values(f) =~= before.map_values(f).push(pos));
            } else {
                assert(after == before);
            }
        }
        i = i + 1;
    }
    assert(markers@.take(markers@.len() as int) =~= markers@);
    kept
}

} // verus!

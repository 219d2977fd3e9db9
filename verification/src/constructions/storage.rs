//! Where a room's storage goes: near its controller and its sources.
use super::geometry::PointGeometry;
use super::point::Point;
use super::spawns::{all_in_room, fold_halfway, fold_midpoints, in_room, lemma_halfway_in_room};
use vstd::prelude::*;

verus! {

/// Why no storage position can be chosen.
#[derive(Debug, Clone, Copy, PartialEq, Eq, Structural)]
pub enum StorageError {
    /// The room has no controller.
    NoController,
    /// The controller is below level 4.
    LevelTooLow,
    /// The room has a storage already.
    HasStorage,
    /// The room has no sources.
    NoSources,
}

/// The controller moved halfway towards each source, each of those points
/// then taken in turn from the controller.
pub open spec fn storage_point(controller: Point, sources: Seq<Point>) -> Point {
    if sources.len() == 1 {
        sources[0].halfway(&controller)
    } else {
        fold_halfway(controller, Seq::new(sources.len(), |i: int| controller.halfway(&sources[i])))
    }
}

/// Where to start looking for the storage position: for a room of level 4
/// or more without a storage, with its controller at `controller` and at
/// least one source, halfway between the source and the controller if there
/// is one source, else the controller moved halfway towards the midpoint of
/// it and each source in turn.
pub fn storage_anchor(controller: Option<(Point, u32)>, has_storage: bool, sources: &[Point]) -> (r: Result<
    Point,
    StorageError,
>)
    ensures
        controller is None ==> r == Err::<Point, StorageError>(StorageError::NoController),
        controller matches Some((c, level)) ==> {
            if level < 4 {
                r == Err::<Point, StorageError>(StorageError::LevelTooLow)
            } else if has_storage {
                r == Err::<Point, StorageError>(StorageError::HasStorage)
            } else if sources@.len() == 0 {
                r == Err::<Point, StorageError>(StorageError::NoSources)
            } else {
                r == Ok::<Point, StorageError>(storage_point(c, sources@))
            }
        },
        controller matches Some((c, level)) && in_room(c) && (forall|i: int|
            0 <= i < sources@.len() ==> in_room(#[trigger] sources@[i])) ==> (r matches Ok(p) ==> in_room(p)),
{
    let (c, level) = match controller {
        Some(x) => x,
        None => return Err(StorageError::NoController),
    };
    if level < 4 {
        return Err(StorageError::LevelTooLow);
    }
    if has_storage {
        return Err(StorageError::HasStorage);
    }
    if sources.len() == 0 {
        return Err(StorageError::NoSources);
    }
    if sources.len() == 1 {
        proof {
            if in_room(c) && in_room(sources@[0]) {
                lemma_halfway_in_room(sources@[0], c);
            }
        }
        return Ok(sources[0].midpoint(&c));
    }
    let mut mids: Vec<Point> = Vec::new();
    let mut i: usize = 0;
    let ghost all = in_room(c) && (forall|j: int| 0 <= j < sources@.len() ==> in_room(#[trigger] sources@[j]));
    while i < sources.len()
        invariant
            i <= sources@.len(),
            mids@ == Seq::new(i as nat, |j: int| c.halfway(&sources@[j])),
            all == (in_room(c) && (forall|j: int| 0 <= j < sources@.len() ==> in_room(#[trigger] sources@[j]))),
            all ==> forall|j: int| 0 <= j < mids@.len() ==> in_room(#[trigger] mids@[j]),
        decreases sources@.len() - i,
    {
        proof {
            if all {
                lemma_halfway_in_room(c, sources@[i as int]);
            }
        }
        let m = c.midpoint(&sources[i]);
        mids.push(m);
        i = i + 1;
        assert(mids@ =~= Seq::new(i as nat, |j: int| c.halfway(&sources@[j])));
    }
    assert(all ==> all_in_room(c, mids@));
    Ok(fold_midpoints(c, &mids))
}

} // verus!

//! Where the colony builds: exploring a room square by square for space,
//! and the order in which structures, roads and the storage are placed.
pub mod construction_matrix;
pub mod extensions;
pub mod geometry;
pub mod point;
pub mod roads;
pub mod spawns;
pub mod storage;

pub use self::construction_matrix::{ConstructionMatrix, ConstructionMatrixError, NextPos};
pub use self::geometry::{midpoint, HasNeighbour, PointGeometry};
pub use self::point::Point;
use vstd::prelude::*;

verus! {

/// Which room, if any, has its constructions managed at tick `time` among
/// `n_rooms` rooms: every third round of the rooms, one room per tick in
/// turn.
pub fn construction_turn(time: u32, n_rooms: u32) -> (r: Option<u32>)
    requires
        n_rooms > 0,
        n_rooms * 3 <= u32::MAX,
    ensures
        time as int % (n_rooms * 3) > n_rooms ==> r is None,
        time as int % (n_rooms * 3) <= n_rooms ==> r == Some((time % n_rooms) as u32),
{
    if time % (n_rooms * 3) > n_rooms {
        None
    } else {
        Some(time % n_rooms)
    }
}

/// A structure placed on the open positions of a room.
#[derive(Debug, Clone, Copy, PartialEq, Eq, Structural)]
pub enum StructureKind {
    Tower,
    Extension,
    Spawn,
}

/// The structures placed on the open positions of a room, in order.
pub open spec fn spec_structure_order() -> Seq<StructureKind> {
    seq![StructureKind::Tower, StructureKind::Extension, StructureKind::Extension, StructureKind::Spawn]
}

/// The structures placed on the open positions of a room, in order.
pub fn structure_order() -> (s: [StructureKind; 4])
    ensures
        s@ == spec_structure_order(),
{
    let s = [StructureKind::Tower, StructureKind::Extension, StructureKind::Extension, StructureKind::Spawn];
    assert(s@ =~= spec_structure_order());
    s
}

/// What placing a construction site gave.
#[derive(Debug, Clone, Copy, PartialEq, Eq, Structural)]
pub enum SiteOutcome {
    /// The site was placed.
    Placed,
    /// Nothing can be built there.
    InvalidTarget,
    /// The room has as many construction sites as it may.
    Full,
    /// Any other refusal.
    Refused,
}

/// What follows placing a structure's site at the open position.
#[derive(Debug, Clone, Copy, PartialEq, Eq, Structural)]
pub enum SiteFollowup {
    /// The position is used up: take it off the open positions and find the
    /// next one.
    NextPosition,
    /// Stop: the room is full.
    RoomFull,
    /// Keep the position for the next structure.
    SamePosition,
}

/// What follows a site placement with the given outcome.
pub fn after_site(outcome: SiteOutcome) -> (f: SiteFollowup)
    ensures
        f == match outcome {
            SiteOutcome::Placed | SiteOutcome::InvalidTarget => SiteFollowup::NextPosition,
            SiteOutcome::Full => SiteFollowup::RoomFull,
            SiteOutcome::Refused => SiteFollowup::SamePosition,
        },
{
    match outcome {
        SiteOutcome::Placed => SiteFollowup::NextPosition,
        SiteOutcome::InvalidTarget => SiteFollowup::NextPosition,
        SiteOutcome::Full => SiteFollowup::RoomFull,
        SiteOutcome::Refused => SiteFollowup::SamePosition,
    }
}

/// Why the storage site was not placed.
#[derive(Debug, Clone, Copy, PartialEq, Eq, Structural)]
pub enum StorageSiteError {
    /// The room is full of construction sites.
    RoomFull,
    /// Any other refusal.
    Refused,
}

/// The result of placing the storage's site.
pub fn storage_site_result(outcome: SiteOutcome) -> (r: Result<(), StorageSiteError>)
    ensures
        outcome == SiteOutcome::Placed ==> r is Ok,
        outcome == SiteOutcome::Full ==> r == Err::<(), StorageSiteError>(StorageSiteError::RoomFull),
        outcome == SiteOutcome::InvalidTarget || outcome == SiteOutcome::Refused ==> r == Err::<
            (),
            StorageSiteError,
        >(StorageSiteError::Refused),
{
    match outcome {
        SiteOutcome::Placed => Ok(()),
        SiteOutcome::Full => Err(StorageSiteError::RoomFull),
        _ => Err(StorageSiteError::Refused),
    }
}

/// What is seen on a tile, as far as building goes.
#[derive(Debug, Clone, Copy, PartialEq, Eq, Structural)]
pub enum LookKind {
    /// Wall terrain.
    Wall,
    /// A road.
    Road,
    /// Any other structure.
    OtherStructure,
    /// A construction site.
    ConstructionSite,
    /// Anything else: plain or swamp terrain, creeps, resources.
    Other,
}

/// Whether what is seen keeps a tile from being built on: walls, structures
/// other than roads and construction sites.
pub open spec fn spec_blocks(kind: LookKind) -> bool {
    kind == LookKind::Wall || kind == LookKind::OtherStructure || kind == LookKind::ConstructionSite
}

/// Whether what is seen keeps a tile from being built on.
pub fn blocks(kind: LookKind) -> (b: bool)
    ensures
        b == spec_blocks(kind),
{
    match kind {
        LookKind::Wall => true,
        LookKind::Road => false,
        LookKind::OtherStructure => true,
        LookKind::ConstructionSite => true,
        LookKind::Other => false,
    }
}

/// Whether a tile on which `looks` are seen is free to build on: nothing
/// seen blocks it.
pub fn is_free(looks: &[LookKind]) -> (b: bool)
    ensures
        b == forall|i: int| 0 <= i < looks@.len() ==> !spec_blocks(#[trigger] looks@[i]),
{
    let mut i: usize = 0;
    while i < looks.len()
        invariant
            i <= looks@.len(),
            forall|j: int| 0 <= j < i ==> !spec_blocks(#[trigger] looks@[j]),
        decreases looks@.len() - i,
    {
        if blocks(looks[i]) {
            return false;
        }
        i = i + 1;
    }
    true
}

/// The first square explored in a new room: the point found for its first
/// spawn, else the position of its last structure, else the room's centre.
pub fn initial_square(found: Option<Point>, last_structure: Option<Point>) -> (p: Point)
    ensures
        p == match found {
            Some(f) => f,
            None => match last_structure {
                Some(s) => s,
                None => Point(25, 25),
            },
        },
{
    match found {
        Some(f) => f,
        None => match last_structure {
            Some(s) => s,
            None => Point(25, 25),
        },
    }
}

} // verus!

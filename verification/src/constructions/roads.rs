//! Roads: which positions of a room are still to connect to its centre.
use super::point::Point;
use super::spawns::in_room;
use crate::collections::flaggrid::BitRoomGrid5050;
use crate::collections::FlagGrid;
use vstd::prelude::*;

verus! {

/// Marks a position connected to the room's centre by road.
pub const CONNECTED_FLAG: u8 = 1;

/// Most positions connected in one tick.
pub const MAX_CONNECTIONS: usize = 16;

/// Why roads are not built in a room yet.
#[derive(Debug, Clone, Copy, PartialEq, Eq, Structural)]
pub enum RoadBlock {
    /// The controller is below level 3.
    LevelTooLow,
    /// Construction sites are still open.
    IncompleteConstructions,
    /// The room has no tower yet.
    NoTower,
}

/// Whether roads may be built in a room with controller level `rcl` (0
/// without a controller), open construction sites or not, and a tower or
/// not; the first reason against, in that order.
pub fn can_continue_building(rcl: u32, has_construction: bool, has_tower: bool) -> (r: Result<(), RoadBlock>)
    ensures
        rcl < 3 ==> r == Err::<(), RoadBlock>(RoadBlock::LevelTooLow),
        rcl >= 3 && has_construction ==> r == Err::<(), RoadBlock>(RoadBlock::IncompleteConstructions),
        rcl >= 3 && !has_construction && !has_tower ==> r == Err::<(), RoadBlock>(RoadBlock::NoTower),
        rcl >= 3 && !has_construction && has_tower ==> r is Ok,
{
    if rcl < 3 {
        return Err(RoadBlock::LevelTooLow);
    }
    if has_construction {
        return Err(RoadBlock::IncompleteConstructions);
    }
    if !has_tower {
        return Err(RoadBlock::NoTower);
    }
    Ok(())
}

/// Index of the tile of `p` in a 50×50 map.
pub open spec fn tile_index(p: Point) -> int {
    p.0 * 50 + p.1
}

/// The flags with `p` marked connected.
pub open spec fn mark(cells: Seq<u8>, p: Point) -> Seq<u8> {
    cells.update(tile_index(p), cells[tile_index(p)] | CONNECTED_FLAG)
}

/// The first `n` items of `s`, all of them if fewer.
pub open spec fn at_most<T>(s: Seq<T>, n: nat) -> Seq<T> {
    if s.len() <= n {
        s
    } else {
        s.take(n as int)
    }
}

/// The positions after the first not yet connected per `cells`, at most
/// sixteen.
pub open spec fn to_connect(cells: Seq<u8>, targets: Seq<Point>) -> Seq<Point> {
    at_most(
        targets.drop_first().filter(|p: Point| cells[tile_index(p)] & CONNECTED_FLAG == 0),
        MAX_CONNECTIONS as nat,
    )
}

/// Why no road is planned.
#[derive(Debug, Clone, Copy, PartialEq, Eq, Structural)]
pub enum RoadError {
    /// The room has nothing to connect.
    NothingToConnect,
}

/// Mark `p` connected.
pub fn mark_connected(grid: &mut BitRoomGrid5050, p: Point)
    requires
        old(grid).wf(),
        in_room(p),
    ensures
        final(grid).wf(),
        final(grid).cells() == mark(old(grid).cells(), p),
{
    let x = p.0 as usize;
    let y = p.1 as usize;
    let v = grid.get(x, y);
    grid.set(x, y, v | CONNECTED_FLAG);
}

/// Plan the roads of a room whose structures and sources stand at
/// `targets`: the first is the centre, marked connected; the others not yet
/// connected, at most sixteen, are to be connected to it, each marked once
/// its road is placed.
pub fn plan_roads(grid: &mut BitRoomGrid5050, targets: &[Point]) -> (r: Result<(Point, Vec<Point>), RoadError>)
    requires
        old(grid).wf(),
        forall|i: int| 0 <= i < targets@.len() ==> in_room(#[trigger] targets@[i]),
    ensures
        final(grid).wf(),
        targets@.len() == 0 ==> r == Err::<(Point, Vec<Point>), RoadError>(RoadError::NothingToConnect)
            && final(grid).cells() == old(grid).cells(),
        targets@.len() > 0 ==> (r matches Ok((c, rest)) && c == targets@[0] && final(grid).cells()
            == mark(old(grid).cells(), targets@[0]) && rest@ == to_connect(final(grid).cells(), targets@)),
{
    if targets.len() == 0 {
        return Err(RoadError::NothingToConnect);
    }
    let center = targets[0];
    mark_connected(grid, center);
    let ghost cells = grid.cells();
    let ghost pred = |p: Point| cells[tile_index(p)] & CONNECTED_FLAG == 0;
    let ghost tail = targets@.drop_first();
    let mut rest: Vec<Point> = Vec::new();
    let mut i: usize = 1;
    while i < targets.len() && rest.len() < MAX_CONNECTIONS
        invariant
            1 <= i <= targets@.len(),
            grid.wf(),
            grid.cells() == cells,
            pred == (|p: Point| cells[tile_index(p)] & CONNECTED_FLAG == 0),
            tail == targets@.drop_first(),
            rest@ == tail.take(i - 1).filter(pred),
            rest@.len() <= MAX_CONNECTIONS,
            forall|j: int| 0 <= j < targets@.len() ==> in_room(#[trigger] targets@[j]),
        decreases targets@.len() - i,
    {
        let p = targets[i];
        proof {
            assert(tail.take(i as int) =~= tail.take(i - 1).push(p));
            tail.take(i - 1).lemma_filter_push(p, pred);
            assert(in_room(targets@[i as int]));
        }
        let flags = grid.get(p.0 as usize, p.1 as usize);
        if flags & CONNECTED_FLAG == 0 {
            rest.push(p);
        }
        i = i + 1;
    }
    proof {
        let all = tail.filter(pred);
        let seen = tail.take(i - 1).filter(pred);
        lemma_filter_prefix(tail, i - 1, pred);
        if rest@.len() < MAX_CONNECTIONS {
            assert(i == targets@.len());
            assert(tail.take(i - 1) =~= tail);
        } else {
            assert(all.take(MAX_CONNECTIONS as int) =~= seen);
        }
    }
    Ok((center, rest))
}

/// Filtering a prefix gives a prefix of the filtered sequence.
proof fn lemma_filter_prefix(s: Seq<Point>, k: int, pred: spec_fn(Point) -> bool)
    requires
        0 <= k <= s.len(),
    ensures
        s.take(k).filter(pred).len() <= s.filter(pred).len(),
        s.filter(pred).take(s.take(k).filter(pred).len() as int) == s.take(k).filter(pred),
    decreases s.len() - k,
{
    if k < s.len() {
        lemma_filter_prefix(s, k + 1, pred);
        assert(s.take(k + 1) =~= s.take(k).push(s[k]));
        s.take(k).lemma_filter_push(s[k], pred);
        let a = s.take(k).filter(pred);
        let b = s.take(k + 1).filter(pred);
        assert(b.take(a.len() as int) =~= a);
        assert(s.filter(pred).take(a.len() as int) =~= b.take(a.len() as int));
    } else {
        assert(s.take(k) =~= s);
        assert(s.filter(pred).take(s.filter(pred).len() as int) =~= s.filter(pred));
    }
}

/// How many steps of a path of `path_len` steps get a road: all but the
/// last, none for a path shorter than two steps.
pub fn road_steps(path_len: usize) -> (n: usize)
    ensures
        n == if path_len < 2 { 0 } else { path_len - 1 },
{
    if path_len < 2 {
        0
    } else {
        path_len - 1
    }
}

} // verus!

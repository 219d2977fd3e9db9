use super::point::Point;
use crate::bounded::{points_as_slice, points_new, points_of, points_push};
use crate::collections::arrayqueue::spec_push_back_all;
use crate::collections::{ArrayQueue, FlagGrid, FlagGrid1717, QueueError};
use arrayvec::ArrayVec;
use vstd::prelude::*;

verus! {

/// Marks a 3×3 square of the room as explored.
pub const DONE_FLAG: u8 = 1;

/// Parity of the tiles left free for walking inside an explored square.
pub const PARITY: i16 = 1;

/// Whether a point's 3×3 square lies on the 17×17 exploration grid.
pub open spec fn in_grid(p: Point) -> bool {
    0 <= p.0 <= 50 && 0 <= p.1 <= 50
}

/// Index of a point's 3×3 square in the exploration grid.
pub open spec fn square_index(p: Point) -> int {
    (p.0 / 3) * 17 + p.1 / 3
}

/// The square at `(x, y)` as a one element list if it lies far enough from
/// the border, else an empty list.
pub open spec fn tile_if_inner(x: int, y: int) -> Seq<Point> {
    if 4 <= x < 46 && 4 <= y <= 46 {
        seq![Point(x as i16, y as i16)]
    } else {
        Seq::empty()
    }
}

/// The squares two tiles away in a + pattern, in the order `(+2, 0)`,
/// `(0, +2)`, `(0, -2)`, `(-2, 0)`, that lie far enough from the border.
pub open spec fn neighbour_tiles(p: Point) -> Seq<Point> {
    tile_if_inner(p.0 + 2, p.1 + 0) + tile_if_inner(p.0 + 0, p.1 + 2) + tile_if_inner(p.0 + 0, p.1 - 2)
        + tile_if_inner(p.0 - 2, p.1 + 0)
}

/// The tiles of the 3×3 square around `p`, row by row.
pub open spec fn tile_of(p: Point) -> Seq<Point> {
    seq![
        Point((p.0 - 1) as i16, (p.1 - 1) as i16),
        Point(p.0, (p.1 - 1) as i16),
        Point((p.0 + 1) as i16, (p.1 - 1) as i16),
        Point((p.0 - 1) as i16, p.1),
        Point(p.0, p.1),
        Point((p.0 + 1) as i16, p.1),
        Point((p.0 - 1) as i16, (p.1 + 1) as i16),
        Point(p.0, (p.1 + 1) as i16),
        Point((p.0 + 1) as i16, (p.1 + 1) as i16),
    ]
}

/// `q` as a one element list if it lies in the room, else an empty list.
pub open spec fn tile_if_in_room(q: Point) -> Seq<Point> {
    if 0 <= q.0 < 50 && 0 <= q.1 < 50 {
        seq![q]
    } else {
        Seq::empty()
    }
}

/// The tiles of the square around `p` left free for walking (odd positions
/// of `tile_of`) that lie in the room.
pub open spec fn walkable_tiles(p: Point) -> Seq<Point> {
    tile_if_in_room(tile_of(p)[1]) + tile_if_in_room(tile_of(p)[3]) + tile_if_in_room(tile_of(p)[5])
        + tile_if_in_room(tile_of(p)[7])
}

/// The area looked at for a square around `p`: `(min_x, min_y, max_x,
/// max_y)`, clamped to the room.
pub open spec fn tile_area(p: Point) -> (int, int, int, int) {
    (
        if p.0 - 1 > 0 { p.0 - 1 } else { 0 },
        if p.1 - 1 > 0 { p.1 - 1 } else { 0 },
        if p.0 + 1 < 49 { p.0 + 1 } else { 49 },
        if p.1 + 1 < 49 { p.1 + 1 } else { 49 },
    )
}

/// The distinct positions of `taken` whose coordinates have a sum of the
/// other parity than walking tiles.
pub open spec fn blocked_set(taken: Seq<(u32, u32)>) -> Set<(u32, u32)> {
    taken.to_set().filter(|t: (u32, u32)| (t.0 + t.1) % 2 != PARITY)
}

/// Number of free tiles counted in a square: its clamped area less the
/// blocked positions.
pub open spec fn free_count(p: Point, taken: Seq<(u32, u32)>) -> int {
    let a = tile_area(p);
    (a.2 - a.0) * (a.3 - a.1) - blocked_set(taken).len()
}

/// The exploration flags once the first square of `todo` is explored.
pub open spec fn explored_done(todo: Seq<Point>, done: Seq<u8>) -> Seq<u8> {
    done.update(square_index(todo[0]), done[square_index(todo[0])] | DONE_FLAG)
}

/// The squares still to explore once the first square of `todo` is
/// explored: the rest, then the neighbouring squares that are neither queued
/// nor explored, in the order of `neighbour_tiles`, the queue keeping its
/// newest 128.
pub open spec fn explored_todo(todo: Seq<Point>, done: Seq<u8>) -> Seq<Point> {
    let rest = todo.drop_first();
    let flags = explored_done(todo, done);
    spec_push_back_all(
        rest,
        neighbour_tiles(todo[0]).filter(
            |p: Point| !rest.contains(p) && flags[square_index(p)] & DONE_FLAG == 0,
        ),
        128,
    )
}

/// Represents a room split up into 3×3 squares.
/// Uses breadth first search to find empty spaces.
#[derive(Debug, Clone)]
pub struct ConstructionMatrix {
    /// 3×3 positions that have not been explored yet
    todo: ArrayQueue<Point, 128>,
    /// 3×3 positions that have been explored already
    done: FlagGrid1717,
    /// 1×1 positions that are open for constructions
    open_positions: ArrayQueue<Point, 8>,
}

/// Why no position could be found.
#[derive(Debug, Clone)]
pub enum ConstructionMatrixError {
    /// The room, by name, has no space left.
    OutOfSpace(String),
}

/// What finding the next position for a construction gives.
#[derive(Debug, Clone, Copy, PartialEq, Eq, Structural)]
pub enum NextPos {
    /// A position open for constructions.
    Open(Point),
    /// The square around this point was explored and its area has to be
    /// looked at, for `finish_survey`.
    Survey(Point),
}

impl ConstructionMatrix {
    /// The internal invariant: the queues and the grid are well formed.
    pub closed spec fn wf(&self) -> bool {
        &&& self.todo.wf()
        &&& self.done.wf()
        &&& self.open_positions.wf()
    }

    /// Squares still to explore, first to be explored first.
    pub closed spec fn todo(&self) -> Seq<Point> {
        self.todo@
    }

    /// Flags of the explored squares.
    pub closed spec fn done(&self) -> Seq<u8> {
        self.done.cells()
    }

    /// Positions open for constructions, next first.
    pub closed spec fn open_positions(&self) -> Seq<Point> {
        self.open_positions@
    }

    /// A matrix with nothing to explore and nothing found.
    pub fn new() -> (m: Self)
        ensures
            m.wf(),
            m.todo() == Seq::<Point>::empty(),
            m.open_positions() == Seq::<Point>::empty(),
            forall|i: int| 0 <= i < 289 ==> #[trigger] m.done()[i] == 0,
            m.done().len() == 289,
    {
        ConstructionMatrix {
            todo: ArrayQueue::new(),
            done: FlagGrid1717::default(),
            open_positions: ArrayQueue::new(),
        }
    }

    /// Add a square to explore.
    pub fn with_position(self, pos: Point) -> (m: Self)
        requires
            self.wf(),
        ensures
            m.wf(),
            m.todo() == crate::collections::arrayqueue::spec_push_back(self.todo(), pos, 128),
            m.done() == self.done(),
            m.open_positions() == self.open_positions(),
    {
        let mut m = self;
        m.todo.push_back(pos);
        m
    }

    /// Take the next position open for constructions.
    pub fn pop_open_pos(&mut self) -> (p: Option<Point>)
        requires
            old(self).wf(),
        ensures
            final(self).wf(),
            old(self).open_positions().len() == 0 ==> p is None && final(self).open_positions()
                == old(self).open_positions(),
            old(self).open_positions().len() > 0 ==> p == Some(old(self).open_positions()[0])
                && final(self).open_positions() == old(self).open_positions().drop_first(),
            final(self).todo() == old(self).todo(),
            final(self).done() == old(self).done(),
    {
        self.open_positions.try_pop_front().ok()
    }

    /// The next position open for constructions, left in place.
    pub fn peek_open_pos(&self) -> (p: Option<Point>)
        requires
            self.wf(),
        ensures
            self.open_positions().len() == 0 ==> p is None,
            self.open_positions().len() > 0 ==> p == Some(self.open_positions()[0]),
    {
        match self.open_positions.front() {
            Ok(x) => Some(*x),
            Err(_) => None,
        }
    }

    /// Whether the next call of `find_next_pos` can go ahead: an open
    /// position is ready, nothing is left to explore, or the next square to
    /// explore lies on the grid (a square off the grid cannot be explored).
    pub open spec fn can_explore_next(&self) -> bool {
        self.open_positions().len() > 0 || self.todo().len() == 0 || in_grid(self.todo()[0])
    }

    /// Whether the next call of `find_next_pos` can go ahead, as
    /// `can_explore_next` says.
    pub fn next_square_on_grid(&self) -> (b: bool)
        requires
            self.wf(),
        ensures
            b == self.can_explore_next(),
    {
        if self.open_positions.len() > 0 {
            return true;
        }
        match self.todo.front() {
            Ok(p) => 0 <= p.0 && p.0 <= 50 && 0 <= p.1 && p.1 <= 50,
            Err(_) => true,
        }
    }

    /// Check neighbours in a + pattern.
    fn valid_neighbouring_tiles(pos: Point) -> (v: ArrayVec<Point, 4>)
        requires
            in_grid(pos),
        ensures
            points_of(v) == neighbour_tiles(pos),
    {
        let x = pos.0;
        let y = pos.1;
        let mut v = points_new();
        let cands = [(x + 2, y), (x, y + 2), (x, y - 2), (x - 2, y)];
        let mut i: usize = 0;
        while i < 4
            invariant
                i <= 4,
                cands@ == seq![
                    ((x + 2) as i16, y),
                    (x, (y + 2) as i16),
                    (x, (y - 2) as i16),
                    ((x - 2) as i16, y),
                ],
                in_grid(pos),
                x == pos.0 && y == pos.1,
                points_of(v) == if i == 0 {
                    Seq::<Point>::empty()
                } else if i == 1 {
                    tile_if_inner(pos.0 + 2, pos.1 + 0)
                } else if i == 2 {
                    tile_if_inner(pos.0 + 2, pos.1 + 0) + tile_if_inner(pos.0 + 0, pos.1 + 2)
                } else if i == 3 {
                    tile_if_inner(pos.0 + 2, pos.1 + 0) + tile_if_inner(pos.0 + 0, pos.1 + 2)
                        + tile_if_inner(pos.0 + 0, pos.1 - 2)
                } else {
                    neighbour_tiles(pos)
                },
                points_of(v).len() <= i,
            decreases 4 - i,
        {
            let (cx, cy) = cands[i];
            let ghost before = points_of(v);
            if 4 <= cx && cx < 50 - 4 && 4 <= cy && cy <= 50 - 4 {
                points_push(&mut v, Point(cx, cy));
                assert(points_of(v) =~= before + tile_if_inner(cx as int, cy as int));
            } else {
                assert(points_of(v) =~= before + tile_if_inner(cx as int, cy as int));
            }
            proof {
                if i == 0 {
                    assert(points_of(v) =~= tile_if_inner(pos.0 + 2, pos.1 + 0));
                }
            }
            i = i + 1;
        }
        v
    }

    /// Whether `p` is one of `items`.
    fn contains(items: &Vec<Point>, p: Point) -> (b: bool)
        ensures
            b == items@.contains(p),
    {
        let mut i: usize = 0;
        while i < items.len()
            invariant
                i <= items@.len(),
                forall|j: int| 0 <= j < i ==> items@[j] != p,
            decreases items@.len() - i,
        {
            if items[i] == p {
                return true;
            }
            i = i + 1;
        }
        false
    }

    /// First half of exploring a square: take the next square to explore,
    /// mark it explored and queue its unexplored neighbours. The free tiles
    /// of the square are then counted with `settle_tile`.
    pub fn take_next_tile(&mut self) -> (r: Option<Point>)
        requires
            old(self).wf(),
            old(self).todo().len() > 0 ==> in_grid(old(self).todo()[0]),
        ensures
            final(self).wf(),
            final(self).open_positions() == old(self).open_positions(),
            old(self).todo().len() == 0 ==> r is None && final(self).todo() == old(self).todo()
                && final(self).done() == old(self).done(),
            old(self).todo().len() > 0 ==> r == Some(old(self).todo()[0]) && final(self).done()
                == explored_done(old(self).todo(), old(self).done()) && final(self).todo()
                == explored_todo(old(self).todo(), old(self).done()),
    {
        let pos = match self.todo.try_pop_front() {
            Ok(p) => p,
            Err(_) => return None,
        };
        let ghost old_todo = old(self).todo@;
        assert(in_grid(old_todo[0]));
        let x = pos.0;
        let y = pos.1;
        {
            let x = x as usize / 3;
            let y = y as usize / 3;
            let cell = self.done.get(x, y);
            self.done.set(x, y, cell | DONE_FLAG);
        }
        let ghost rest = self.todo@;
        let ghost done = self.done.cells();
        let ghost keep = |p: Point| !rest.contains(p) && done[square_index(p)] & DONE_FLAG == 0;
        let todo = self.todo.to_vec();
        let candidates = Self::valid_neighbouring_tiles(pos);
        let cands = points_as_slice(&candidates);
        let mut fresh: Vec<Point> = Vec::new();
        let mut i: usize = 0;
        while i < cands.len()
            invariant
                i <= cands@.len(),
                cands@ == neighbour_tiles(pos),
                todo@ == rest,
                keep == (|p: Point| !rest.contains(p) && done[square_index(p)] & DONE_FLAG == 0),
                self.done.wf(),
                self.done.cells() == done,
                fresh@ == cands@.take(i as int).filter(keep),
                forall|j: int| 0 <= j < fresh@.len() ==> 4 <= (#[trigger] fresh@[j]).0 < 46 && 4 <= fresh@[j].1 <= 46,
            decreases cands@.len() - i,
        {
            let p = cands[i];
            proof {
                lemma_neighbour_tiles_in_range(pos);
                cands@.take(i as int).lemma_filter_push(p, keep);
                assert(cands@.take(i + 1) =~= cands@.take(i as int).push(p));
            }
            let seen = Self::contains(&todo, p);
            let flags = self.done.get(p.0 as usize / 3, p.1 as usize / 3);
            assert(square_index(p) == (p.0 as usize / 3) * 17 + (p.1 as usize / 3));
            assert(keep(p) == (!seen && flags & DONE_FLAG == 0));
            if !seen && flags & DONE_FLAG == 0 {
                fresh.push(p);
            }
            i = i + 1;
        }
        assert(cands@.take(cands@.len() as int) =~= cands@);
        self.todo.extend(fresh);
        Some(pos)
    }

    /// The area looked at for the square around `pos`: `(min_x, min_y, max_x,
    /// max_y)`, clamped to the room.
    pub fn tile_bounds(pos: Point) -> (a: (u32, u32, u32, u32))
        requires
            in_grid(pos),
        ensures
            a.0 == tile_area(pos).0 && a.1 == tile_area(pos).1 && a.2 == tile_area(pos).2 && a.3
                == tile_area(pos).3,
    {
        let x = pos.0;
        let y = pos.1;
        let minx = if x - 1 > 0 { x - 1 } else { 0 };
        let miny = if y - 1 > 0 { y - 1 } else { 0 };
        let maxx = if x + 1 < 49 { x + 1 } else { 49 };
        let maxy = if y + 1 < 49 { y + 1 } else { 49 };
        (minx as u32, miny as u32, maxx as u32, maxy as u32)
    }

    /// Second half of exploring the square around `pos`: `taken` lists the
    /// positions of the area of `tile_bounds(pos)` that hold a wall, a
    /// structure other than a road or a construction site. With more than 3
    /// free tiles the square and its walkable tiles are added to the open
    /// positions and the square is returned.
    pub fn settle_tile(&mut self, pos: Point, taken: &[(u32, u32)]) -> (r: Option<Point>)
        requires
            old(self).wf(),
            in_grid(pos),
            free_count(pos, taken@) >= 0,
        ensures
            final(self).wf(),
            final(self).todo() == old(self).todo(),
            final(self).done() == old(self).done(),
            free_count(pos, taken@) > 3 ==> r == Some(pos) && final(self).open_positions()
                == spec_push_back_all(old(self).open_positions(), seq![pos] + walkable_tiles(pos), 8),
            free_count(pos, taken@) <= 3 ==> r is None && final(self).open_positions()
                == old(self).open_positions(),
    {
        let x = pos.0;
        let y = pos.1;
        let (minx, miny, maxx, maxy) = Self::tile_bounds(pos);
        let n_taken = count_blocked(taken);
        assert((maxx - minx) * (maxy - miny) <= 4) by (nonlinear_arith)
            requires
                minx <= maxx <= minx + 2,
                miny <= maxy <= miny + 2,
        ;
        let area = (maxx - minx) * (maxy - miny);
        let n_free = area - n_taken as u32;
        if n_free > 3 {
            let tile = [
                Point(x - 1, y - 1), Point(x + 0, y - 1), Point(x + 1, y - 1),
                Point(x - 1, y + 0), Point(x + 0, y + 0), Point(x + 1, y + 0),
                Point(x - 1, y + 1), Point(x + 0, y + 1), Point(x + 1, y + 1),
            ];
            let mut extra: Vec<Point> = Vec::new();
            extra.push(pos);
            let ghost t = tile_of(pos);
            assert(tile@ == t);
            if tile[1].is_valid_room_position() {
                extra.push(tile[1]);
            }
            assert(extra@ =~= seq![pos] + tile_if_in_room(t[1]));
            if tile[3].is_valid_room_position() {
                extra.push(tile[3]);
            }
            assert(extra@ =~= seq![pos] + tile_if_in_room(t[1]) + tile_if_in_room(t[3]));
            if tile[5].is_valid_room_position() {
                extra.push(tile[5]);
            }
            assert(extra@ =~= seq![pos] + tile_if_in_room(t[1]) + tile_if_in_room(t[3])
                + tile_if_in_room(t[5]));
            if tile[7].is_valid_room_position() {
                extra.push(tile[7]);
            }
            assert(extra@ =~= seq![pos] + walkable_tiles(pos));
            self.open_positions.extend(extra);
            Some(pos)
        } else {
            None
        }
    }
}

impl ConstructionMatrix {
    /// Find the next position open for constructions in the room named
    /// `room_name`: the first open position if there is one, else the next
    /// square is explored and its area has to be looked at. With nothing
    /// left to explore the room is out of space.
    pub fn find_next_pos(&mut self, room_name: &String) -> (r: Result<NextPos, ConstructionMatrixError>)
        requires
            old(self).wf(),
            old(self).can_explore_next(),
        ensures
            final(self).wf(),
            final(self).open_positions() == old(self).open_positions(),
            old(self).open_positions().len() > 0 ==> r == Ok::<NextPos, ConstructionMatrixError>(
                NextPos::Open(old(self).open_positions()[0]),
            ) && final(self).todo() == old(self).todo() && final(self).done() == old(self).done(),
            old(self).open_positions().len() == 0 && old(self).todo().len() == 0 ==> (r matches Err(
                ConstructionMatrixError::OutOfSpace(n),
            ) && n@ == room_name@) && final(self).todo() == old(self).todo() && final(self).done()
                == old(self).done(),
            old(self).open_positions().len() == 0 && old(self).todo().len() > 0 ==> r
                == Ok::<NextPos, ConstructionMatrixError>(NextPos::Survey(old(self).todo()[0]))
                && final(self).done() == explored_done(old(self).todo(), old(self).done())
                && final(self).todo() == explored_todo(old(self).todo(), old(self).done()),
            r matches Ok(NextPos::Survey(p)) ==> in_grid(p),
    {
        if let Some(p) = self.peek_open_pos() {
            return Ok(NextPos::Open(p));
        }
        let ghost old_todo = self.todo@;
        match self.take_next_tile() {
            Some(p) => {
                assert(in_grid(old_todo[0]));
                Ok(NextPos::Survey(p))
            },
            None => Err(ConstructionMatrixError::OutOfSpace(room_name.clone())),
        }
    }

    /// Finish exploring the square around `pos` after `find_next_pos` asked
    /// for it, `taken` as for `settle_tile`: the square if it has enough
    /// free tiles, else the room named `room_name` is out of space.
    pub fn finish_survey(&mut self, room_name: &String, pos: Point, taken: &[(u32, u32)]) -> (r: Result<
        Point,
        ConstructionMatrixError,
    >)
        requires
            old(self).wf(),
            in_grid(pos),
            free_count(pos, taken@) >= 0,
        ensures
            final(self).wf(),
            final(self).todo() == old(self).todo(),
            final(self).done() == old(self).done(),
            free_count(pos, taken@) > 3 ==> r == Ok::<Point, ConstructionMatrixError>(pos)
                && final(self).open_positions() == spec_push_back_all(
                old(self).open_positions(),
                seq![pos] + walkable_tiles(pos),
                8,
            ),
            free_count(pos, taken@) <= 3 ==> (r matches Err(ConstructionMatrixError::OutOfSpace(n))
                && n@ == room_name@) && final(self).open_positions() == old(self).open_positions(),
    {
        match self.settle_tile(pos, taken) {
            Some(p) => Ok(p),
            None => Err(ConstructionMatrixError::OutOfSpace(room_name.clone())),
        }
    }
}

impl ConstructionMatrix {
    /// A matrix made of its parts, as stored: the squares still to explore,
    /// the exploration flags and the open positions; `Full` if a list is
    /// longer than its queue holds.
    pub fn from_parts(todo: &[Point], done: FlagGrid1717, open_positions: &[Point]) -> (r: Result<
        Self,
        QueueError,
    >)
        requires
            done.wf(),
        ensures
            todo@.len() <= 128 && open_positions@.len() <= 8 ==> (r matches Ok(m) && m.wf() && m.todo()
                == todo@ && m.done() == done.cells() && m.open_positions() == open_positions@),
            todo@.len() > 128 || open_positions@.len() > 8 ==> r matches Err(QueueError::Full),
    {
        let todo = match ArrayQueue::try_from_slice(todo) {
            Ok(q) => q,
            Err(e) => return Err(e),
        };
        let open_positions = match ArrayQueue::try_from_slice(open_positions) {
            Ok(q) => q,
            Err(e) => return Err(e),
        };
        Ok(ConstructionMatrix { todo, done, open_positions })
    }

    /// The squares still to explore, first to be explored first.
    pub fn todo_points(&self) -> (v: Vec<Point>)
        requires
            self.wf(),
        ensures
            v@ == self.todo(),
    {
        self.todo.to_vec()
    }

    /// The exploration flags.
    pub fn done_grid(&self) -> (g: &FlagGrid1717)
        requires
            self.wf(),
        ensures
            g.wf(),
            g.cells() == self.done(),
    {
        &self.done
    }

    /// The positions open for constructions, next first.
    pub fn open_points(&self) -> (v: Vec<Point>)
        requires
            self.wf(),
        ensures
            v@ == self.open_positions(),
    {
        self.open_positions.to_vec()
    }
}

impl Default for ConstructionMatrix {
    fn default() -> (m: Self)
        ensures
            m.wf(),
            m.todo() == Seq::<Point>::empty(),
            m.open_positions() == Seq::<Point>::empty(),
            forall|i: int| 0 <= i < 289 ==> #[trigger] m.done()[i] == 0,
    {
        Self::new()
    }
}

/// Number of distinct blocked positions in `taken`.
fn count_blocked(taken: &[(u32, u32)]) -> (n: usize)
    ensures
        n == blocked_set(taken@).len(),
{
    let mut seen: Vec<(u32, u32)> = Vec::new();
    let mut i: usize = 0;
    let ghost pred = |t: (u32, u32)| (t.0 + t.1) % 2 != PARITY;
    while i < taken.len()
        invariant
            i <= taken@.len(),
            pred == (|t: (u32, u32)| (t.0 + t.1) % 2 != PARITY),
            seen@.no_duplicates(),
            seen@.to_set() == taken@.take(i as int).to_set().filter(pred),
        decreases taken@.len() - i,
    {
        let t = taken[i];
        assert(taken@.take(i + 1) =~= taken@.take(i as int).push(t));
        proof {
            taken@.take(i as int).lemma_push_to_set_commute(t);
        }
        if (t.0 as u64 + t.1 as u64) % 2 != 1 {
            let mut found = false;
            let mut j: usize = 0;
            while j < seen.len()
                invariant
                    j <= seen@.len(),
                    found == exists|k: int| 0 <= k < j && seen@[k] == t,
                decreases seen@.len() - j,
            {
                if seen[j].0 == t.0 && seen[j].1 == t.1 {
                    found = true;
                }
                j = j + 1;
            }
            if !found {
                proof {
                    seen@.lemma_push_to_set_commute(t);
                    assert(!seen@.contains(t));
                }
                seen.push(t);
            } else {
                assert(seen@.contains(t));
            }
            assert(pred(t));
            assert(seen@.to_set() =~= taken@.take(i + 1).to_set().filter(pred));
        } else {
            assert(!pred(t));
            assert(seen@.to_set() =~= taken@.take(i + 1).to_set().filter(pred));
        }
        i = i + 1;
    }
    assert(taken@.take(taken@.len() as int) =~= taken@);
    proof {
        seen@.unique_seq_to_set();
    }
    seen.len()
}

/// Only tiles that are not for walking block a square: a taken position on
/// a walking tile (its coordinates add up to an odd number) never lowers the
/// free count of a square, nor does a position already taken; any other
/// newly taken position lowers it by one. A square with nothing taken has
/// its whole clamped area free.
pub proof fn law_walking_tiles_never_block(p: Point, taken: Seq<(u32, u32)>, t: (u32, u32))
    ensures
        (t.0 + t.1) % 2 == 1 ==> free_count(p, taken.push(t)) == free_count(p, taken),
        taken.contains(t) ==> free_count(p, taken.push(t)) == free_count(p, taken),
        (t.0 + t.1) % 2 == 0 && !taken.contains(t) ==> free_count(p, taken.push(t)) == free_count(p, taken)
            - 1,
        free_count(p, Seq::empty()) == (tile_area(p).2 - tile_area(p).0) * (tile_area(p).3 - tile_area(p).1),
{
    let pred = |u: (u32, u32)| (u.0 + u.1) % 2 != PARITY;
    taken.lemma_push_to_set_commute(t);
    vstd::seq_lib::seq_to_set_is_finite(taken);
    let before = taken.to_set().filter(pred);
    let after = taken.push(t).to_set().filter(pred);
    assert(before.finite());
    if pred(t) && !taken.contains(t) {
        assert(!taken.to_set().contains(t));
        assert(after =~= before.insert(t));
        assert(!before.contains(t));
    } else {
        if taken.contains(t) {
            assert(taken.to_set().contains(t));
        }
        assert(after =~= before);
    }
    let e = Seq::<(u32, u32)>::empty();
    assert(e.to_set() =~= Set::<(u32, u32)>::empty()) by {
        vstd::seq_lib::seq_to_set_is_finite(e);
        assert forall|u: (u32, u32)| !e.to_set().contains(u) by {}
    }
    assert(blocked_set(e) =~= Set::<(u32, u32)>::empty());
}

proof fn lemma_neighbour_tiles_in_range(pos: Point)
    ensures
        forall|j: int|
            0 <= j < neighbour_tiles(pos).len() ==> 4 <= (#[trigger] neighbour_tiles(pos)[j]).0 < 46
                && 4 <= neighbour_tiles(pos)[j].1 <= 46,
{
}

} // verus!

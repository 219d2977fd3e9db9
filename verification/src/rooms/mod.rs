//! Positions of rooms in the world.
pub mod world_position;

pub use self::world_position::WorldPosition;

use self::world_position::{abs_int, room_coords, room_name, room_name_overflows};
use crate::bounded::name_as_str;
use vstd::prelude::*;

verus! {

/// Whether the coordinate differences of two rooms fit the arithmetic of
/// `manhatten_distance`: each lies in `-32767..=32767`.
pub open spec fn differences_fit(a: (int, int), b: (int, int)) -> bool {
    -32767 <= a.0 - b.0 <= 32767 && -32767 <= a.1 - b.1 <= 32767
}

/// Manhattan distance between two rooms given by name.
pub fn manhatten_distance(one: &str, other: &str) -> (r: Result<i32, &'static str>)
    requires
        !room_name_overflows(one@),
        room_coords(one@) is Some ==> !room_name_overflows(other@),
        room_coords(one@) is Some && room_coords(other@) is Some ==> differences_fit(
            room_coords(one@)->0,
            room_coords(other@)->0,
        ),
    ensures
        (room_coords(one@) is None || room_coords(other@) is None) ==> (r matches Err(m) && m@
            == "Failed to parse coordinates"@),
        room_coords(one@) matches Some(a) ==> (room_coords(other@) matches Some(b) ==> r
            == Ok::<i32, &'static str>((abs_int(a.0 - b.0) + abs_int(a.1 - b.1)) as i32)),
{
    let one = match WorldPosition::parse_name(one) {
        Ok(p) => p,
        Err(e) => return Err(e),
    };
    let other = match WorldPosition::parse_name(other) {
        Ok(p) => p,
        Err(e) => return Err(e),
    };
    let dx: i16 = one.0[0] - other.0[0];
    let dy: i16 = one.0[1] - other.0[1];
    let x = (if dx < 0 { -dx } else { dx }) as i32;
    let y = (if dy < 0 { -dy } else { dy }) as i32;
    Ok(x + y)
}

/// The neighbouring room of `p` in direction `k` (north, west, south,
/// east for 0 to 3).
pub open spec fn neighbour_coords(p: (int, int), k: int) -> (int, int) {
    if k == 0 {
        (p.0, p.1 + 1)
    } else if k == 1 {
        (p.0 - 1, p.1)
    } else if k == 2 {
        (p.0, p.1 - 1)
    } else {
        (p.0 + 1, p.1)
    }
}

/// The position read back from the name of the room at `c`.
pub open spec fn reread(c: (int, int)) -> (int, int) {
    room_coords(room_name(c.0, c.1))->0
}

/// Whether the name of the room at `c` reads back.
pub open spec fn rereadable(c: (int, int)) -> bool {
    !room_name_overflows(room_name(c.0, c.1)) && room_coords(room_name(c.0, c.1)) is Some
}

/// The neighbours of `p` in the first `n` directions that have an exit,
/// each read back from its name.
pub open spec fn exit_neighbours(p: (int, int), exits: Seq<bool>, n: int) -> Seq<(int, int)>
    decreases n,
{
    if n <= 0 {
        Seq::empty()
    } else if exits[n - 1] {
        exit_neighbours(p, exits, n - 1).push(reread(neighbour_coords(p, n - 1)))
    } else {
        exit_neighbours(p, exits, n - 1)
    }
}

/// The neighbouring rooms of the room at `pos` that its exits lead to:
/// `exits` says, north, west, south and east, whether the room has an exit
/// to that neighbour. Each is named and read back from its name.
pub fn neighbours(pos: WorldPosition, exits: [bool; 4]) -> (v: Vec<WorldPosition>)
    requires
        -9999 <= pos.0[0] <= 9999,
        -9999 <= pos.0[1] <= 9999,
        forall|k: int| 0 <= k < 4 && #[trigger] exits@[k] ==> rereadable(neighbour_coords(pos.coords(), k)),
    ensures
        v@.len() == exit_neighbours(pos.coords(), exits@, 4).len(),
        forall|i: int| 0 <= i < v@.len() ==> (#[trigger] v@[i]).coords() == exit_neighbours(pos.coords(), exits@, 4)[i],
{
    let around = pos.neighbours_in_vectors();
    let mut v: Vec<WorldPosition> = Vec::new();
    let mut k: usize = 0;
    while k < 4
        invariant
            k <= 4,
            -9999 <= pos.0[0] <= 9999,
            -9999 <= pos.0[1] <= 9999,
            forall|j: int| 0 <= j < 4 ==> (#[trigger] around@[j]).coords() == neighbour_coords(pos.coords(), j),
            forall|j: int| 0 <= j < 4 && #[trigger] exits@[j] ==> rereadable(neighbour_coords(pos.coords(), j)),
            v@.len() == exit_neighbours(pos.coords(), exits@, k as int).len(),
            forall|i: int| 0 <= i < v@.len() ==> (#[trigger] v@[i]).coords() == exit_neighbours(pos.coords(), exits@, k as int)[i],
        decreases 4 - k,
    {
        if exits[k] {
            let n = around[k];
            assert(n.coords() == neighbour_coords(pos.coords(), k as int));
            let name = n.to_string();
            let text = name_as_str(&name);
            match WorldPosition::parse_name(text) {
                Ok(p) => {
                    v.push(p);
                },
                Err(_) => {
                    assert(false);
                },
            }
        }
        k = k + 1;
    }
    v
}

} // verus!

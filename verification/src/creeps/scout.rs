//! Scouts: visit the neighbouring rooms, oldest intel first.
use crate::rooms::WorldPosition;
use vstd::prelude::*;

verus! {

/// Where the scan of the neighbours stands: the oldest recording time seen,
/// the room picked so far and whether a room without intel was found.
pub open spec fn scout_scan(rooms: Seq<(WorldPosition, Option<u32>)>) -> (int, WorldPosition, bool)
    decreases rooms.len(),
{
    if rooms.len() == 0 {
        (1073741824int, WorldPosition([0, 0]), false)
    } else {
        let (min, target, stopped) = scout_scan(rooms.drop_last());
        let (room, intel) = rooms.last();
        if stopped {
            (min, target, stopped)
        } else {
            match intel {
                Some(t) => if t < min {
                    (t as int, room, false)
                } else {
                    (min, target, false)
                },
                None => (min, room, true),
            }
        }
    }
}

/// The position of the first room without intel, if any.
pub open spec fn first_unknown(rooms: Seq<(WorldPosition, Option<u32>)>) -> Option<int>
    decreases rooms.len(),
{
    if rooms.len() == 0 {
        None
    } else {
        match first_unknown(rooms.drop_last()) {
            Some(j) => Some(j),
            None => if rooms.last().1 is None {
                Some(rooms.len() - 1)
            } else {
                None
            },
        }
    }
}

/// A scout goes to the first room without intel if there is one; else to
/// a room whose intel is the oldest of all and older than tick `2^30`, the
/// first such, or, when no intel is that old, to the room at `[0, 0]`.
pub proof fn law_scout_prefers_unknown_then_oldest(rooms: Seq<(WorldPosition, Option<u32>)>)
    ensures
        first_unknown(rooms) matches Some(j) ==> 0 <= j < rooms.len() && rooms[j].1 is None && (forall|i: int|
            0 <= i < j ==> #[trigger] rooms[i].1 is Some) && scout_scan(rooms).1 == rooms[j].0,
        first_unknown(rooms) is None ==> {
            let (min, target, stopped) = scout_scan(rooms);
            &&& !stopped
            &&& forall|i: int| 0 <= i < rooms.len() ==> (#[trigger] rooms[i].1 matches Some(t) && min <= t)
            &&& min <= 1073741824
            &&& (min == 1073741824 ==> target == WorldPosition([0, 0]))
            &&& (min < 1073741824 ==> exists|k: int|
                0 <= k < rooms.len() && #[trigger] rooms[k].1 == Some(min as u32) && rooms[k].0 == target
                    && forall|i: int| 0 <= i < k ==> (#[trigger] rooms[i].1 matches Some(t) && min < t))
        },
    decreases rooms.len(),
{
    if rooms.len() > 0 {
        let prev = rooms.drop_last();
        let last = rooms.len() - 1;
        law_scout_prefers_unknown_then_oldest(prev);
        assert forall|i: int| 0 <= i < prev.len() implies #[trigger] prev[i] == rooms[i] by {}
        match first_unknown(prev) {
            Some(j) => {
                assert(scout_scan(prev).2) by {
                    lemma_scan_stops_at_unknown(prev, j);
                }
                assert(prev[j] == rooms[j]);
                assert(scout_scan(rooms) == scout_scan(prev));
                assert(first_unknown(rooms) == Some(j));
                assert forall|i: int| 0 <= i < j implies #[trigger] rooms[i].1 is Some by {
                    assert(prev[i] == rooms[i]);
                }
            },
            None => {
                let (min, target, stopped) = scout_scan(prev);
                if rooms[last].1 is None {
                    assert forall|i: int| 0 <= i < last implies #[trigger] rooms[i].1 is Some by {
                        assert(prev[i] == rooms[i]);
                    }
                    assert(first_unknown(rooms) == Some(last));
                    assert(scout_scan(rooms).1 == rooms[last].0);
                } else {
                    let t = rooms[last].1->0;
                    let (min2, target2, stopped2) = scout_scan(rooms);
                    assert forall|i: int| 0 <= i < rooms.len() implies (#[trigger] rooms[i].1 matches Some(u) && min2
                        <= u) by {
                        if i < last {
                            assert(prev[i] == rooms[i]);
                        }
                    }
                    if min2 < 1073741824 {
                        if t < min {
                            assert(rooms[last].1 == Some(min2 as u32));
                            assert forall|i: int| 0 <= i < last implies (#[trigger] rooms[i].1 matches Some(u) && min2
                                < u) by {
                                assert(prev[i] == rooms[i]);
                            }
                        } else {
                            let k = choose|k: int|
                                0 <= k < prev.len() && #[trigger] prev[k].1 == Some(min as u32) && prev[k].0 == target
                                    && forall|i: int| 0 <= i < k ==> (#[trigger] prev[i].1 matches Some(u) && min < u);
                            assert(rooms[k] == prev[k]);
                            assert forall|i: int| 0 <= i < k implies (#[trigger] rooms[i].1 matches Some(u) && min2
                                < u) by {
                                assert(prev[i] == rooms[i]);
                            }
                        }
                    }
                }
            },
        }
    }
}

/// Once a room without intel is met the scan has stopped.
proof fn lemma_scan_stops_at_unknown(rooms: Seq<(WorldPosition, Option<u32>)>, j: int)
    requires
        0 <= j < rooms.len(),
        rooms[j].1 is None,
    ensures
        scout_scan(rooms).2,
    decreases rooms.len(),
{
    if j < rooms.len() - 1 {
        lemma_scan_stops_at_unknown(rooms.drop_last(), j);
    }
}

/// The room a scout visits next among the neighbouring `rooms`, each with
/// the time its intel was recorded if there is intel: the first room
/// without intel, else the one of oldest intel (the first on a tie), else
/// the room at `[0, 0]`.
pub fn next_scout_room(rooms: &[(WorldPosition, Option<u32>)]) -> (r: WorldPosition)
    ensures
        r == scout_scan(rooms@).1,
{
    let mut min: u32 = 1073741824;
    let mut target = WorldPosition([0, 0]);
    let mut i: usize = 0;
    while i < rooms.len()
        invariant
            i <= rooms@.len(),
            scout_scan(rooms@.take(i as int)) == (min as int, target, false),
        decreases rooms@.len() - i,
    {
        let ghost prefix = rooms@.take(i + 1);
        assert(prefix.drop_last() =~= rooms@.take(i as int));
        let (room, intel) = rooms[i];
        match intel {
            Some(t) => {
                if t < min {
                    min = t;
                    target = room;
                }
            },
            None => {
                proof {
                    lemma_scan_stays(rooms@, i as int + 1);
                }
                return room;
            },
        }
        i = i + 1;
    }
    assert(rooms@.take(rooms@.len() as int) =~= rooms@);
    target
}

/// Once a room without intel is found the scan keeps it.
proof fn lemma_scan_stays(rooms: Seq<(WorldPosition, Option<u32>)>, k: int)
    requires
        1 <= k <= rooms.len(),
        scout_scan(rooms.take(k)).2,
    ensures
        scout_scan(rooms) == scout_scan(rooms.take(k)),
    decreases rooms.len() - k,
{
    if k < rooms.len() {
        let next = rooms.take(k + 1);
        assert(next.drop_last() =~= rooms.take(k));
        lemma_scan_stays(rooms, k + 1);
    } else {
        assert(rooms.take(k) =~= rooms);
    }
}

} // verus!

//! Long range harvesters: harvest energy in neighbouring rooms and bring it
//! home.
use crate::rooms::WorldPosition;
use crate::state::RoomIFF;
use vstd::prelude::*;

verus! {

/// What a long range harvester did last; its number, as stored in creep
/// memory, is its position in this list.
#[derive(Debug, Clone, Copy, PartialEq, Eq, Structural)]
pub enum LrhState {
    Idle,
    Loading,
    Unloading,
}

/// The state with number `n`, if any.
pub open spec fn lrh_state_of(n: u32) -> Option<LrhState> {
    if n == 0 {
        Some(LrhState::Idle)
    } else if n == 1 {
        Some(LrhState::Loading)
    } else if n == 2 {
        Some(LrhState::Unloading)
    } else {
        None
    }
}

/// The state recorded as `last_task`, read as a `u32` (cut to its low 32
/// bits); a number of no state reads as `Idle`.
pub fn last_lrh_state(last_task: i64) -> (s: LrhState)
    ensures
        s == match lrh_state_of(last_task as u32) {
            Some(t) => t,
            None => LrhState::Idle,
        },
{
    #[verifier::truncate]
    let n = last_task as u32;
    if n == 1 {
        LrhState::Loading
    } else if n == 2 {
        LrhState::Unloading
    } else {
        LrhState::Idle
    }
}

/// Priorities of the states: the last one gets 1, the others 0.
pub fn lrh_priorities(last: LrhState) -> (p: [i8; 3])
    ensures
        p@[0] == (if last == LrhState::Idle { 1i8 } else { 0i8 }),
        p@[1] == (if last == LrhState::Loading { 1i8 } else { 0i8 }),
        p@[2] == (if last == LrhState::Unloading { 1i8 } else { 0i8 }),
{
    match last {
        LrhState::Idle => [1, 0, 0],
        LrhState::Loading => [0, 1, 0],
        LrhState::Unloading => [0, 0, 1],
    }
}

/// Whether a room with this intel may be harvested: unknown rooms, rooms of
/// unknown holder and neutral rooms.
pub open spec fn harvestable(intel: Option<RoomIFF>) -> bool {
    match intel {
        None => true,
        Some(iff) => iff == RoomIFF::Unknown || iff == RoomIFF::Neutral,
    }
}

/// Among the first rooms of `rooms` (with their intel), the position of the
/// harvestable one sent the fewest harvesters per `counts`, the first on a
/// tie.
pub open spec fn least_sent(rooms: Seq<(WorldPosition, Option<RoomIFF>)>, counts: Seq<u8>) -> Option<int>
    decreases rooms.len(),
{
    if rooms.len() == 0 {
        None
    } else {
        let k = rooms.len() - 1;
        let prev = least_sent(rooms.drop_last(), counts);
        if harvestable(rooms[k].1) && (prev is None || counts[k] < counts[prev->0]) {
            Some(k)
        } else {
            prev
        }
    }
}

proof fn lemma_least_sent_range(rooms: Seq<(WorldPosition, Option<RoomIFF>)>, counts: Seq<u8>)
    ensures
        least_sent(rooms, counts) matches Some(i) ==> 0 <= i < rooms.len() && harvestable(rooms[i].1),
    decreases rooms.len(),
{
    if rooms.len() > 0 {
        lemma_least_sent_range(rooms.drop_last(), counts);
    }
}

/// The room picked is harvestable and was sent no more harvesters than any
/// other harvestable room, and fewer than every harvestable room before it.
pub proof fn law_least_sent_is_fewest(rooms: Seq<(WorldPosition, Option<RoomIFF>)>, counts: Seq<u8>)
    ensures
        least_sent(rooms, counts) is None <==> forall|i: int| 0 <= i < rooms.len() ==> !harvestable(#[trigger] rooms[i].1),
        least_sent(rooms, counts) matches Some(k) ==> 0 <= k < rooms.len() && harvestable(rooms[k].1)
            && forall|i: int| 0 <= i < rooms.len() && harvestable(#[trigger] rooms[i].1) ==> counts[k] <= counts[i]
                && (i < k ==> counts[k] < counts[i]),
    decreases rooms.len(),
{
    if rooms.len() > 0 {
        let prev = rooms.drop_last();
        law_least_sent_is_fewest(prev, counts);
        assert forall|i: int| 0 <= i < prev.len() implies #[trigger] prev[i] == rooms[i] by {}
        if least_sent(rooms, counts) is None {
            assert forall|i: int| 0 <= i < rooms.len() implies !harvestable(#[trigger] rooms[i].1) by {
                if i < prev.len() {
                    assert(prev[i] == rooms[i]);
                }
            }
        }
        if let Some(k) = least_sent(rooms, counts) {
            let last = rooms.len() - 1;
            assert forall|i: int| 0 <= i < rooms.len() && harvestable(#[trigger] rooms[i].1) implies counts[k]
                <= counts[i] && (i < k ==> counts[k] < counts[i]) by {
                if i < last {
                    assert(prev[i] == rooms[i]);
                }
            }
            if k < last {
                assert(prev[k] == rooms[k]);
            }
        }
    }
}

/// Long range harvesters only go where they may harvest: the room picked
/// has no intel or was scouted as `Unknown` or `Neutral`, never as no man's
/// land, hostile, friendly or held by keepers; and a room is picked whenever
/// one of the rooms may be harvested.
pub proof fn law_harvest_room_intel(rooms: Seq<(WorldPosition, Option<RoomIFF>)>, counts: Seq<u8>)
    ensures
        least_sent(rooms, counts) matches Some(k) ==> 0 <= k < rooms.len() && (rooms[k].1 is None
            || rooms[k].1 == Some(RoomIFF::Unknown) || rooms[k].1 == Some(RoomIFF::Neutral)),
        least_sent(rooms, counts) matches Some(k) ==> rooms[k].1 != Some(RoomIFF::NoMansLand)
            && rooms[k].1 != Some(RoomIFF::Hostile) && rooms[k].1 != Some(RoomIFF::Friendly)
            && rooms[k].1 != Some(RoomIFF::Keepers),
        (exists|i: int|
            0 <= i < rooms.len() && (#[trigger] rooms[i].1 is None || rooms[i].1 == Some(RoomIFF::Unknown)
                || rooms[i].1 == Some(RoomIFF::Neutral))) ==> least_sent(rooms, counts) is Some,
{
    law_least_sent_is_fewest(rooms, counts);
    if let Some(k) = least_sent(rooms, counts) {
        assert(harvestable(rooms[k].1));
    }
    if exists|i: int|
        0 <= i < rooms.len() && (#[trigger] rooms[i].1 is None || rooms[i].1 == Some(RoomIFF::Unknown)
            || rooms[i].1 == Some(RoomIFF::Neutral)) {
        let i = choose|i: int|
            0 <= i < rooms.len() && (#[trigger] rooms[i].1 is None || rooms[i].1 == Some(RoomIFF::Unknown)
                || rooms[i].1 == Some(RoomIFF::Neutral));
        assert(harvestable(rooms[i].1));
    }
}

/// Pick the room a long range harvester is sent to: among the neighbouring
/// `rooms`, the harvestable one to which the fewest were sent, per
/// `counts` (one per neighbour, in order), the first on a tie. Its count
/// goes up by one.
pub fn pick_target_room(rooms: &[(WorldPosition, Option<RoomIFF>)], counts: &mut [u8; 4]) -> (r: Option<WorldPosition>)
    requires
        rooms@.len() <= 4,
        least_sent(rooms@, old(counts)@) matches Some(i) ==> old(counts)@[i] < 255,
    ensures
        least_sent(rooms@, old(counts)@) is None ==> r is None && final(counts)@ == old(counts)@,
        least_sent(rooms@, old(counts)@) matches Some(i) ==> r == Some(rooms@[i].0) && final(counts)@
            == old(counts)@.update(i, (old(counts)@[i] + 1) as u8),
{
    let mut best: Option<usize> = None;
    let mut i: usize = 0;
    while i < rooms.len()
        invariant
            i <= rooms@.len() <= 4,
            counts@ == old(counts)@,
            best == match least_sent(rooms@.take(i as int), counts@) {
                Some(k) => Some(k as usize),
                None => None::<usize>,
            },
            least_sent(rooms@.take(i as int), counts@) matches Some(k) ==> 0 <= k < i,
        decreases rooms@.len() - i,
    {
        let ghost prefix = rooms@.take(i + 1);
        assert(prefix.drop_last() =~= rooms@.take(i as int));
        assert(prefix[i as int] == rooms@[i as int]);
        let harvestable = match rooms[i].1 {
            None => true,
            Some(iff) => iff == RoomIFF::Unknown || iff == RoomIFF::Neutral,
        };
        if harvestable {
            let better = match best {
                None => true,
                Some(b) => counts[i] < counts[b],
            };
            if better {
                best = Some(i);
            }
        }
        i = i + 1;
    }
    assert(rooms@.take(rooms@.len() as int) =~= rooms@);
    proof {
        lemma_least_sent_range(rooms@, counts@);
    }
    match best {
        None => None,
        Some(b) => {
            let c = counts[b];
            counts[b] = c + 1;
            Some(rooms[b].0)
        },
    }
}

} // verus!

//! What scouts learn of rooms.
use vstd::prelude::*;

verus! {

/// What a scout recorded of a room.
#[derive(Debug, Clone, Copy)]
pub struct ScoutInfo {
    pub iff: RoomIFF,
    pub n_sources: u8,
    pub time_of_recording: u32,
}

/// Who holds a room.
#[derive(Debug, Clone, Copy, PartialEq, Eq, Hash, Structural)]
pub enum RoomIFF {
    Unknown,
    Hostile,
    Neutral,
    Friendly,
    NoMansLand,
    Keepers,
}

impl Default for RoomIFF {
    fn default() -> (r: Self)
        ensures
            r == RoomIFF::Unknown,
    {
        RoomIFF::Unknown
    }
}

impl Default for ScoutInfo {
    fn default() -> (s: Self)
        ensures
            s.iff == RoomIFF::Unknown,
            s.n_sources == 0,
            s.time_of_recording == 0,
    {
        ScoutInfo { iff: RoomIFF::Unknown, n_sources: 0, time_of_recording: 0 }
    }
}

/// Used to make sure the right string is passed
/// to the right parameter when accessing creep memory
/// It's deliberately verbose
#[derive(Debug, Clone, Copy, Ord, PartialEq, PartialOrd, Eq, Hash)]
pub struct CreepName<'a>(pub &'a str);

/// Who holds a room, from its controller: whether it is ours and its level,
/// if the room has one.
pub open spec fn spec_room_iff(controller: Option<(bool, u32)>) -> RoomIFF {
    match controller {
        None => RoomIFF::NoMansLand,
        Some((my, level)) => if my {
            RoomIFF::Friendly
        } else if level == 0 {
            RoomIFF::Neutral
        } else {
            RoomIFF::Hostile
        },
    }
}

/// What a scout records of a room with `n_sources` sources (counted as a
/// byte, cut to its low 8 bits) and the given controller at tick `time`.
pub fn scout_info(controller: Option<(bool, u32)>, n_sources: usize, time: u32) -> (s: ScoutInfo)
    ensures
        s.iff == spec_room_iff(controller),
        s.n_sources == n_sources as u8,
        s.time_of_recording == time,
{
    let iff = match controller {
        None => RoomIFF::NoMansLand,
        Some((my, level)) => if my {
            RoomIFF::Friendly
        } else if level == 0 {
            RoomIFF::Neutral
        } else {
            RoomIFF::Hostile
        },
    };
    #[verifier::truncate]
    let n = n_sources as u8;
    ScoutInfo { iff, n_sources: n, time_of_recording: time }
}

/// The names among `names` that are not among `alive`, in order.
pub fn forgotten_creeps(names: &[String], alive: &[String]) -> (dead: Vec<String>)
    ensures
        dead@.map_values(|s: String| s@) == names@.map_values(|s: String| s@).filter(
            |n: Seq<char>| !alive@.map_values(|s: String| s@).contains(n),
        ),
{
    let ghost alive_names = alive@.map_values(|s: String| s@);
    let ghost all = names@.map_values(|s: String| s@);
    let ghost pred = |n: Seq<char>| !alive_names.contains(n);
    let mut dead: Vec<String> = Vec::new();
    let mut i: usize = 0;
    while i < names.len()
        invariant
            i <= names@.len(),
            alive_names == alive@.map_values(|s: String| s@),
            all == names@.map_values(|s: String| s@),
            pred == (|n: Seq<char>| !alive_names.contains(n)),
            dead@.map_values(|s: String| s@) == all.take(i as int).filter(pred),
        decreases names@.len() - i,
    {
        let mut found = false;
        let mut j: usize = 0;
        while j < alive.len()
            invariant
                j <= alive@.len(),
                i < names@.len(),
                alive_names == alive@.map_values(|s: String| s@),
                found == exists|k: int| 0 <= k < j && alive_names[k] == names@[i as int]@,
            decreases alive@.len() - j,
        {
            assert(alive_names[j as int] == alive@[j as int]@);
            if alive[j] == names[i] {
                found = true;
            }
            proof {
                if !found {
                    assert forall|k: int| 0 <= k < j + 1 implies alive_names[k] != names@[i as int]@ by {
                        if k == j {
                            assert(alive_names[k] == alive@[k]@);
                        }
                    }
                }
            }
            j = j + 1;
        }
        proof {
            assert(all.take(i + 1) =~= all.take(i as int).push(all[i as int]));
            all.take(i as int).lemma_filter_push(all[i as int], pred);
            assert(all[i as int] == names@[i as int]@);
            if found {
                let k = choose|k: int| 0 <= k < alive@.len() && alive_names[k] == names@[i as int]@;
                assert(alive_names.contains(all[i as int]));
            } else {
                assert(!alive_names.contains(all[i as int])) by {
                    if alive_names.contains(all[i as int]) {
                        let k = choose|k: int| 0 <= k < alive_names.len() && alive_names[k] == all[i as int];
                        assert(alive_names[k] == names@[i as int]@);
                    }
                }
            }
        }
        if !found {
            let ghost before = dead@;
            dead.push(names[i].clone());
            proof {
                assert(dead@.map_values(|s: String| s@) =~= before.map_values(|s: String| s@).push(names@[i as int]@));
            }
        }
        i = i + 1;
    }
    assert(all.take(names@.len() as int) =~= all);
    dead
}

} // verus!

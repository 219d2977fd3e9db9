//! Creep roles: what a room needs of each, which is spawned next and with
//! which body.
use crate::bounded::{parts_new, parts_of, parts_push, roles_new, roles_of, roles_push};
use crate::rooms::world_position::abs_int;
use crate::rooms::WorldPosition;
use arrayvec::ArrayVec;
use vstd::prelude::*;

verus! {

/// The job of a creep. Its number, as stored in creep memory, is its
/// position in this list, from `Unknown = 0` to `Defender = 9`.
#[derive(Debug, Clone, Copy, Hash, Eq, PartialEq, Ord, PartialOrd, Structural)]
pub enum Role {
    Unknown,
    Upgrader,
    Harvester,
    Worker,
    Gofer,
    Lrh,
    Conqueror,
    Lrw,
    Scout,
    Defender,
}

/// A body part of a creep.
#[derive(Debug, Clone, Copy, Hash, Eq, PartialEq, Structural)]
pub enum Part {
    Move,
    Work,
    Carry,
    Attack,
    RangedAttack,
    Heal,
    Tough,
    Claim,
}

/// The number of a role.
pub open spec fn role_code(r: Role) -> nat {
    match r {
        Role::Unknown => 0,
        Role::Upgrader => 1,
        Role::Harvester => 2,
        Role::Worker => 3,
        Role::Gofer => 4,
        Role::Lrh => 5,
        Role::Conqueror => 6,
        Role::Lrw => 7,
        Role::Scout => 8,
        Role::Defender => 9,
    }
}

/// The role with a given number.
pub open spec fn role_of_code(n: nat) -> Role {
    if n == 0 {
        Role::Unknown
    } else if n == 1 {
        Role::Upgrader
    } else if n == 2 {
        Role::Harvester
    } else if n == 3 {
        Role::Worker
    } else if n == 4 {
        Role::Gofer
    } else if n == 5 {
        Role::Lrh
    } else if n == 6 {
        Role::Conqueror
    } else if n == 7 {
        Role::Lrw
    } else if n == 8 {
        Role::Scout
    } else {
        Role::Defender
    }
}

/// The roles that creeps are spawned for, in order of their numbers.
pub open spec fn spec_all_roles() -> Seq<Role> {
    seq![
        Role::Upgrader,
        Role::Harvester,
        Role::Worker,
        Role::Gofer,
        Role::Lrh,
        Role::Conqueror,
        Role::Lrw,
        Role::Scout,
        Role::Defender,
    ]
}

/// How urgent spawning a role is: the higher the more important.
pub open spec fn spec_role_priority(role: Role) -> int {
    match role {
        Role::Defender => 4,
        Role::Harvester => 3,
        Role::Gofer => 2,
        Role::Worker => 1,
        Role::Scout => -1,
        Role::Lrh => -2,
        Role::Conqueror => -3,
        Role::Lrw => -4,
        _ => 0,
    }
}

impl Role {
    /// The role with number `item`.
    pub fn from(item: u8) -> (r: Role)
        requires
            item <= 9,
        ensures
            r == role_of_code(item as nat),
            role_code(r) == item,
    {
        match item {
            0 => Role::Unknown,
            1 => Role::Upgrader,
            2 => Role::Harvester,
            3 => Role::Worker,
            4 => Role::Gofer,
            5 => Role::Lrh,
            6 => Role::Conqueror,
            7 => Role::Lrw,
            8 => Role::Scout,
            _ => Role::Defender,
        }
    }

    /// The number of the role.
    pub fn as_u8(self) -> (n: u8)
        ensures
            n == role_code(self),
    {
        match self {
            Role::Unknown => 0,
            Role::Upgrader => 1,
            Role::Harvester => 2,
            Role::Worker => 3,
            Role::Gofer => 4,
            Role::Lrh => 5,
            Role::Conqueror => 6,
            Role::Lrw => 7,
            Role::Scout => 8,
            Role::Defender => 9,
        }
    }

    /// The name of the role, as displayed.
    pub fn name(&self) -> (s: &'static str)
        ensures
            s@ == role_name(*self),
    {
        match self {
            Role::Unknown => "Unknown",
            Role::Upgrader => "Upgrader",
            Role::Harvester => "Harvester",
            Role::Worker => "Worker",
            Role::Gofer => "Gofer",
            Role::Lrh => "Lrh",
            Role::Lrw => "Lrw",
            Role::Conqueror => "Conqueror",
            Role::Scout => "Scout",
            Role::Defender => "Defender",
        }
    }

    /// The name of the role, as displayed.
    pub fn to_string(&self) -> (s: String)
        ensures
            s@ == role_name(*self),
    {
        String::from_str(self.name())
    }

    /// All roles that creeps are spawned for (every role but `Unknown`), in
    /// order of their numbers.
    pub fn all_roles() -> (v: ArrayVec<Role, 9>)
        ensures
            roles_of(v) == spec_all_roles(),
    {
        let mut v = roles_new();
        roles_push(&mut v, Role::Upgrader);
        roles_push(&mut v, Role::Harvester);
        roles_push(&mut v, Role::Worker);
        roles_push(&mut v, Role::Gofer);
        roles_push(&mut v, Role::Lrh);
        roles_push(&mut v, Role::Conqueror);
        roles_push(&mut v, Role::Lrw);
        roles_push(&mut v, Role::Scout);
        roles_push(&mut v, Role::Defender);
        assert(roles_of(v) =~= spec_all_roles());
        v
    }
}

/// The displayed name of a role.
pub open spec fn role_name(r: Role) -> Seq<char> {
    match r {
        Role::Unknown => "Unknown"@,
        Role::Upgrader => "Upgrader"@,
        Role::Harvester => "Harvester"@,
        Role::Worker => "Worker"@,
        Role::Gofer => "Gofer"@,
        Role::Lrh => "Lrh"@,
        Role::Lrw => "Lrw"@,
        Role::Conqueror => "Conqueror"@,
        Role::Scout => "Scout"@,
        Role::Defender => "Defender"@,
    }
}

/// The higher the more important.
pub fn role_priority(role: Role) -> (p: i8)
    ensures
        p == spec_role_priority(role),
{
    match role {
        Role::Defender => 4,
        Role::Harvester => 3,
        Role::Gofer => 2,
        Role::Worker => 1,
        Role::Scout => -1,
        Role::Lrh => -2,
        Role::Conqueror => -3,
        Role::Lrw => -4,
        _ => 0,
    }
}

// ---------------------------------------------------------------------------
// How many creeps of each role a room needs
// ---------------------------------------------------------------------------

/// What is counted in a room to decide how many creeps of each role it needs.
#[derive(Debug, Clone, Copy)]
pub struct RoomCensus {
    /// Level of the room's controller, 0 without one.
    pub level: u32,
    /// Position of the room.
    pub position: WorldPosition,
    /// Number of energy sources.
    pub n_sources: usize,
    /// Number of hostile creeps.
    pub n_hostiles: usize,
    /// Number of containers.
    pub n_containers: usize,
    /// Energy stored in the containers.
    pub energy_in_containers: u32,
    /// Number of construction sites.
    pub n_constructions: usize,
}

/// Whether the distance from an expansion target to the room can be taken.
pub open spec fn dist_defined(w: WorldPosition, p: WorldPosition) -> bool {
    &&& i16::MIN < w.0[0] - p.0[0] <= i16::MAX
    &&& i16::MIN < w.0[1] - p.0[1] <= i16::MAX
    &&& abs_int(w.0[0] - p.0[0]) + abs_int(w.0[1] - p.0[1]) <= i16::MAX
}

/// Number of expansion targets at most 10 rooms away from `p`.
pub open spec fn near_targets(expansion: Seq<WorldPosition>, p: WorldPosition) -> nat
    decreases expansion.len(),
{
    if expansion.len() == 0 {
        0
    } else {
        near_targets(expansion.drop_last(), p) + if abs_int(expansion.last().0[0] - p.0[0])
            + abs_int(expansion.last().0[1] - p.0[1]) <= 10 {
            1nat
        } else {
            0nat
        }
    }
}

/// The number of expansion flags counted for a room: the near targets, at
/// most 255, cut to an `i8`.
pub open spec fn flag_count(expansion: Seq<WorldPosition>, p: WorldPosition) -> i8 {
    (if near_targets(expansion, p) > 255 {
        255
    } else {
        near_targets(expansion, p)
    }) as i8
}

/// Max number of creeps of a role in a room with census `c` and `n_flags`
/// expansion flags nearby. Counts are cut to `i8` as they are read.
pub open spec fn spec_target_number(role: Role, c: RoomCensus, n_flags: i8) -> i8 {
    let n_sources = c.n_sources as i8;
    let n_containers = c.n_containers as i8;
    let n_constructions = c.n_constructions as i8;
    match role {
        Role::Defender => (if c.n_hostiles < 1 { c.n_hostiles } else { 1 }) as i8,
        Role::Upgrader => if n_containers < 1 { n_containers } else { 1 },
        Role::Harvester => n_sources,
        Role::Worker => {
            let base: int = if n_constructions < 2 { n_constructions as int } else { 2 };
            (if n_containers > 0 {
                base + (if c.energy_in_containers > 1000 { 3int } else { 0int }) + 1
            } else {
                base
            }) as i8
        },
        Role::Conqueror => if n_flags > 1 { n_flags } else { 1 },
        Role::Lrh => if n_containers == 0 {
            0
        } else {
            (if c.level * 2 < 4 { c.level * 2 } else { 4 }) as i8
        },
        Role::Gofer => if n_sources < n_containers { n_sources } else { n_containers },
        Role::Lrw => if n_flags > 1 { n_flags } else { 1 },
        Role::Scout => 1,
        Role::Unknown => 0,
    }
}

/// How many creeps of each role a room wants, from what it holds: one
/// defender while hostile creeps are in it and none otherwise; one scout;
/// a harvester per source; an upgrader once it has a container; a gofer per
/// source that has a container to fill (the fewer of the two); up to two
/// workers for construction sites, and with containers one more, three more
/// again when they hold over 1000 energy; long range harvesters, twice the
/// controller level but at most 4, once it has a container; a conqueror and
/// a long range worker per expansion flag nearby, at least one each. Counts
/// are taken as they fit a signed byte.
pub proof fn law_role_targets(c: RoomCensus, n_flags: i8)
    requires
        c.n_sources <= 127,
        c.n_containers <= 127,
        c.n_constructions <= 127,
    ensures
        spec_target_number(Role::Defender, c, n_flags) == (if c.n_hostiles > 0 { 1int } else { 0int }),
        spec_target_number(Role::Scout, c, n_flags) == 1,
        spec_target_number(Role::Unknown, c, n_flags) == 0,
        spec_target_number(Role::Harvester, c, n_flags) == c.n_sources,
        spec_target_number(Role::Upgrader, c, n_flags) == (if c.n_containers > 0 { 1int } else { 0int }),
        spec_target_number(Role::Gofer, c, n_flags) == (if c.n_sources < c.n_containers {
            c.n_sources as int
        } else {
            c.n_containers as int
        }),
        spec_target_number(Role::Worker, c, n_flags) == (if c.n_constructions < 2 {
            c.n_constructions as int
        } else {
            2int
        }) + (if c.n_containers > 0 {
            1 + (if c.energy_in_containers > 1000 { 3int } else { 0int })
        } else {
            0int
        }),
        spec_target_number(Role::Lrh, c, n_flags) == (if c.n_containers == 0 {
            0int
        } else if 2 * c.level < 4 {
            2 * c.level
        } else {
            4int
        }),
        spec_target_number(Role::Conqueror, c, n_flags) == (if n_flags > 1 { n_flags as int } else { 1int }),
        spec_target_number(Role::Lrw, c, n_flags) == (if n_flags > 1 { n_flags as int } else { 1int }),
{
}

/// Under attack, a room that has no defender yet spawns one next: while
/// hostile creeps are in the room, a defender short of its target comes
/// before every other role.
pub proof fn law_defender_first_under_attack(counts: Seq<(Role, i8)>, c: RoomCensus, n_flags: i8, k: int)
    requires
        c.n_hostiles > 0,
        0 <= k < counts.len(),
        counts[k].0 == Role::Defender,
        counts[k].1 <= 0,
    ensures
        spec_next_role(counts, c, n_flags) == Some(Role::Defender),
{
    law_next_role_most_urgent(counts, c, n_flags);
    assert(spec_target_number(counts[k].0, c, n_flags) > counts[k].1);
    let r = spec_next_role(counts, c, n_flags)->0;
    assert(spec_role_priority(counts[k].0) <= spec_role_priority(r));
}

/// Number of expansion flags near the room, as `target_number_of_role_in_room`
/// counts them.
pub fn count_flags(expansion: &[WorldPosition], room_pos: WorldPosition) -> (n: i8)
    requires
        forall|i: int| 0 <= i < expansion@.len() ==> dist_defined(#[trigger] expansion@[i], room_pos),
    ensures
        n == flag_count(expansion@, room_pos),
{
    let mut count: usize = 0;
    let mut i: usize = 0;
    while i < expansion.len()
        invariant
            i <= expansion@.len(),
            count == near_targets(expansion@.take(i as int), room_pos),
            count <= i,
            forall|j: int| 0 <= j < expansion@.len() ==> dist_defined(#[trigger] expansion@[j], room_pos),
        decreases expansion@.len() - i,
    {
        assert(expansion@.take(i + 1).drop_last() =~= expansion@.take(i as int));
        assert(dist_defined(expansion@[i as int], room_pos));
        if expansion[i].dist(room_pos) <= 10 {
            count = count + 1;
        }
        i = i + 1;
    }
    assert(expansion@.take(expansion@.len() as int) =~= expansion@);
    let capped: usize = if count < 255 { count } else { 255 };
    #[verifier::truncate]
    (capped as i8)
}

/// Max number of creeps of a given role in the given room.
pub fn target_number_of_role_in_room(role: Role, census: &RoomCensus, expansion: &[WorldPosition]) -> (n: i8)
    requires
        forall|i: int| 0 <= i < expansion@.len() ==> dist_defined(#[trigger] expansion@[i], census.position),
        census.level * 2 <= u32::MAX,
    ensures
        n == spec_target_number(role, *census, flag_count(expansion@, census.position)),
{
    let level = census.level;
    let n_flags = count_flags(expansion, census.position);
    #[verifier::truncate]
    let n_sources = census.n_sources as i8;
    let energy_in_containers = census.energy_in_containers;
    #[verifier::truncate]
    let n_containers = census.n_containers as i8;
    #[verifier::truncate]
    let n_constructions = census.n_constructions as i8;
    let upgrader_count: i8 = 1;
    match role {
        Role::Defender => {
            let h = if census.n_hostiles < 1 { census.n_hostiles } else { 1 };
            h as i8
        },
        Role::Upgrader => if n_containers < upgrader_count { n_containers } else { upgrader_count },
        Role::Harvester => n_sources,
        Role::Worker => {
            let mut target_workers: i8 = if n_constructions < 2 { n_constructions } else { 2 };
            if n_containers > 0 {
                if energy_in_containers > 1000 {
                    target_workers = target_workers + 3;
                }
                target_workers = target_workers + upgrader_count;
            }
            target_workers
        },
        Role::Conqueror => if n_flags > 1 { n_flags } else { 1 },
        Role::Lrh => {
            if n_containers == 0 {
                0
            } else {
                let l = level * 2;
                let l = if l < 4 { l } else { 4 };
                l as i8
            }
        },
        Role::Gofer => if n_sources < n_containers { n_sources } else { n_containers },
        Role::Lrw => if n_flags > 1 { n_flags } else { 1 },
        Role::Scout => 1,
        Role::Unknown => 0,
    }
}

// ---------------------------------------------------------------------------
// Which role is spawned next
// ---------------------------------------------------------------------------

/// The role picked from the first `counts` entries: among the roles whose
/// target is above their count, the one of highest priority, the earliest
/// on a tie.
pub open spec fn spec_next_role(counts: Seq<(Role, i8)>, c: RoomCensus, n_flags: i8) -> Option<Role>
    decreases counts.len(),
{
    if counts.len() == 0 {
        None
    } else {
        let prev = spec_next_role(counts.drop_last(), c, n_flags);
        let (role, actual) = counts.last();
        if spec_target_number(role, c, n_flags) <= actual {
            prev
        } else {
            match prev {
                None => Some(role),
                Some(r) => if spec_role_priority(role) > spec_role_priority(r) {
                    Some(role)
                } else {
                    Some(r)
                },
            }
        }
    }
}

/// Get the next target role in a room: `counts` holds, per role, the
/// number of creeps of that role at home in the room.
pub fn next_role(counts: &[(Role, i8)], census: &RoomCensus, expansion: &[WorldPosition]) -> (r: Option<Role>)
    requires
        forall|i: int| 0 <= i < expansion@.len() ==> dist_defined(#[trigger] expansion@[i], census.position),
        census.level * 2 <= u32::MAX,
    ensures
        r == spec_next_role(counts@, *census, flag_count(expansion@, census.position)),
{
    let ghost n_flags = flag_count(expansion@, census.position);
    let mut result: Option<Role> = None;
    let mut i: usize = 0;
    while i < counts.len()
        invariant
            i <= counts@.len(),
            result == spec_next_role(counts@.take(i as int), *census, n_flags),
            n_flags == flag_count(expansion@, census.position),
            forall|j: int| 0 <= j < expansion@.len() ==> dist_defined(#[trigger] expansion@[j], census.position),
            census.level * 2 <= u32::MAX,
        decreases counts@.len() - i,
    {
        assert(counts@.take(i + 1).drop_last() =~= counts@.take(i as int));
        let (role, actual) = counts[i];
        let expected = target_number_of_role_in_room(role, census, expansion);
        if expected > actual {
            result = match result {
                None => Some(role),
                Some(r) => if role_priority(role) > role_priority(r) {
                    Some(role)
                } else {
                    Some(r)
                },
            };
        }
        i = i + 1;
    }
    assert(counts@.take(counts@.len() as int) =~= counts@);
    result
}

/// The role picked next is one whose target exceeds its count, and no role
/// short of its target has a higher priority; no role is picked only when
/// every role has reached its target.
pub proof fn law_next_role_most_urgent(counts: Seq<(Role, i8)>, c: RoomCensus, n_flags: i8)
    ensures
        spec_next_role(counts, c, n_flags) is None <==> forall|i: int|
            0 <= i < counts.len() ==> spec_target_number(#[trigger] counts[i].0, c, n_flags)
                <= counts[i].1,
        spec_next_role(counts, c, n_flags) matches Some(r) ==> exists|i: int|
            0 <= i < counts.len() && #[trigger] counts[i].0 == r && spec_target_number(r, c, n_flags)
                > counts[i].1,
        spec_next_role(counts, c, n_flags) matches Some(r) ==> forall|i: int|
            0 <= i < counts.len() && spec_target_number(#[trigger] counts[i].0, c, n_flags)
                > counts[i].1 ==> spec_role_priority(counts[i].0) <= spec_role_priority(r),
    decreases counts.len(),
{
    if counts.len() > 0 {
        let prev = counts.drop_last();
        law_next_role_most_urgent(prev, c, n_flags);
        let k = counts.len() - 1;
        assert forall|i: int| 0 <= i < prev.len() implies #[trigger] prev[i] == counts[i] by {}
        if let Some(r) = spec_next_role(prev, c, n_flags) {
            let w = choose|i: int|
                0 <= i < prev.len() && #[trigger] prev[i].0 == r && spec_target_number(r, c, n_flags)
                    > prev[i].1;
            assert(counts[w].0 == r);
        }
        if let Some(r) = spec_next_role(counts, c, n_flags) {
            let p = spec_next_role(prev, c, n_flags);
            assert(p matches Some(r0) ==> spec_role_priority(r0) <= spec_role_priority(r));
            assert forall|i: int|
                0 <= i < counts.len() && spec_target_number(#[trigger] counts[i].0, c, n_flags)
                    > counts[i].1 implies spec_role_priority(counts[i].0) <= spec_role_priority(r) by {
                if i < k {
                    assert(prev[i] == counts[i]);
                }
            }
        }
        if spec_next_role(counts, c, n_flags) is None {
            assert forall|i: int| 0 <= i < counts.len() implies spec_target_number(
                #[trigger] counts[i].0,
                c,
                n_flags,
            ) <= counts[i].1 by {
                if i < k {
                    assert(prev[i] == counts[i]);
                }
            }
        }
    }
}

// ---------------------------------------------------------------------------
// Counting creeps by role
// ---------------------------------------------------------------------------

/// What the creep memory holds of one creep for counting: its home room and
/// its role number, where they are set.
#[derive(Debug, Clone)]
pub struct CreepRecord {
    pub home_room: Option<String>,
    pub role: Option<i64>,
}

/// Whether a record counts for the room named `name` with role number
/// `code`: the creep lives there and its role number, cut to a byte, is
/// `code`.
pub open spec fn counts_as(rec: CreepRecord, name: Seq<char>, code: nat) -> bool {
    &&& rec.home_room matches Some(h) && h@ == name
    &&& rec.role matches Some(v) && (v as u8) as nat == code
}

/// Number of creeps at home in `name` with role number `code`.
pub open spec fn tally(records: Seq<CreepRecord>, name: Seq<char>, code: nat) -> nat
    decreases records.len(),
{
    if records.len() == 0 {
        0
    } else {
        tally(records.drop_last(), name, code) + if counts_as(records.last(), name, code) {
            1nat
        } else {
            0nat
        }
    }
}

/// Whether a record of a creep at home in `name` has a role number, cut to
/// a byte, above 9.
pub open spec fn bad_role(rec: CreepRecord, name: Seq<char>) -> bool {
    &&& rec.home_room matches Some(h) && h@ == name
    &&& rec.role matches Some(v) && (v as u8) > 9
}

proof fn lemma_tally_prefix(records: Seq<CreepRecord>, name: Seq<char>, code: nat, k: int)
    requires
        0 <= k <= records.len(),
    ensures
        tally(records.take(k), name, code) <= tally(records, name, code),
    decreases records.len(),
{
    if k < records.len() {
        assert(records.drop_last().take(k) =~= records.take(k));
        lemma_tally_prefix(records.drop_last(), name, code, k);
    } else {
        assert(records.take(k) =~= records);
    }
}

/// Count the creeps of each role whose home is the room named `room_name`:
/// one entry per role of `all_roles`, in that order.
pub fn count_roles_in_room(records: &[CreepRecord], room_name: &String) -> (counts: Vec<(Role, i8)>)
    requires
        forall|i: int| 0 <= i < records@.len() ==> !bad_role(#[trigger] records@[i], room_name@),
        forall|code: nat| 1 <= code <= 9 ==> #[trigger] tally(records@, room_name@, code) <= 127,
    ensures
        counts@.len() == 9,
        forall|k: int|
            0 <= k < 9 ==> (#[trigger] counts@[k]).0 == spec_all_roles()[k] && counts@[k].1 == tally(
                records@,
                room_name@,
                (k + 1) as nat,
            ),
{
    let mut tallies: Vec<i8> = vec![0, 0, 0, 0, 0, 0, 0, 0, 0];
    let mut i: usize = 0;
    while i < records.len()
        invariant
            i <= records@.len(),
            tallies@.len() == 9,
            forall|k: int|
                0 <= k < 9 ==> #[trigger] tallies@[k] == tally(records@.take(i as int), room_name@, (k + 1) as nat),
            forall|j: int| 0 <= j < records@.len() ==> !bad_role(#[trigger] records@[j], room_name@),
            forall|code: nat| 1 <= code <= 9 ==> #[trigger] tally(records@, room_name@, code) <= 127,
        decreases records@.len() - i,
    {
        let ghost before = records@.take(i as int);
        assert(records@.take(i + 1).drop_last() =~= before);
        let rec = &records[i];
        assert(!bad_role(records@[i as int], room_name@));
        let home_matches = match &rec.home_room {
            Some(h) => *h == *room_name,
            None => false,
        };
        if home_matches {
            match rec.role {
                Some(v) => {
                    #[verifier::truncate]
                    let code = v as u8;
                    if code > 0 {
                        let k = (code - 1) as usize;
                        proof {
                            lemma_tally_prefix(records@, room_name@, code as nat, i + 1);
                        }
                        let t = tallies[k] + 1;
                        tallies.set(k, t);
                    }
                },
                None => {},
            }
        }
        i = i + 1;
    }
    assert(records@.take(records@.len() as int) =~= records@);
    let roles = [
        Role::Upgrader,
        Role::Harvester,
        Role::Worker,
        Role::Gofer,
        Role::Lrh,
        Role::Conqueror,
        Role::Lrw,
        Role::Scout,
        Role::Defender,
    ];
    let mut counts: Vec<(Role, i8)> = Vec::new();
    let mut k: usize = 0;
    while k < 9
        invariant
            k <= 9,
            tallies@.len() == 9,
            roles@ == spec_all_roles(),
            counts@.len() == k,
            forall|j: int| 0 <= j < k ==> (#[trigger] counts@[j]).0 == spec_all_roles()[j] && counts@[j].1 == tallies@[j],
        decreases 9 - k,
    {
        counts.push((roles[k], tallies[k]));
        k = k + 1;
    }
    assert(roles@ =~= spec_all_roles());
    counts
}

// ---------------------------------------------------------------------------
// Bodies
// ---------------------------------------------------------------------------

/// The body a creep of a role is spawned with: its basic parts, the parts
/// added per size step and the largest size it may grow to.
pub struct SpawnConfig {
    pub basic_body: ArrayVec<Part, 16>,
    pub body_extension: ArrayVec<Part, 16>,
    pub body_max: Option<usize>,
}

/// The minimum parts required by a role.
pub open spec fn spec_basic_parts(role: Role) -> Seq<Part> {
    match role {
        Role::Harvester => seq![Part::Move, Part::Work, Part::Carry, Part::Work],
        Role::Conqueror => seq![Part::Move, Part::Claim],
        Role::Gofer => seq![Part::Move, Part::Carry],
        Role::Lrh => seq![Part::Move, Part::Move, Part::Carry, Part::Work],
        Role::Upgrader | Role::Worker => seq![Part::Move, Part::Carry, Part::Work],
        Role::Lrw => seq![Part::Move, Part::Move, Part::Carry, Part::Work],
        Role::Scout => seq![Part::Move],
        Role::Defender => seq![Part::Move, Part::Attack],
        Role::Unknown => Seq::empty(),
    }
}

/// The parts added per size step of a role.
pub open spec fn spec_scale_parts(role: Role) -> Seq<Part> {
    match role {
        Role::Harvester => seq![Part::Work],
        Role::Scout | Role::Conqueror => Seq::empty(),
        Role::Gofer => seq![Part::Move, Part::Carry, Part::Carry],
        Role::Lrh => seq![Part::Move, Part::Carry, Part::Work, Part::Move],
        Role::Defender => seq![Part::Attack, Part::Move],
        _ => seq![Part::Move, Part::Carry, Part::Work],
    }
}

/// The largest number of parts a creep of a role may have in a room whose
/// controller has level `level`.
pub open spec fn spec_part_max(level: u32, role: Role) -> Option<usize> {
    let worker_count: usize = if level < 5 {
        16
    } else if level < 8 {
        24
    } else {
        36
    };
    match role {
        Role::Harvester => Some(8),
        Role::Lrw | Role::Lrh | Role::Worker | Role::Upgrader => Some(worker_count),
        Role::Gofer => Some(if worker_count * 2 < 50 { (worker_count * 2) as usize } else { 50 }),
        _ => None,
    }
}

fn parts_from(parts: &[Part]) -> (v: ArrayVec<Part, 16>)
    requires
        parts@.len() <= 16,
    ensures
        parts_of(v) == parts@,
{
    let mut v = parts_new();
    let mut i: usize = 0;
    while i < parts.len()
        invariant
            i <= parts@.len() <= 16,
            parts_of(v) == parts@.take(i as int),
        decreases parts@.len() - i,
    {
        parts_push(&mut v, parts[i]);
        i = i + 1;
        assert(parts_of(v) =~= parts@.take(i as int));
    }
    assert(parts@.take(parts@.len() as int) =~= parts@);
    v
}

/// The minimum parts required by the role.
fn basic_role_parts(role: Role) -> (v: ArrayVec<Part, 16>)
    ensures
        parts_of(v) == spec_basic_parts(role),
{
    let v = match role {
        Role::Harvester => parts_from(&[Part::Move, Part::Work, Part::Carry, Part::Work]),
        Role::Conqueror => parts_from(&[Part::Move, Part::Claim]),
        Role::Gofer => parts_from(&[Part::Move, Part::Carry]),
        Role::Lrh => parts_from(&[Part::Move, Part::Move, Part::Carry, Part::Work]),
        Role::Upgrader | Role::Worker => parts_from(&[Part::Move, Part::Carry, Part::Work]),
        Role::Lrw => parts_from(&[Part::Move, Part::Move, Part::Carry, Part::Work]),
        Role::Scout => parts_from(&[Part::Move]),
        Role::Defender => parts_from(&[Part::Move, Part::Attack]),
        Role::Unknown => parts_from(&[]),
    };
    assert(parts_of(v) =~= spec_basic_parts(role));
    v
}

/// Intended parts to be appended to the basic parts.
fn role_part_scale(role: Role) -> (v: ArrayVec<Part, 16>)
    ensures
        parts_of(v) == spec_scale_parts(role),
{
    let v = match role {
        Role::Harvester => parts_from(&[Part::Work]),
        Role::Scout | Role::Conqueror => parts_from(&[]),
        Role::Gofer => parts_from(&[Part::Move, Part::Carry, Part::Carry]),
        Role::Lrh => parts_from(&[Part::Move, Part::Carry, Part::Work, Part::Move]),
        Role::Defender => parts_from(&[Part::Attack, Part::Move]),
        _ => parts_from(&[Part::Move, Part::Carry, Part::Work]),
    };
    assert(parts_of(v) =~= spec_scale_parts(role));
    v
}

/// The largest a creep of role `role` may be.
fn role_part_max(level: u32, role: Role) -> (m: Option<usize>)
    ensures
        m == spec_part_max(level, role),
{
    let worker_count: usize = if level < 5 {
        16
    } else if level < 8 {
        24
    } else {
        36
    };
    let result: Option<usize> = match role {
        Role::Harvester => Some(8),
        Role::Lrw | Role::Lrh | Role::Worker | Role::Upgrader => Some(worker_count),
        Role::Conqueror => None,
        Role::Scout => None,
        Role::Gofer => Some(worker_count * 2),
        Role::Defender => None,
        Role::Unknown => None,
    };
    match result {
        Some(x) => Some(if x < 50 { x } else { 50 }),
        None => None,
    }
}

/// The body of a creep of role `role` in a room whose controller has level
/// `level`.
pub fn spawn_config_by_role(level: u32, role: Role) -> (c: SpawnConfig)
    ensures
        parts_of(c.basic_body) == spec_basic_parts(role),
        parts_of(c.body_extension) == spec_scale_parts(role),
        c.body_max == spec_part_max(level, role),
{
    SpawnConfig {
        basic_body: basic_role_parts(role),
        body_extension: role_part_scale(role),
        body_max: role_part_max(level, role),
    }
}

} // verus!

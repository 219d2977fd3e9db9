//! Towers: attack the first hostile, else repair the weakest structure.
use vstd::prelude::*;

verus! {

/// Whether a tower with `energy` out of `capacity` may repair: it keeps
/// three quarters of its capacity for defence.
pub fn may_repair(energy: u32, capacity: u32) -> (b: bool)
    requires
        capacity * 3 <= u32::MAX,
    ensures
        b == (energy >= capacity * 3 / 4),
{
    energy >= capacity * 3 / 4
}

/// Whether a structure needs repair: walls below 10000 hits, other
/// structures below their maximum.
pub fn needs_repair(is_wall: bool, hits: u32, hits_max: u32) -> (b: bool)
    ensures
        b == if is_wall { hits < 10000 } else { hits < hits_max },
{
    if is_wall {
        hits < 10 * 1000
    } else {
        hits < hits_max
    }
}

/// Position of the first of the smallest values of `hits`, if any.
pub open spec fn weakest(hits: Seq<u32>) -> Option<int>
    decreases hits.len(),
{
    if hits.len() == 0 {
        None
    } else {
        let k = hits.len() - 1;
        match weakest(hits.drop_last()) {
            None => Some(k),
            Some(b) => if hits[k] < hits[b] {
                Some(k)
            } else {
                Some(b)
            },
        }
    }
}

/// The structure picked for repair has the fewest hits, and fewer than
/// every structure before it.
pub proof fn law_weakest_has_fewest_hits(hits: Seq<u32>)
    ensures
        weakest(hits) matches Some(b) ==> 0 <= b < hits.len() && (forall|i: int|
            0 <= i < hits.len() ==> hits[b] <= #[trigger] hits[i]) && (forall|i: int|
            0 <= i < b ==> hits[b] < #[trigger] hits[i]),
    decreases hits.len(),
{
    lemma_weakest_range(hits);
    if hits.len() > 0 {
        let prev = hits.drop_last();
        law_weakest_has_fewest_hits(prev);
        lemma_weakest_range(prev);
        let b = weakest(hits)->0;
        assert forall|i: int| 0 <= i < hits.len() implies hits[b] <= #[trigger] hits[i] by {
            if i < prev.len() {
                assert(prev[i] == hits[i]);
            }
            if let Some(pb) = weakest(prev) {
                assert(prev[pb] == hits[pb]);
            }
        }
        assert forall|i: int| 0 <= i < b implies hits[b] < #[trigger] hits[i] by {
            assert(prev[i] == hits[i]);
            if let Some(pb) = weakest(prev) {
                assert(prev[pb] == hits[pb]);
            }
        }
    }
}

proof fn lemma_weakest_range(hits: Seq<u32>)
    ensures
        hits.len() > 0 ==> (weakest(hits) matches Some(b) && 0 <= b < hits.len()),
        hits.len() == 0 ==> weakest(hits) is None,
    decreases hits.len(),
{
    if hits.len() > 0 {
        lemma_weakest_range(hits.drop_last());
    }
}

/// The repair target among candidates of the given hits: the first of the
/// weakest.
pub fn find_repair_target(hits: &[u32]) -> (r: Option<usize>)
    ensures
        r == match weakest(hits@) {
            Some(b) => Some(b as usize),
            None => None::<usize>,
        },
{
    let mut best: Option<usize> = None;
    let mut i: usize = 0;
    while i < hits.len()
        invariant
            i <= hits@.len(),
            best == match weakest(hits@.take(i as int)) {
                Some(b) => Some(b as usize),
                None => None::<usize>,
            },
            weakest(hits@.take(i as int)) matches Some(b) ==> 0 <= b < i,
        decreases hits@.len() - i,
    {
        let ghost prefix = hits@.take(i + 1);
        assert(prefix.drop_last() =~= hits@.take(i as int));
        best = match best {
            None => Some(i),
            Some(b) => if hits[i] < hits[b] {
                Some(i)
            } else {
                Some(b)
            },
        };
        i = i + 1;
    }
    assert(hits@.take(hits@.len() as int) =~= hits@);
    best
}

/// What a tower's attack gave.
#[derive(Debug, Clone, Copy, PartialEq, Eq, Structural)]
pub enum AttackOutcome {
    /// The tower attacks.
    Attacking,
    /// The room's level is too low for the tower to act.
    RclNotEnough,
    /// Any other refusal.
    Refused,
}

/// An attack succeeds unless refused for another reason than the room's
/// level.
pub fn attack_succeeded(outcome: AttackOutcome) -> (b: bool)
    ensures
        b == (outcome != AttackOutcome::Refused),
{
    match outcome {
        AttackOutcome::Attacking => true,
        AttackOutcome::RclNotEnough => true,
        AttackOutcome::Refused => false,
    }
}

} // verus!

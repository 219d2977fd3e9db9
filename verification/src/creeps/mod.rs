//! What creeps are spawned for and the decisions they take.
pub mod conqueror;
pub mod harvester;
pub mod lrh;
pub mod roles;
pub mod scout;
pub mod spawning;

pub use self::roles::Role;
use vstd::prelude::*;

verus! {

/// Where a creep that fills up with energy stands.
#[derive(Debug, Clone, Copy, PartialEq, Eq, Structural)]
pub enum LoadGate {
    /// It is not loading: nothing to do.
    NotLoading,
    /// It is full: it stops loading and forgets its target.
    Full,
    /// It goes on loading.
    Proceed,
}

/// Where a creep that fills up with energy stands, from its `loading` flag
/// (if set) and its carried and carriable amounts.
pub fn load_gate(loading: Option<bool>, carry_total: u32, carry_capacity: u32) -> (g: LoadGate)
    ensures
        loading != Some(true) ==> g == LoadGate::NotLoading,
        loading == Some(true) && carry_total == carry_capacity ==> g == LoadGate::Full,
        loading == Some(true) && carry_total != carry_capacity ==> g == LoadGate::Proceed,
{
    let is_loading = match loading {
        Some(b) => b,
        None => false,
    };
    if !is_loading {
        LoadGate::NotLoading
    } else if carry_total == carry_capacity {
        LoadGate::Full
    } else {
        LoadGate::Proceed
    }
}

/// Where a creep that brings energy home stands.
#[derive(Debug, Clone, Copy, PartialEq, Eq, Structural)]
pub enum UnloadGate {
    /// It is loading: nothing to do.
    Loading,
    /// It is empty: it starts loading and forgets its target.
    Empty,
    /// It goes on unloading.
    Proceed,
}

/// Where a creep that brings energy home stands, from its `loading` flag
/// (if set) and its carried amount.
pub fn unload_gate(loading: Option<bool>, carry_total: u32) -> (g: UnloadGate)
    ensures
        loading == Some(true) ==> g == UnloadGate::Loading,
        loading != Some(true) && carry_total == 0 ==> g == UnloadGate::Empty,
        loading != Some(true) && carry_total != 0 ==> g == UnloadGate::Proceed,
{
    let is_loading = match loading {
        Some(b) => b,
        None => false,
    };
    if is_loading {
        UnloadGate::Loading
    } else if carry_total == 0 {
        UnloadGate::Empty
    } else {
        UnloadGate::Proceed
    }
}

/// The state a creep recorded as `last_task` among `n_states` states
/// numbered from 0: the number read as a `u32` (cut to its low 32 bits), or
/// 0 (idle) for a number of no state.
pub open spec fn last_state(last_task: i64, n_states: nat) -> nat {
    if ((last_task as u32) as nat) < n_states {
        (last_task as u32) as nat
    } else {
        0
    }
}

/// Priorities of a creep's tasks by state: the state it recorded last gets
/// 1, the others 0, so that it carries on with what it did.
pub fn task_priorities(last_task: i64, n_states: usize) -> (p: Vec<i8>)
    requires
        n_states > 0,
    ensures
        p@.len() == n_states,
        forall|i: int|
            0 <= i < n_states ==> #[trigger] p@[i] == (if i == last_state(last_task, n_states as nat) {
                1i8
            } else {
                0i8
            }),
{
    #[verifier::truncate]
    let n = last_task as u32;
    let last: usize = if (n as u64) < (n_states as u64) {
        n as usize
    } else {
        0
    };
    let mut p: Vec<i8> = Vec::new();
    let mut i: usize = 0;
    while i < n_states
        invariant
            i <= n_states,
            last == last_state(last_task, n_states as nat),
            p@.len() == i,
            forall|j: int| 0 <= j < i ==> #[trigger] p@[j] == (if j == last { 1i8 } else { 0i8 }),
        decreases n_states - i,
    {
        p.push(if i == last { 1 } else { 0 });
        i = i + 1;
    }
    p
}

/// Position of the last of the largest of `amounts`, if any.
pub open spec fn richest(amounts: Seq<u32>) -> Option<int>
    decreases amounts.len(),
{
    if amounts.len() == 0 {
        None
    } else {
        let k = amounts.len() - 1;
        match richest(amounts.drop_last()) {
            None => Some(k),
            Some(b) => if amounts[k] >= amounts[b] {
                Some(k)
            } else {
                Some(b)
            },
        }
    }
}

/// The pile picked holds the most energy, and more than every pile after
/// it.
pub proof fn law_richest_holds_most(amounts: Seq<u32>)
    ensures
        richest(amounts) matches Some(b) ==> 0 <= b < amounts.len() && (forall|i: int|
            0 <= i < amounts.len() ==> #[trigger] amounts[i] <= amounts[b]) && (forall|i: int|
            b < i < amounts.len() ==> #[trigger] amounts[i] < amounts[b]),
        amounts.len() > 0 ==> richest(amounts) is Some,
    decreases amounts.len(),
{
    lemma_richest_range(amounts);
    if amounts.len() > 0 {
        let prev = amounts.drop_last();
        law_richest_holds_most(prev);
        lemma_richest_range(prev);
        let b = richest(amounts)->0;
        assert forall|i: int| 0 <= i < amounts.len() implies #[trigger] amounts[i] <= amounts[b] by {
            if i < prev.len() {
                assert(prev[i] == amounts[i]);
            }
            if let Some(pb) = richest(prev) {
                assert(prev[pb] == amounts[pb]);
            }
        }
        assert forall|i: int| b < i < amounts.len() implies #[trigger] amounts[i] < amounts[b] by {
            if i < prev.len() {
                assert(prev[i] == amounts[i]);
            }
            if let Some(pb) = richest(prev) {
                assert(prev[pb] == amounts[pb]);
            }
        }
    }
}

proof fn lemma_richest_range(amounts: Seq<u32>)
    ensures
        richest(amounts) matches Some(b) ==> 0 <= b < amounts.len(),
    decreases amounts.len(),
{
    if amounts.len() > 0 {
        lemma_richest_range(amounts.drop_last());
    }
}

/// The dropped energy a creep picks up, among piles of the given amounts:
/// the last of the largest.
pub fn find_dropped_energy(amounts: &[u32]) -> (r: Option<usize>)
    ensures
        r == match richest(amounts@) {
            Some(b) => Some(b as usize),
            None => None::<usize>,
        },
{
    let mut best: Option<usize> = None;
    let mut i: usize = 0;
    while i < amounts.len()
        invariant
            i <= amounts@.len(),
            best == match richest(amounts@.take(i as int)) {
                Some(b) => Some(b as usize),
                None => None::<usize>,
            },
        decreases amounts@.len() - i,
    {
        proof {
            assert(amounts@.take(i + 1).drop_last() =~= amounts@.take(i as int));
            lemma_richest_range(amounts@.take(i as int));
        }
        best = match best {
            None => Some(i),
            Some(b) => if amounts[i] >= amounts[b] {
                Some(i)
            } else {
                Some(b)
            },
        };
        i = i + 1;
    }
    assert(amounts@.take(amounts@.len() as int) =~= amounts@);
    best
}

/// The message a creep signs a controller with at tick `time`: the two
/// stock messages in turn.
pub fn stock_message(time: u32) -> (m: &'static str)
    ensures
        time % 2 == 0 ==> m@ == "Become as gods"@,
        time % 2 == 1 ==> m@ == "This cannot continue"@,
{
    if time % 2 == 0 {
        "Become as gods"
    } else {
        "This cannot continue"
    }
}

/// What an order to move gave.
#[derive(Debug, Clone, Copy, PartialEq, Eq, Structural)]
pub enum MoveOutcome {
    /// The creep moves.
    Moving,
    /// The creep is too tired to move this tick.
    Tired,
    /// Any other refusal.
    Refused,
}

/// A move succeeds when the creep moves or is only tired.
pub fn move_succeeded(outcome: MoveOutcome) -> (b: bool)
    ensures
        b == (outcome != MoveOutcome::Refused),
{
    match outcome {
        MoveOutcome::Moving => true,
        MoveOutcome::Tired => true,
        MoveOutcome::Refused => false,
    }
}

} // verus!

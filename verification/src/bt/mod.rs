//! Behaviour tree decisions: when a task may run, how a selector or a
//! sequence of tasks proceeds, and in which order tasks run.
//!
//! Notes about the way Screeps works:
//!     - There is no 'Running' state normally found in behaviour trees
//!     - There is no explicit task cancellation
use vstd::prelude::*;

verus! {

/// Input to a task.
pub trait TaskInput {
    /// The CPU bucket that this input reports.
    spec fn spec_cpu_bucket(&self) -> Option<i16>;

    /// The CPU bucket available this tick, if known.
    fn cpu_bucket(&self) -> (b: Option<i16>)
        ensures
            b == self.spec_cpu_bucket(),
    ;
}

impl TaskInput for () {
    open spec fn spec_cpu_bucket(&self) -> Option<i16> {
        None
    }

    fn cpu_bucket(&self) -> (b: Option<i16>)
        ensures
            b is None,
    {
        None
    }
}

/// Whether a task requiring `required` bucket may run with `bucket`: the
/// requirement is the bucket the task needs, so a bucket that reaches it is
/// enough.
pub open spec fn spec_bucket_allows(bucket: Option<i16>, required: i16) -> bool {
    match bucket {
        Some(b) => b >= required,
        None => true,
    }
}

/// A task runs when the bucket is unknown or at least its requirement.
pub fn bucket_allows(bucket: Option<i16>, required: i16) -> (b: bool)
    ensures
        b == spec_bucket_allows(bucket, required),
{
    match bucket {
        Some(b) => b >= required,
        None => true,
    }
}

/// How a control node runs its children.
#[derive(Debug, Clone, Copy, PartialEq, Eq, Structural)]
pub enum Control {
    /// Runs children in order until one fails; fails if one failed.
    Selector,
    /// Runs children in order until one succeeds; fails if all failed.
    Sequence,
    /// Runs all children whatever their outcome; succeeds.
    All,
}

/// What a control node does next.
#[derive(Debug, Clone, Copy, PartialEq, Eq, Structural)]
pub enum ControlStep {
    /// Tick the child at this index.
    Tick(usize),
    /// Stop with this outcome, `true` for success.
    Done(bool),
}

/// Whether a child's outcome ends the run of a control node.
pub open spec fn stops_at(kind: Control, ok: bool) -> bool {
    match kind {
        Control::Selector => !ok,
        Control::Sequence => ok,
        Control::All => false,
    }
}

/// The outcome of a control node with no child left to tick.
pub open spec fn exhausted_outcome(kind: Control) -> bool {
    kind != Control::Sequence
}

/// What a control node over `len` children does first.
pub open spec fn spec_control_start(kind: Control, len: nat) -> ControlStep {
    if len == 0 {
        ControlStep::Done(exhausted_outcome(kind))
    } else {
        ControlStep::Tick(0)
    }
}

/// What a control node over `len` children does after child `ticked - 1`
/// gave outcome `last_ok`.
pub open spec fn spec_control_step(kind: Control, len: nat, ticked: nat, last_ok: bool) -> ControlStep {
    if stops_at(kind, last_ok) {
        ControlStep::Done(last_ok)
    } else if ticked >= len {
        ControlStep::Done(exhausted_outcome(kind))
    } else {
        ControlStep::Tick(ticked as usize)
    }
}

/// The first step of a control node over `len` children.
pub fn control_start(kind: Control, len: usize) -> (s: ControlStep)
    ensures
        s == spec_control_start(kind, len as nat),
{
    if len == 0 {
        ControlStep::Done(match kind {
            Control::Selector => true,
            Control::Sequence => false,
            Control::All => true,
        })
    } else {
        ControlStep::Tick(0)
    }
}

/// The step of a control node over `len` children after `ticked` children
/// have been ticked, the last with outcome `last_ok`.
pub fn control_step(kind: Control, len: usize, ticked: usize, last_ok: bool) -> (s: ControlStep)
    ensures
        s == spec_control_step(kind, len as nat, ticked as nat, last_ok),
{
    let stop = match kind {
        Control::Selector => !last_ok,
        Control::Sequence => last_ok,
        Control::All => false,
    };
    if stop {
        ControlStep::Done(last_ok)
    } else if ticked >= len {
        ControlStep::Done(match kind {
            Control::Selector => true,
            Control::Sequence => false,
            Control::All => true,
        })
    } else {
        ControlStep::Tick(ticked)
    }
}

/// Run of a control node whose children give the outcomes `results`, from
/// the state where the first `ticked` children have been ticked: the number
/// of children ticked in all and the node's outcome.
pub open spec fn control_run(kind: Control, results: Seq<bool>) -> (nat, bool)
    decreases results.len(),
{
    if results.len() == 0 {
        (0, exhausted_outcome(kind))
    } else if stops_at(kind, results[0]) {
        (1, results[0])
    } else {
        let (n, ok) = control_run(kind, results.drop_first());
        (n + 1, ok)
    }
}

/// The run of the machine once `ticked` children have been ticked, the last
/// with outcome `results[ticked - 1]`: the number of children ticked in all
/// and the outcome it stops with.
pub open spec fn drive(kind: Control, results: Seq<bool>, ticked: nat) -> (nat, bool)
    decreases results.len() - ticked,
{
    if ticked == 0 || ticked > results.len() {
        (ticked, exhausted_outcome(kind))
    } else {
        match spec_control_step(kind, results.len(), ticked, results[ticked - 1]) {
            ControlStep::Done(ok) => (ticked, ok),
            ControlStep::Tick(_) => if ticked < results.len() {
                drive(kind, results, ticked + 1)
            } else {
                (ticked, exhausted_outcome(kind))
            },
        }
    }
}

/// The run of the machine from its first step, over children with outcomes
/// `results`.
pub open spec fn run_machine(kind: Control, results: Seq<bool>) -> (nat, bool) {
    match spec_control_start(kind, results.len()) {
        ControlStep::Done(ok) => (0, ok),
        ControlStep::Tick(_) => drive(kind, results, 1),
    }
}

proof fn lemma_drive_suffix(kind: Control, results: Seq<bool>, ticked: nat)
    requires
        1 <= ticked <= results.len(),
    ensures
        drive(kind, results, ticked).0 == ticked - 1 + control_run(
            kind,
            results.subrange(ticked - 1, results.len() as int),
        ).0,
        drive(kind, results, ticked).1 == control_run(
            kind,
            results.subrange(ticked - 1, results.len() as int),
        ).1,
    decreases results.len() - ticked,
{
    let rest = results.subrange(ticked - 1, results.len() as int);
    assert(rest[0] == results[ticked - 1]);
    let tail = rest.drop_first();
    if stops_at(kind, results[ticked - 1]) {
        assert(control_run(kind, rest) == (1nat, rest[0]));
    } else if ticked < results.len() {
        lemma_drive_suffix(kind, results, ticked + 1);
        assert(tail =~= results.subrange(ticked as int, results.len() as int));
        assert(control_run(kind, rest).0 == control_run(kind, tail).0 + 1);
        assert(control_run(kind, rest).1 == control_run(kind, tail).1);
    } else {
        assert(tail.len() == 0);
        assert(control_run(kind, tail) == (0nat, exhausted_outcome(kind)));
        assert(control_run(kind, rest).0 == 1);
        assert(control_run(kind, rest).1 == exhausted_outcome(kind));
    }
}

/// Ticking children one by one as `control_start` and `control_step` say,
/// a selector stops at its first failing child and fails, or succeeds when
/// all succeeded; a sequence stops at its first succeeding child and
/// succeeds, or fails when all failed; `All` ticks every child and
/// succeeds.
pub proof fn law_control_runs_to_first_stop(kind: Control, results: Seq<bool>)
    ensures
        run_machine(kind, results) == control_run(kind, results),
        control_run(kind, results).0 <= results.len(),
        forall|j: int| 0 <= j < control_run(kind, results).0 - 1 ==> !stops_at(kind, #[trigger] results[j]),
        control_run(kind, results).0 < results.len() ==> control_run(kind, results).0 > 0
            && stops_at(kind, results[control_run(kind, results).0 - 1])
            && control_run(kind, results).1 == results[control_run(kind, results).0 - 1],
        control_run(kind, results).0 > 0 && stops_at(kind, results[control_run(kind, results).0 - 1])
            ==> control_run(kind, results).1 == results[control_run(kind, results).0 - 1],
        (control_run(kind, results).0 == 0 || !stops_at(kind, results[control_run(kind, results).0 - 1]))
            ==> control_run(kind, results).1 == exhausted_outcome(kind),
    decreases results.len(),
{
    if results.len() > 0 {
        lemma_drive_suffix(kind, results, 1);
        assert(results.subrange(0, results.len() as int) =~= results);
        let tail = results.drop_first();
        law_control_runs_to_first_stop(kind, tail);
        let n = control_run(kind, results).0;
        if !stops_at(kind, results[0]) {
            let m = control_run(kind, tail).0;
            assert(n == m + 1);
            assert forall|j: int| 0 <= j < n - 1 implies !stops_at(kind, #[trigger] results[j]) by {
                if j > 0 {
                    assert(results[j] == tail[j - 1]);
                }
            }
            if m > 0 {
                assert(results[n - 1] == tail[m - 1]);
            }
        }
    }
}

/// Positions `0..n` arranged so that `priorities` at them do not increase,
/// and equal priorities keep their order.
pub open spec fn is_priority_order(priorities: Seq<i8>, order: Seq<usize>) -> bool {
    &&& order.len() == priorities.len()
    &&& forall|i: int| 0 <= i < order.len() ==> (#[trigger] order[i]) < priorities.len()
    &&& forall|i: int, j: int| 0 <= i < j < order.len() ==> order[i] != order[j]
    &&& forall|i: int, j: int|
        0 <= i < j < order.len() ==> priorities[order[i] as int] > priorities[order[j] as int]
            || (priorities[order[i] as int] == priorities[order[j] as int] && order[i] < order[j])
}

/// The order in which tasks of the given priorities run: highest priority
/// first, tasks of equal priority in their given order.
pub fn sorted_by_priority(priorities: &[i8]) -> (order: Vec<usize>)
    requires
        forall|i: int| 0 <= i < priorities@.len() ==> #[trigger] priorities@[i] > i8::MIN,
    ensures
        is_priority_order(priorities@, order@),
{
    let n = priorities.len();
    let mut order: Vec<usize> = Vec::new();
    let mut k: usize = 0;
    while k < n
        invariant
            n == priorities@.len(),
            k <= n,
            order@.len() == k,
            forall|i: int| 0 <= i < k ==> (#[trigger] order@[i]) < k,
            forall|i: int, j: int| 0 <= i < j < k ==> order@[i] != order@[j],
            forall|i: int, j: int|
                0 <= i < j < k ==> priorities@[order@[i] as int] > priorities@[order@[j] as int]
                    || (priorities@[order@[i] as int] == priorities@[order@[j] as int] && order@[i]
                    < order@[j]),
        decreases n - k,
    {
        // insert k after every position whose priority is at least its own
        let p = priorities[k];
        let mut pos: usize = 0;
        while pos < order.len() && priorities[order[pos]] >= p
            invariant
                n == priorities@.len(),
                k < n,
                p == priorities@[k as int],
                order@.len() == k,
                pos <= k,
                forall|i: int| 0 <= i < k ==> (#[trigger] order@[i]) < k,
                forall|i: int| 0 <= i < pos ==> priorities@[(#[trigger] order@[i]) as int] >= p,
            decreases k - pos,
        {
            pos = pos + 1;
        }
        let ghost before = order@;
        proof {
            assert forall|i: int| pos <= i < k implies priorities@[(#[trigger] before[i]) as int] < p by {
                if pos < k {
                    assert(priorities@[before[pos as int] as int] < p);
                    if i > pos {
                        assert(priorities@[before[pos as int] as int] > priorities@[before[i] as int]
                            || priorities@[before[pos as int] as int] == priorities@[before[i] as int]);
                    }
                }
            }
        }
        order.insert(pos, k);
        proof {
            let after = order@;
            assert(after =~= before.subrange(0, pos as int).push(k).add(before.subrange(pos as int, k as int)));
            assert forall|i: int| 0 <= i < k + 1 implies (#[trigger] after[i]) < k + 1 by {
                if i < pos {
                    assert(after[i] == before[i]);
                } else if i > pos {
                    assert(after[i] == before[i - 1]);
                }
            }
            assert forall|i: int, j: int| 0 <= i < j < k + 1 implies after[i] != after[j] by {
                if i < pos && j < pos {
                    assert(after[i] == before[i] && after[j] == before[j]);
                } else if i < pos && j > pos {
                    assert(after[i] == before[i] && after[j] == before[j - 1]);
                } else if i > pos && j > pos {
                    assert(after[i] == before[i - 1] && after[j] == before[j - 1]);
                } else if i == pos {
                    if j > pos {
                        assert(after[j] == before[j - 1]);
                    }
                } else {
                    assert(after[i] == before[i]);
                }
            }
            assert forall|i: int, j: int| 0 <= i < j < k + 1 implies priorities@[after[i] as int]
                > priorities@[after[j] as int] || (priorities@[after[i] as int]
                == priorities@[after[j] as int] && after[i] < after[j]) by {
                if i < pos && j < pos {
                    assert(after[i] == before[i] && after[j] == before[j]);
                } else if i < pos && j == pos {
                    assert(after[i] == before[i]);
                    assert(priorities@[before[i] as int] >= p);
                } else if i < pos && j > pos {
                    assert(after[i] == before[i] && after[j] == before[j - 1]);
                } else if i == pos {
                    assert(after[j] == before[j - 1]);
                    assert(priorities@[before[j - 1] as int] < p);
                } else {
                    assert(after[i] == before[i - 1] && after[j] == before[j - 1]);
                }
            }
        }
        k = k + 1;
    }
    order
}

} // verus!

//! Extensions: a breadth first search around the spawn for positions to
//! build extensions on, five at most.
use super::geometry::{point_neighbours, HasNeighbour};
use super::point::Point;
use vstd::prelude::*;

verus! {

/// Most extension sites placed in one search.
pub const MAX_EXTENSIONS: usize = 5;

/// Whether a position has all 8 neighbours strictly inside the room.
pub open spec fn inner(p: Point) -> bool {
    0 < p.0 < 49 && 0 < p.1 < 49
}

/// The first position of `queue` from `from` on that is not in `visited`.
pub open spec fn first_unvisited(queue: Seq<Point>, from: int, visited: Seq<Point>) -> Option<int>
    decreases queue.len() - from,
{
    if from < 0 || from >= queue.len() {
        None
    } else if !visited.contains(queue[from]) {
        Some(from)
    } else {
        first_unvisited(queue, from + 1, visited)
    }
}

/// The search offers only positions it has not visited: the next candidate
/// is not visited and every position it skips is.
pub proof fn law_candidates_are_unvisited(queue: Seq<Point>, from: int, visited: Seq<Point>)
    requires
        0 <= from,
    ensures
        first_unvisited(queue, from, visited) matches Some(i) ==> from <= i < queue.len() && !visited.contains(
            queue[i],
        ) && forall|j: int| from <= j < i ==> visited.contains(#[trigger] queue[j]),
        first_unvisited(queue, from, visited) is None ==> forall|j: int|
            from <= j < queue.len() ==> visited.contains(#[trigger] queue[j]),
    decreases queue.len() - from,
{
    if from < queue.len() && visited.contains(queue[from]) {
        law_candidates_are_unvisited(queue, from + 1, visited);
    }
}

/// What placing an extension site gave.
#[derive(Debug, Clone, Copy, PartialEq, Eq, Structural)]
pub enum ExtensionOutcome {
    /// The site was placed.
    Placed,
    /// The room's level allows no more extensions.
    RclNotEnough,
    /// The room has as many construction sites as it may.
    Full,
    /// Any other refusal.
    Refused,
}

/// What the search does after a placement.
#[derive(Debug, Clone, Copy, PartialEq, Eq, Structural)]
pub enum ExtensionStep {
    /// Look for the next position.
    Continue,
    /// Stop: done for now.
    Done,
    /// Stop: the room is full of construction sites.
    RoomFull,
}

/// The search for extension positions around a spawn.
pub struct ExtensionSearch {
    visited: Vec<Point>,
    queue: Vec<Point>,
    head: usize,
    built: usize,
}

impl ExtensionSearch {
    /// Positions already looked at.
    pub closed spec fn visited(&self) -> Seq<Point> {
        self.visited@
    }

    /// Positions queued, including those already taken off.
    pub closed spec fn queue(&self) -> Seq<Point> {
        self.queue@
    }

    /// Number of positions taken off the queue.
    pub closed spec fn head(&self) -> nat {
        self.head as nat
    }

    /// Number of extension sites placed.
    pub closed spec fn built(&self) -> nat {
        self.built as nat
    }

    /// The internal invariant.
    pub closed spec fn wf(&self) -> bool {
        &&& self.head <= self.queue@.len()
        &&& self.built <= MAX_EXTENSIONS
    }

    /// Start around the spawn at `spawn`: it is visited and its neighbours
    /// are queued.
    pub fn new(spawn: Point) -> (s: Self)
        requires
            inner(spawn),
        ensures
            s.wf(),
            s.visited() == seq![spawn],
            s.queue() == point_neighbours(spawn),
            s.head() == 0,
            s.built() == 0,
    {
        let around = spawn.neighbours();
        let mut queue: Vec<Point> = Vec::new();
        let mut i: usize = 0;
        while i < 8
            invariant
                i <= 8,
                around@ == point_neighbours(spawn),
                queue@ == around@.take(i as int),
            decreases 8 - i,
        {
            queue.push(around[i]);
            i = i + 1;
            assert(queue@ =~= around@.take(i as int));
        }
        assert(around@.take(8) =~= around@);
        let mut visited: Vec<Point> = Vec::new();
        visited.push(spawn);
        ExtensionSearch { visited, queue, head: 0, built: 0 }
    }

    /// Whether the next position the search takes has all its neighbours
    /// in the room.
    pub open spec fn next_is_inner(&self) -> bool {
        first_unvisited(self.queue(), self.head() as int, self.visited()) matches Some(i) ==> inner(
            self.queue()[i],
        )
    }

    /// The next position to try an extension on: the first queued position
    /// not yet visited, which becomes visited and queues its neighbours not
    /// yet visited; none once five sites are placed or the queue is used up.
    pub fn next_candidate(&mut self) -> (r: Option<Point>)
        requires
            old(self).wf(),
            old(self).built() < MAX_EXTENSIONS ==> old(self).next_is_inner(),
        ensures
            final(self).wf(),
            final(self).built() == old(self).built(),
            old(self).built() >= MAX_EXTENSIONS ==> r is None && final(self).visited() == old(self).visited()
                && final(self).queue() == old(self).queue() && final(self).head() == old(self).head(),
            old(self).built() < MAX_EXTENSIONS ==> match first_unvisited(
                old(self).queue(),
                old(self).head() as int,
                old(self).visited(),
            ) {
                None => r is None && final(self).visited() == old(self).visited() && final(self).queue()
                    == old(self).queue() && final(self).head() == old(self).queue().len(),
                Some(i) => {
                    let p = old(self).queue()[i];
                    let seen = old(self).visited().push(p);
                    &&& r == Some(p)
                    &&& final(self).visited() == seen
                    &&& final(self).head() == i + 1
                    &&& final(self).queue() == old(self).queue() + point_neighbours(p).filter(
                        |n: Point| !seen.contains(n),
                    )
                },
            },
    {
        if self.built >= MAX_EXTENSIONS {
            return None;
        }
        let ghost q0 = self.queue@;
        let ghost v0 = self.visited@;
        let ghost h0 = self.head as int;
        let ghost b0 = self.built;
        proof {
            law_candidates_are_unvisited(q0, h0, v0);
        }
        while self.head < self.queue.len()
            invariant
                self.queue@ == q0,
                self.visited@ == v0,
                h0 <= self.head <= q0.len(),
                self.built == b0,
                b0 == old(self).built,
                q0 == old(self).queue@,
                v0 == old(self).visited@,
                h0 == old(self).head,
                b0 < MAX_EXTENSIONS,
                first_unvisited(q0, h0, v0) matches Some(i) ==> inner(q0[i]),
                first_unvisited(q0, h0, v0) == first_unvisited(q0, self.head as int, v0),
            decreases q0.len() - self.head,
        {
            let pos = self.queue[self.head];
            self.head = self.head + 1;
            if !contains(&self.visited, pos) {
                assert(first_unvisited(q0, h0, v0) == Some((self.head - 1) as int));
                self.visited.push(pos);
                let ghost seen = self.visited@;
                let around = pos.neighbours();
                let ghost pred = |n: Point| !seen.contains(n);
                let mut k: usize = 0;
                while k < 8
                    invariant
                        k <= 8,
                        around@ == point_neighbours(pos),
                        self.visited@ == seen,
                        pred == (|n: Point| !seen.contains(n)),
                        self.queue@ == q0 + around@.take(k as int).filter(pred),
                        self.head <= q0.len(),
                        self.built == b0,
                        b0 == old(self).built,
                        q0 == old(self).queue@,
                        v0 == old(self).visited@,
                        h0 == old(self).head,
                        seen == v0.push(pos),
                        first_unvisited(q0, h0, v0) == Some((self.head - 1) as int),
                        pos == q0[self.head - 1],
                        b0 < MAX_EXTENSIONS,
                    decreases 8 - k,
                {
                    let n = around[k];
                    proof {
                        around@.take(k as int).lemma_filter_push(n, pred);
                        assert(around@.take(k + 1) =~= around@.take(k as int).push(n));
                    }
                    if !contains(&self.visited, n) {
                        self.queue.push(n);
                        assert(self.queue@ =~= q0 + around@.take(k + 1).filter(pred));
                    } else {
                        assert(self.queue@ =~= q0 + around@.take(k + 1).filter(pred));
                    }
                    k = k + 1;
                }
                assert(around@.take(8) =~= around@);
                return Some(pos);
            }
            assert(first_unvisited(q0, (self.head - 1) as int, v0) == first_unvisited(q0, self.head as int, v0));
        }
        None
    }

    /// The position `next_candidate` takes next, if any, left in place.
    pub fn peek_candidate(&self) -> (r: Option<Point>)
        requires
            self.wf(),
        ensures
            self.built() >= MAX_EXTENSIONS ==> r is None,
            self.built() < MAX_EXTENSIONS ==> r == match first_unvisited(
                self.queue(),
                self.head() as int,
                self.visited(),
            ) {
                Some(i) => Some(self.queue()[i]),
                None => None::<Point>,
            },
    {
        if self.built >= MAX_EXTENSIONS {
            return None;
        }
        let mut h = self.head;
        proof {
            law_candidates_are_unvisited(self.queue@, h as int, self.visited@);
        }
        while h < self.queue.len()
            invariant
                self.head <= h <= self.queue@.len(),
                self.built < MAX_EXTENSIONS,
                first_unvisited(self.queue@, self.head as int, self.visited@) == first_unvisited(
                    self.queue@,
                    h as int,
                    self.visited@,
                ),
            decreases self.queue@.len() - h,
        {
            let pos = self.queue[h];
            if !contains(&self.visited, pos) {
                return Some(pos);
            }
            h = h + 1;
        }
        None
    }

    /// Take the outcome of placing a site at the last candidate.
    pub fn record(&mut self, outcome: ExtensionOutcome) -> (s: ExtensionStep)
        requires
            old(self).wf(),
            old(self).built() < MAX_EXTENSIONS,
        ensures
            final(self).wf(),
            final(self).visited() == old(self).visited(),
            final(self).queue() == old(self).queue(),
            final(self).head() == old(self).head(),
            outcome == ExtensionOutcome::Placed ==> final(self).built() == old(self).built() + 1 && s
                == ExtensionStep::Continue,
            outcome != ExtensionOutcome::Placed ==> final(self).built() == old(self).built(),
            outcome == ExtensionOutcome::RclNotEnough ==> s == ExtensionStep::Done,
            outcome == ExtensionOutcome::Full ==> s == ExtensionStep::RoomFull,
            outcome == ExtensionOutcome::Refused ==> s == ExtensionStep::Continue,
    {
        match outcome {
            ExtensionOutcome::Placed => {
                self.built = self.built + 1;
                ExtensionStep::Continue
            },
            ExtensionOutcome::RclNotEnough => ExtensionStep::Done,
            ExtensionOutcome::Full => ExtensionStep::RoomFull,
            ExtensionOutcome::Refused => ExtensionStep::Continue,
        }
    }

    /// Number of extension sites placed.
    pub fn placed(&self) -> (n: usize)
        ensures
            n == self.built(),
    {
        self.built
    }
}

/// Whether `p` is one of `items`.
fn contains(items: &Vec<Point>, p: Point) -> (b: bool)
    ensures
        b == items@.contains(p),
{
    let mut i: usize = 0;
    while i < items.len()
        invariant
            i <= items@.len(),
            forall|j: int| 0 <= j < i ==> items@[j] != p,
        decreases items@.len() - i,
    {
        if items[i] == p {
            return true;
        }
        i = i + 1;
    }
    false
}

} // verus!

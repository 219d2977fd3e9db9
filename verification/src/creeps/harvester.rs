//! Harvesters: pick the energy source with the fewest harvesters, nearest
//! first on a tie.
use vstd::prelude::*;

verus! {

/// Number of creeps among `targets` (each creep's harvest target, if set)
/// whose target is `source`.
pub open spec fn harvesters_on(targets: Seq<Option<String>>, source: Seq<char>) -> nat
    decreases targets.len(),
{
    if targets.len() == 0 {
        0
    } else {
        harvesters_on(targets.drop_last(), source) + if targets.last() matches Some(t) && t@ == source {
            1nat
        } else {
            0nat
        }
    }
}

/// Count the creeps whose harvest target is `source`.
pub fn harvester_count(targets: &[Option<String>], source: &String) -> (n: usize)
    ensures
        n == harvesters_on(targets@, source@),
{
    let mut n: usize = 0;
    let mut i: usize = 0;
    while i < targets.len()
        invariant
            i <= targets@.len(),
            n == harvesters_on(targets@.take(i as int), source@),
            n <= i,
        decreases targets@.len() - i,
    {
        assert(targets@.take(i + 1).drop_last() =~= targets@.take(i as int));
        let hit = match &targets[i] {
            Some(t) => *t == *source,
            None => false,
        };
        if hit {
            n = n + 1;
        }
        i = i + 1;
    }
    assert(targets@.take(targets@.len() as int) =~= targets@);
    n
}

/// Among the first sources of `sources`, each given as `(distance,
/// harvesters)`, the position of the one with the fewest harvesters, then
/// the nearest, the first on a tie.
pub open spec fn best_source(sources: Seq<(u32, usize)>) -> Option<int>
    decreases sources.len(),
{
    if sources.len() == 0 {
        None
    } else if sources.len() == 1 {
        Some(0)
    } else {
        let k = sources.len() - 1;
        let b = best_source(sources.drop_last())->0;
        let (dist, count) = sources[k];
        if count < sources[b].1 || (count == sources[b].1 && dist < sources[b].0) {
            Some(k)
        } else {
            Some(b)
        }
    }
}

/// Whether source `a`, as `(distance, harvesters)`, is preferred to `b`:
/// fewer harvesters, or as many and nearer.
pub open spec fn preferred(a: (u32, usize), b: (u32, usize)) -> bool {
    a.1 < b.1 || (a.1 == b.1 && a.0 < b.0)
}

/// No source is preferred to the one picked, and it is preferred to every
/// source before it.
pub proof fn law_best_source_is_preferred(sources: Seq<(u32, usize)>)
    ensures
        best_source(sources) matches Some(b) ==> 0 <= b < sources.len() && (forall|i: int|
            0 <= i < sources.len() ==> !preferred(#[trigger] sources[i], sources[b])) && (forall|i: int|
            0 <= i < b ==> preferred(sources[b], #[trigger] sources[i])),
    decreases sources.len(),
{
    lemma_best_source_range(sources);
    if sources.len() > 1 {
        let prev = sources.drop_last();
        law_best_source_is_preferred(prev);
        lemma_best_source_range(prev);
        let b = best_source(sources)->0;
        let last = sources.len() - 1;
        assert forall|i: int| 0 <= i < sources.len() implies !preferred(#[trigger] sources[i], sources[b]) by {
            if i < last {
                assert(prev[i] == sources[i]);
            }
            let pb = best_source(prev)->0;
            assert(prev[pb] == sources[pb]);
        }
        assert forall|i: int| 0 <= i < b implies preferred(sources[b], #[trigger] sources[i]) by {
            if i < last {
                assert(prev[i] == sources[i]);
            }
            let pb = best_source(prev)->0;
            assert(prev[pb] == sources[pb]);
        }
    }
}

proof fn lemma_best_source_range(sources: Seq<(u32, usize)>)
    ensures
        sources.len() > 0 ==> (best_source(sources) matches Some(b) && 0 <= b < sources.len()),
        sources.len() == 0 ==> best_source(sources) is None,
    decreases sources.len(),
{
    if sources.len() > 1 {
        lemma_best_source_range(sources.drop_last());
    }
}

/// The source a harvester goes to, among `sources` given as `(distance,
/// harvesters)`: the one with the fewest harvesters, then the nearest, the
/// first on a tie; none without sources.
pub fn find_harvest_target(sources: &[(u32, usize)]) -> (r: Option<usize>)
    ensures
        r == match best_source(sources@) {
            Some(b) => Some(b as usize),
            None => None::<usize>,
        },
{
    if sources.len() == 0 {
        return None;
    }
    let mut best: usize = 0;
    let mut i: usize = 1;
    while i < sources.len()
        invariant
            1 <= i <= sources@.len(),
            best_source(sources@.take(i as int)) == Some(best as int),
            best < i,
        decreases sources@.len() - i,
    {
        let ghost prefix = sources@.take(i + 1);
        assert(prefix.drop_last() =~= sources@.take(i as int));
        let (dist, count) = sources[i];
        let (best_dist, best_count) = sources[best];
        if count < best_count || (count == best_count && dist < best_dist) {
            best = i;
        }
        i = i + 1;
    }
    assert(sources@.take(sources@.len() as int) =~= sources@);
    Some(best)
}

} // verus!

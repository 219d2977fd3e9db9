//! Where the first spawn of a room goes: halfway between its points of
//! interest.
use super::geometry::PointGeometry;
use super::point::Point;
use vstd::prelude::*;

verus! {

/// Whether a point lies in a room, coordinates `0..50`.
pub open spec fn in_room(p: Point) -> bool {
    0 <= p.0 < 50 && 0 <= p.1 < 50
}

/// `first` moved halfway towards each of `rest` in turn.
pub open spec fn fold_halfway(first: Point, rest: Seq<Point>) -> Point
    decreases rest.len(),
{
    if rest.len() == 0 {
        first
    } else {
        fold_halfway(first, rest.drop_last()).halfway(&rest.last())
    }
}

/// The halfway point of two points in a room lies in the room.
pub proof fn lemma_halfway_in_room(a: Point, b: Point)
    requires
        in_room(a),
        in_room(b),
    ensures
        in_room(a.halfway(&b)),
        a.halfway(&b).0 == (a.0 + b.0) / 2,
        a.halfway(&b).1 == (a.1 + b.1) / 2,
{
}

/// Whether `first` and all of `rest` lie in a room.
pub open spec fn all_in_room(first: Point, rest: Seq<Point>) -> bool {
    in_room(first) && forall|i: int| 0 <= i < rest.len() ==> in_room(#[trigger] rest[i])
}

/// `first` moved halfway towards each of `rest` in turn.
pub fn fold_midpoints(first: Point, rest: &[Point]) -> (p: Point)
    ensures
        p == fold_halfway(first, rest@),
        all_in_room(first, rest@) ==> in_room(p),
{
    let mut result = first;
    let mut i: usize = 0;
    while i < rest.len()
        invariant
            i <= rest@.len(),
            result == fold_halfway(first, rest@.take(i as int)),
            all_in_room(first, rest@) ==> in_room(result),
        decreases rest@.len() - i,
    {
        let ghost prefix = rest@.take(i + 1);
        assert(prefix.drop_last() =~= rest@.take(i as int));
        assert(prefix.last() == rest@[i as int]);
        proof {
            if all_in_room(first, rest@) {
                lemma_halfway_in_room(result, rest@[i as int]);
            }
        }
        result = result.midpoint(&rest[i]);
        i = i + 1;
    }
    assert(rest@.take(rest@.len() as int) =~= rest@);
    result
}

/// Why no point for the first spawn was found.
#[derive(Debug, Clone, Copy, PartialEq, Eq, Structural)]
pub enum InitialPointError {
    /// The room is not ours.
    NotMine,
    /// The room has fewer than two sources and controller together.
    TooFewPoints,
}

/// The points of interest of a room: its sources, then its controller.
pub open spec fn points_of_interest(sources: Seq<Point>, controller: Option<Point>) -> Seq<Point> {
    match controller {
        Some(c) => sources.push(c),
        None => sources,
    }
}

/// Find the optimal point to place the first spawn on: in a room of ours
/// with at least two points of interest, the first moved halfway towards
/// each of the others in turn.
pub fn find_initial_point(mine: bool, sources: &[Point], controller: Option<Point>) -> (r: Result<
    Point,
    InitialPointError,
>)
    ensures
        !mine ==> r == Err::<Point, InitialPointError>(InitialPointError::NotMine),
        mine && points_of_interest(sources@, controller).len() < 2 ==> r == Err::<
            Point,
            InitialPointError,
        >(InitialPointError::TooFewPoints),
        mine && points_of_interest(sources@, controller).len() >= 2 ==> ({
            let poi = points_of_interest(sources@, controller);
            r == Ok::<Point, InitialPointError>(fold_halfway(poi[0], poi.drop_first()))
        }),
        (forall|i: int| 0 <= i < sources@.len() ==> in_room(#[trigger] sources@[i])) && (controller matches Some(
            c,
        ) ==> in_room(c)) ==> (r matches Ok(p) ==> in_room(p)),
{
    if !mine {
        return Err(InitialPointError::NotMine);
    }
    let mut poi: Vec<Point> = Vec::new();
    let mut i: usize = 0;
    while i < sources.len()
        invariant
            i <= sources@.len(),
            poi@ == sources@.take(i as int),
        decreases sources@.len() - i,
    {
        poi.push(sources[i]);
        i = i + 1;
        assert(poi@ =~= sources@.take(i as int));
    }
    assert(sources@.take(sources@.len() as int) =~= sources@);
    if let Some(c) = controller {
        poi.push(c);
    }
    assert(poi@ == points_of_interest(sources@, controller));
    if poi.len() < 2 {
        return Err(InitialPointError::TooFewPoints);
    }
    let first = poi[0];
    let rest = tail_of(&poi);
    assert(rest@ =~= poi@.drop_first());
    proof {
        if (forall|i: int| 0 <= i < sources@.len() ==> in_room(#[trigger] sources@[i])) && (controller matches Some(
            c,
        ) ==> in_room(c)) {
            assert forall|i: int| 0 <= i < poi@.len() implies in_room(#[trigger] poi@[i]) by {
                if i < sources@.len() {
                    assert(poi@[i] == sources@[i]);
                }
            }
            assert forall|i: int| 0 <= i < rest@.len() implies in_room(#[trigger] rest@[i]) by {
                assert(rest@[i] == poi@[i + 1]);
            }
            assert(all_in_room(first, rest@));
        }
    }
    Ok(fold_midpoints(first, &rest))
}

fn tail_of(v: &Vec<Point>) -> (t: Vec<Point>)
    requires
        v@.len() >= 1,
    ensures
        t@ == v@.drop_first(),
{
    let mut t: Vec<Point> = Vec::new();
    let mut i: usize = 1;
    while i < v.len()
        invariant
            1 <= i <= v@.len(),
            t@ == v@.subrange(1, i as int),
        decreases v@.len() - i,
    {
        t.push(v[i]);
        i = i + 1;
        assert(t@ =~= v@.subrange(1, i as int));
    }
    assert(v@.subrange(1, v@.len() as int) =~= v@.drop_first());
    t
}

} // verus!

//! Midpoints and neighbourhoods of room positions.
use super::point::{div_toward_zero, Point};
use vstd::prelude::*;

verus! {

/// The 8 positions around a position.
pub trait HasNeighbour: Sized {
    type Out;

    /// Whether all 8 neighbours lie strictly inside the room.
    spec fn has_inner_neighbours(&self) -> bool;

    /// The neighbours in the order `neighbours` gives them.
    spec fn neighbour_list(&self) -> Seq<Self::Out>;

    /// The 8 neighbours: left, right, up, down, then the four diagonals.
    fn neighbours(&self) -> (n: [Self::Out; 8])
        requires
            self.has_inner_neighbours(),
        ensures
            n@ == self.neighbour_list(),
    ;
}

/// The neighbours of `p`: `(x-1, y)`, `(x+1, y)`, `(x, y-1)`, `(x, y+1)`,
/// `(x-1, y-1)`, `(x-1, y+1)`, `(x+1, y-1)`, `(x+1, y+1)`.
pub open spec fn point_neighbours(p: Point) -> Seq<Point> {
    let (x, y) = (p.0 as int, p.1 as int);
    seq![
        Point((x - 1) as i16, y as i16),
        Point((x + 1) as i16, y as i16),
        Point(x as i16, (y - 1) as i16),
        Point(x as i16, (y + 1) as i16),
        Point((x - 1) as i16, (y - 1) as i16),
        Point((x - 1) as i16, (y + 1) as i16),
        Point((x + 1) as i16, (y - 1) as i16),
        Point((x + 1) as i16, (y + 1) as i16),
    ]
}

impl HasNeighbour for Point {
    type Out = Point;

    open spec fn has_inner_neighbours(&self) -> bool {
        0 < self.0 < 49 && 0 < self.1 < 49
    }

    open spec fn neighbour_list(&self) -> Seq<Point> {
        point_neighbours(*self)
    }

    fn neighbours(&self) -> (n: [Point; 8]) {
        let x = self.0;
        let y = self.1;
        let n = [
            Point(x - 1, y),
            Point(x + 1, y),
            Point(x, y - 1),
            Point(x, y + 1),
            Point(x - 1, y - 1),
            Point(x - 1, y + 1),
            Point(x + 1, y - 1),
            Point(x + 1, y + 1),
        ];
        assert(n@ =~= point_neighbours(*self));
        n
    }
}

/// Halfway points between positions.
pub trait PointGeometry: Sized {
    /// The point halfway between `self` and `other`.
    spec fn halfway(&self, other: &Self) -> Self;

    /// Return the point midpoint on the line between self and other
    fn midpoint(&self, other: &Self) -> (m: Self)
        ensures
            m == self.halfway(other),
    ;
}

impl PointGeometry for Point {
    /// Each coordinate is the sum of the two halved, rounding towards zero.
    open spec fn halfway(&self, other: &Point) -> Point {
        Point(
            div_toward_zero(self.0 + other.0, 2) as i16,
            div_toward_zero(self.1 + other.1, 2) as i16,
        )
    }

    fn midpoint(&self, other: &Point) -> (m: Point) {
        let x = half_sum(self.0, other.0);
        let y = half_sum(self.1, other.1);
        Point(x, y)
    }
}

/// `(a + b) / 2`, rounding towards zero.
fn half_sum(a: i16, b: i16) -> (h: i16)
    ensures
        h == div_toward_zero(a + b, 2),
{
    let s: i32 = a as i32 + b as i32;
    let h: i32 = s / 2;
    assert(h == div_toward_zero(s as int, 2)) by {
        if s < 0 {
            assert(-s >= 0);
        }
    }
    h as i16
}

/// Calculate the midpoint of 2 vectors given as tuples of (x, y) coordinates
pub fn midpoint(v1: (u32, u32), v2: (u32, u32)) -> (m: (u32, u32))
    requires
        v1.0 + v2.0 <= u32::MAX,
        v1.1 + v2.1 <= u32::MAX,
    ensures
        m.0 == (v1.0 + v2.0) / 2,
        m.1 == (v1.1 + v2.1) / 2,
{
    let x = v1.0 + v2.0;
    let y = v1.1 + v2.1;
    (x / 2, y / 2)
}

} // verus!

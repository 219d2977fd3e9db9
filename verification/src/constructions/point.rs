use core::ops::{Add, Div, Mul, Sub};
use vstd::prelude::*;

verus! {

/// A position inside a room, `(x, y)`.
#[derive(Debug, Clone, Copy, Default, PartialEq, Eq, Hash, Structural)]
pub struct Point(pub i16, pub i16);

/// Absolute value of an integer.
pub open spec fn abs_int(v: int) -> int {
    if v < 0 {
        -v
    } else {
        v
    }
}

impl Point {
    /// Manhattan distance between two points.
    pub fn manhatten_dist(&self, other: &Self) -> (d: u16)
        requires
            i16::MIN < other.0 - self.0 <= i16::MAX,
            i16::MIN < other.1 - self.1 <= i16::MAX,
            abs_int(other.0 - self.0) + abs_int(other.1 - self.1) <= i16::MAX,
        ensures
            d == abs_int(other.0 - self.0) + abs_int(other.1 - self.1),
    {
        let result = *other - *self;
        let ax: i16 = if result.0 < 0 { -result.0 } else { result.0 };
        let ay: i16 = if result.1 < 0 { -result.1 } else { result.1 };
        (ax + ay) as u16
    }

    /// Whether the point lies on a room's 50×50 tiles.
    pub fn is_valid_room_position(&self) -> (b: bool)
        ensures
            b == (0 <= self.0 < 50 && 0 <= self.1 < 50),
    {
        0 <= self.0 && self.0 < 50 && 0 <= self.1 && self.1 < 50
    }
}

impl Add for Point {
    type Output = Point;

    fn add(self, rhs: Point) -> (r: Point) {
        Point(self.0 + rhs.0, self.1 + rhs.1)
    }
}

impl vstd::std_specs::ops::AddSpecImpl for Point {
    open spec fn obeys_add_spec() -> bool {
        true
    }

    open spec fn add_req(self, rhs: Point) -> bool {
        i16::MIN <= self.0 + rhs.0 <= i16::MAX && i16::MIN <= self.1 + rhs.1 <= i16::MAX
    }

    open spec fn add_spec(self, rhs: Point) -> Point {
        Point((self.0 + rhs.0) as i16, (self.1 + rhs.1) as i16)
    }
}

impl Sub for Point {
    type Output = Point;

    fn sub(self, rhs: Point) -> (r: Point) {
        Point(self.0 - rhs.0, self.1 - rhs.1)
    }
}

impl vstd::std_specs::ops::SubSpecImpl for Point {
    open spec fn obeys_sub_spec() -> bool {
        true
    }

    open spec fn sub_req(self, rhs: Point) -> bool {
        i16::MIN <= self.0 - rhs.0 <= i16::MAX && i16::MIN <= self.1 - rhs.1 <= i16::MAX
    }

    open spec fn sub_spec(self, rhs: Point) -> Point {
        Point((self.0 - rhs.0) as i16, (self.1 - rhs.1) as i16)
    }
}

impl Mul<i32> for Point {
    type Output = Point;

    fn mul(self, rhs: i32) -> (r: Point) {
        let x = self.0 as i32 * rhs;
        let y = self.1 as i32 * rhs;
        Point(x as i16, y as i16)
    }
}

impl vstd::std_specs::ops::MulSpecImpl<i32> for Point {
    open spec fn obeys_mul_spec() -> bool {
        true
    }

    open spec fn mul_req(self, rhs: i32) -> bool {
        i32::MIN <= self.0 * rhs <= i32::MAX && i32::MIN <= self.1 * rhs <= i32::MAX
    }

    /// Each coordinate multiplied, cut to 16 bits.
    open spec fn mul_spec(self, rhs: i32) -> Point {
        Point((self.0 * rhs) as i16, (self.1 * rhs) as i16)
    }
}

/// Integer division rounding towards zero, as Rust's `/` does.
pub open spec fn div_toward_zero(a: int, b: int) -> int {
    if (a < 0) == (b < 0) {
        abs_int(a) / abs_int(b)
    } else {
        -(abs_int(a) / abs_int(b))
    }
}

/// `a / b` for a coordinate `a`.
fn coord_div(a: i16, b: i32) -> (q: i32)
    requires
        b != 0,
    ensures
        q == div_toward_zero(a as int, b as int),
{
    let na: i64 = if a < 0 { -(a as i64) } else { a as i64 };
    let nb: i64 = if b < 0 { -(b as i64) } else { b as i64 };
    let m: i64 = na / nb;
    assert(m <= na) by (nonlinear_arith)
        requires
            m == na / nb,
            na >= 0,
            nb >= 1,
    ;
    if (a < 0) == (b < 0) {
        m as i32
    } else {
        (-m) as i32
    }
}

impl Div<i32> for Point {
    type Output = Point;

    fn div(self, rhs: i32) -> (r: Point) {
        let x = coord_div(self.0, rhs);
        let y = coord_div(self.1, rhs);
        Point(x as i16, y as i16)
    }
}

impl vstd::std_specs::ops::DivSpecImpl<i32> for Point {
    open spec fn obeys_div_spec() -> bool {
        true
    }

    open spec fn div_req(self, rhs: i32) -> bool {
        rhs != 0
    }

    /// Each coordinate divided rounding towards zero, cut to 16 bits.
    open spec fn div_spec(self, rhs: i32) -> Point {
        Point(
            div_toward_zero(self.0 as int, rhs as int) as i16,
            div_toward_zero(self.1 as int, rhs as int) as i16,
        )
    }
}

impl Div<u32> for Point {
    type Output = Point;

    fn div(self, rhs: u32) -> (r: Point) {
        self / (rhs as i32)
    }
}

impl vstd::std_specs::ops::DivSpecImpl<u32> for Point {
    open spec fn obeys_div_spec() -> bool {
        true
    }

    open spec fn div_req(self, rhs: u32) -> bool {
        rhs as i32 != 0
    }

    /// Division by the divisor read as an `i32`.
    open spec fn div_spec(self, rhs: u32) -> Point {
        Point(
            div_toward_zero(self.0 as int, (rhs as i32) as int) as i16,
            div_toward_zero(self.1 as int, (rhs as i32) as int) as i16,
        )
    }
}

} // verus!

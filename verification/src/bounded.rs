//! The fixed-capacity containers of the `arrayvec` crate that the library
//! fills: their contents are named below, and every method the library calls
//! goes through one of the functions here.
use crate::constructions::point::Point;
use crate::creeps::roles::{Part, Role};
use arrayvec::{ArrayString, ArrayVec};
use vstd::prelude::*;

verus! {

/// `arrayvec::ArrayString`, a string stored inline with a capacity of `CAP`
/// bytes.
#[verifier::external_type_specification]
#[verifier::external_body]
pub struct ExArrayString<const CAP: usize>(ArrayString<CAP>);

/// The characters held by a 16 byte `ArrayString`.
pub uninterp spec fn name_chars(s: ArrayString<16>) -> Seq<char>;

/// `ArrayString::new`: an empty string. The source panics only for a
/// capacity above `u32::MAX`, which 16 is not.
#[verifier::external_body]
pub(crate) fn name_new() -> (s: ArrayString<16>)
    ensures
        name_chars(s) == Seq::<char>::empty(),
{
    ArrayString::new()
}

/// `ArrayString::push`: appends `c`. The source encodes `c` in UTF-8 after
/// the current bytes and panics when they do not fit; an ASCII character
/// takes one byte, so a string of fewer than 16 ASCII characters has room.
#[verifier::external_body]
pub(crate) fn name_push(s: &mut ArrayString<16>, c: char)
    requires
        name_chars(*old(s)).len() < 16,
        vstd::utf8::is_ascii_chars(name_chars(*old(s))),
        '\0' <= c <= '\u{7f}',
    ensures
        name_chars(*final(s)) == name_chars(*old(s)).push(c),
{
    s.push(c)
}

/// `ArrayString::as_str`: the characters of the string.
#[verifier::external_body]
pub(crate) fn name_as_str(s: &ArrayString<16>) -> (r: &str)
    ensures
        r@ == name_chars(*s),
{
    s.as_str()
}

/// `arrayvec::ArrayVec`, a vector stored inline with room for `CAP` items.
#[verifier::external_type_specification]
#[verifier::external_body]
#[verifier::reject_recursive_types(T)]
pub struct ExArrayVec<T, const CAP: usize>(ArrayVec<T, CAP>);

/// The roles held by a list of at most nine roles.
pub uninterp spec fn roles_of(v: ArrayVec<Role, 9>) -> Seq<Role>;

/// `ArrayVec::new`: an empty list of roles.
#[verifier::external_body]
pub(crate) fn roles_new() -> (v: ArrayVec<Role, 9>)
    ensures
        roles_of(v) == Seq::<Role>::empty(),
{
    ArrayVec::new()
}

/// `ArrayVec::push`: appends `r`; the source panics when the list is full.
#[verifier::external_body]
pub(crate) fn roles_push(v: &mut ArrayVec<Role, 9>, r: Role)
    requires
        roles_of(*old(v)).len() < 9,
    ensures
        roles_of(*final(v)) == roles_of(*old(v)).push(r),
{
    v.push(r)
}

/// The points held by a list of at most four points.
pub uninterp spec fn points_of(v: ArrayVec<Point, 4>) -> Seq<Point>;

/// `ArrayVec::new`: an empty list of points.
#[verifier::external_body]
pub(crate) fn points_new() -> (v: ArrayVec<Point, 4>)
    ensures
        points_of(v) == Seq::<Point>::empty(),
{
    ArrayVec::new()
}

/// `ArrayVec::push`: appends `p`; the source panics when the list is full.
#[verifier::external_body]
pub(crate) fn points_push(v: &mut ArrayVec<Point, 4>, p: Point)
    requires
        points_of(*old(v)).len() < 4,
    ensures
        points_of(*final(v)) == points_of(*old(v)).push(p),
{
    v.push(p)
}

/// `ArrayVec::as_slice`: the points in order.
#[verifier::external_body]
pub(crate) fn points_as_slice(v: &ArrayVec<Point, 4>) -> (s: &[Point])
    ensures
        s@ == points_of(*v),
{
    v.as_slice()
}

/// The body parts held by a list of at most sixteen parts.
pub uninterp spec fn parts_of(v: ArrayVec<Part, 16>) -> Seq<Part>;

/// `ArrayVec::new`: an empty list of body parts.
#[verifier::external_body]
pub(crate) fn parts_new() -> (v: ArrayVec<Part, 16>)
    ensures
        parts_of(v) == Seq::<Part>::empty(),
{
    ArrayVec::new()
}

/// `ArrayVec::push`: appends `p`; the source panics when the list is full.
#[verifier::external_body]
pub(crate) fn parts_push(v: &mut ArrayVec<Part, 16>, p: Part)
    requires
        parts_of(*old(v)).len() < 16,
    ensures
        parts_of(*final(v)) == parts_of(*old(v)).push(p),
{
    v.push(p)
}

/// `ArrayVec::as_slice`: the body parts in order, at most the capacity of
/// sixteen.
#[verifier::external_body]
pub(crate) fn parts_as_slice(v: &ArrayVec<Part, 16>) -> (s: &[Part])
    ensures
        s@ == parts_of(*v),
        s@.len() <= 16,
{
    v.as_slice()
}

} // verus!

//! Fixed-capacity storage addressed by a small integer index.
use core::ops::{Add, Sub};
use vstd::prelude::*;

verus! {

/// A small unsigned integer used to address a container.
pub trait Index: Add + Sub + Default + Copy + Clone + Eq + PartialEq + Ord + PartialOrd {
    /// The value of the index.
    spec fn spec_value(self) -> nat;

    /// Values from this one on cannot be made an index.
    spec fn spec_limit() -> nat;

    /// The index as a `usize`.
    fn as_usize(self) -> (u: usize)
        ensures
            u == self.spec_value(),
    ;

    /// The index of value `s`.
    fn from_usize(s: usize) -> (i: Self)
        requires
            s < Self::spec_limit(),
        ensures
            i.spec_value() == s,
    ;
}

impl Index for u8 {
    open spec fn spec_value(self) -> nat {
        self as nat
    }

    open spec fn spec_limit() -> nat {
        u8::MAX as nat
    }

    #[inline]
    fn as_usize(self) -> (u: usize) {
        self as usize
    }

    #[inline]
    fn from_usize(s: usize) -> (i: u8) {
        s as u8
    }
}

impl Index for u16 {
    open spec fn spec_value(self) -> nat {
        self as nat
    }

    open spec fn spec_limit() -> nat {
        u16::MAX as nat
    }

    #[inline]
    fn as_usize(self) -> (u: usize) {
        self as usize
    }

    #[inline]
    fn from_usize(s: usize) -> (i: u16) {
        s as u16
    }
}

/// Storage of a fixed number of items, addressed by an index type.
pub trait Container: Sized {
    type Item;
    type Index: Index;

    /// The items, in index order.
    spec fn items(&self) -> Seq<Self::Item>;

    /// The number of items held.
    spec fn spec_capacity() -> nat;

    /// The number of items held.
    fn capacity() -> (n: usize)
        ensures
            n == Self::spec_capacity(),
    ;

    /// The item at `index`.
    fn get(&self, index: Self::Index) -> (r: &Self::Item)
        requires
            index.spec_value() < Self::spec_capacity(),
        ensures
            *r == self.items()[index.spec_value() as int],
    ;

    /// The item at `index`, to change in place.
    fn get_mut(&mut self, index: Self::Index) -> (r: &mut Self::Item)
        requires
            index.spec_value() < Self::spec_capacity(),
        ensures
            *r == old(self).items()[index.spec_value() as int],
            final(self).items() == old(self).items().update(index.spec_value() as int, *final(r)),
    ;

    /// Replace the item at `index`.
    fn set(&mut self, index: Self::Index, item: Self::Item)
        requires
            index.spec_value() < Self::spec_capacity(),
        ensures
            final(self).items() == old(self).items().update(index.spec_value() as int, item),
    ;
}

impl<T> Container for [T; 1] {
    type Item = T;
    type Index = u8;

    open spec fn items(&self) -> Seq<T> {
        self@
    }

    open spec fn spec_capacity() -> nat {
        1
    }

    fn capacity() -> (n: usize) {
        1
    }

    fn get(&self, index: u8) -> (r: &T) {
        &self[index.as_usize()]
    }

    fn get_mut(&mut self, index: u8) -> (r: &mut T) {
        &mut self[index.as_usize()]
    }

    fn set(&mut self, index: u8, item: T) {
        vstd::array::ArrayAdditionalExecFns::set(self, index.as_usize(), item);
    }
}

impl<T> Container for [T; 2] {
    type Item = T;
    type Index = u8;

    open spec fn items(&self) -> Seq<T> {
        self@
    }

    open spec fn spec_capacity() -> nat {
        2
    }

    fn capacity() -> (n: usize) {
        2
    }

    fn get(&self, index: u8) -> (r: &T) {
        &self[index.as_usize()]
    }

    fn get_mut(&mut self, index: u8) -> (r: &mut T) {
        &mut self[index.as_usize()]
    }

    fn set(&mut self, index: u8, item: T) {
        vstd::array::ArrayAdditionalExecFns::set(self, index.as_usize(), item);
    }
}

impl<T> Container for [T; 4] {
    type Item = T;
    type Index = u8;

    open spec fn items(&self) -> Seq<T> {
        self@
    }

    open spec fn spec_capacity() -> nat {
        4
    }

    fn capacity() -> (n: usize) {
        4
    }

    fn get(&self, index: u8) -> (r: &T) {
        &self[index.as_usize()]
    }

    fn get_mut(&mut self, index: u8) -> (r: &mut T) {
        &mut self[index.as_usize()]
    }

    fn set(&mut self, index: u8, item: T) {
        vstd::array::ArrayAdditionalExecFns::set(self, index.as_usize(), item);
    }
}

impl<T> Container for [T; 8] {
    type Item = T;
    type Index = u8;

    open spec fn items(&self) -> Seq<T> {
        self@
    }

    open spec fn spec_capacity() -> nat {
        8
    }

    fn capacity() -> (n: usize) {
        8
    }

    fn get(&self, index: u8) -> (r: &T) {
        &self[index.as_usize()]
    }

    fn get_mut(&mut self, index: u8) -> (r: &mut T) {
        &mut self[index.as_usize()]
    }

    fn set(&mut self, index: u8, item: T) {
        vstd::array::ArrayAdditionalExecFns::set(self, index.as_usize(), item);
    }
}

impl<T> Container for [T; 16] {
    type Item = T;
    type Index = u8;

    open spec fn items(&self) -> Seq<T> {
        self@
    }

    open spec fn spec_capacity() -> nat {
        16
    }

    fn capacity() -> (n: usize) {
        16
    }

    fn get(&self, index: u8) -> (r: &T) {
        &self[index.as_usize()]
    }

    fn get_mut(&mut self, index: u8) -> (r: &mut T) {
        &mut self[index.as_usize()]
    }

    fn set(&mut self, index: u8, item: T) {
        vstd::array::ArrayAdditionalExecFns::set(self, index.as_usize(), item);
    }
}

impl<T> Container for [T; 32] {
    type Item = T;
    type Index = u8;

    open spec fn items(&self) -> Seq<T> {
        self@
    }

    open spec fn spec_capacity() -> nat {
        32
    }

    fn capacity() -> (n: usize) {
        32
    }

    fn get(&self, index: u8) -> (r: &T) {
        &self[index.as_usize()]
    }

    fn get_mut(&mut self, index: u8) -> (r: &mut T) {
        &mut self[index.as_usize()]
    }

    fn set(&mut self, index: u8, item: T) {
        vstd::array::ArrayAdditionalExecFns::set(self, index.as_usize(), item);
    }
}

impl<T> Container for [T; 64] {
    type Item = T;
    type Index = u8;

    open spec fn items(&self) -> Seq<T> {
        self@
    }

    open spec fn spec_capacity() -> nat {
        64
    }

    fn capacity() -> (n: usize) {
        64
    }

    fn get(&self, index: u8) -> (r: &T) {
        &self[index.as_usize()]
    }

    fn get_mut(&mut self, index: u8) -> (r: &mut T) {
        &mut self[index.as_usize()]
    }

    fn set(&mut self, index: u8, item: T) {
        vstd::array::ArrayAdditionalExecFns::set(self, index.as_usize(), item);
    }
}

impl<T> Container for [T; 128] {
    type Item = T;
    type Index = u8;

    open spec fn items(&self) -> Seq<T> {
        self@
    }

    open spec fn spec_capacity() -> nat {
        128
    }

    fn capacity() -> (n: usize) {
        128
    }

    fn get(&self, index: u8) -> (r: &T) {
        &self[index.as_usize()]
    }

    fn get_mut(&mut self, index: u8) -> (r: &mut T) {
        &mut self[index.as_usize()]
    }

    fn set(&mut self, index: u8, item: T) {
        vstd::array::ArrayAdditionalExecFns::set(self, index.as_usize(), item);
    }
}

impl<T> Container for [T; 256] {
    type Item = T;
    type Index = u16;

    open spec fn items(&self) -> Seq<T> {
        self@
    }

    open spec fn spec_capacity() -> nat {
        256
    }

    fn capacity() -> (n: usize) {
        256
    }

    fn get(&self, index: u16) -> (r: &T) {
        &self[index.as_usize()]
    }

    fn get_mut(&mut self, index: u16) -> (r: &mut T) {
        &mut self[index.as_usize()]
    }

    fn set(&mut self, index: u16, item: T) {
        vstd::array::ArrayAdditionalExecFns::set(self, index.as_usize(), item);
    }
}

impl<T> Container for [T; 512] {
    type Item = T;
    type Index = u16;

    open spec fn items(&self) -> Seq<T> {
        self@
    }

    open spec fn spec_capacity() -> nat {
        512
    }

    fn capacity() -> (n: usize) {
        512
    }

    fn get(&self, index: u16) -> (r: &T) {
        &self[index.as_usize()]
    }

    fn get_mut(&mut self, index: u16) -> (r: &mut T) {
        &mut self[index.as_usize()]
    }

    fn set(&mut self, index: u16, item: T) {
        vstd::array::ArrayAdditionalExecFns::set(self, index.as_usize(), item);
    }
}

impl<T> Container for [T; 1024] {
    type Item = T;
    type Index = u16;

    open spec fn items(&self) -> Seq<T> {
        self@
    }

    open spec fn spec_capacity() -> nat {
        1024
    }

    fn capacity() -> (n: usize) {
        1024
    }

    fn get(&self, index: u16) -> (r: &T) {
        &self[index.as_usize()]
    }

    fn get_mut(&mut self, index: u16) -> (r: &mut T) {
        &mut self[index.as_usize()]
    }

    fn set(&mut self, index: u16, item: T) {
        vstd::array::ArrayAdditionalExecFns::set(self, index.as_usize(), item);
    }
}

} // verus!

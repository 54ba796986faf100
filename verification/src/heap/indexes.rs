//! The numbers that handles are made of.

use vstd::prelude::*;

verus! {

/// The number in a handle. Handle `n`, from 1 on, names slot `n - 1` of the
/// arena of its kind; 0 names no slot and is kept for handles that were never
/// set.
#[derive(Clone, Copy, Debug, PartialEq, Eq, Structural, PartialOrd, Ord, Hash)]
pub struct BaseIndex {
    pub value: u32,
}

/// The number in a handle of an ordinary object.
pub type ObjectIndex = BaseIndex;

/// The number in a handle of an embedder object.
pub type EmbedderObjectIndex = BaseIndex;

impl BaseIndex {
    /// Whether this is the number that names no slot.
    pub open spec fn is_sentinel(self) -> bool {
        self.value == 0
    }

    /// The slot that the number names; below zero for the sentinel.
    pub open spec fn index(self) -> int {
        self.value - 1
    }

    /// The number that names no slot.
    pub fn sentinel() -> (r: BaseIndex)
        ensures
            r.value == 0,
            r.is_sentinel(),
    {
        BaseIndex { value: 0 }
    }

    /// The number that names slot `index`.
    pub fn from_u32_index(index: u32) -> (r: BaseIndex)
        requires
            index < u32::MAX,
        ensures
            r.index() == index,
            !r.is_sentinel(),
    {
        BaseIndex { value: index + 1 }
    }

    /// The number that names slot `index`.
    pub fn from_index(index: usize) -> (r: BaseIndex)
        requires
            index < u32::MAX,
        ensures
            r.index() == index,
            !r.is_sentinel(),
    {
        BaseIndex { value: (index + 1) as u32 }
    }

    /// The slot that the number names.
    pub fn into_index(self) -> (i: usize)
        requires
            !self.is_sentinel(),
        ensures
            i == self.index(),
    {
        (self.value - 1) as usize
    }

    /// The slot that the number names.
    pub fn into_u32_index(self) -> (i: u32)
        requires
            !self.is_sentinel(),
        ensures
            i == self.index(),
    {
        self.value - 1
    }

    /// The number itself.
    pub fn into_u32(self) -> (v: u32)
        ensures
            v == self.value,
    {
        self.value
    }

    /// Whether this is the number that names no slot.
    pub fn is_unset(self) -> (b: bool)
        ensures
            b == self.is_sentinel(),
    {
        self.value == 0
    }
}

} // verus!

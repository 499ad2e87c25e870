//! Flags that describe a list or a list item.

use vstd::prelude::*;

verus! {

/// The list, or the list item, is ordered.
pub const ORDERED: u32 = 0x1;

/// The list item contains block-level content.
pub const BLOCK: u32 = 0x2;

/// Every bit that a list flag set can hold.
pub const ALL_BITS: u32 = 0x3;

/// Flags that describe a list or list item.
#[derive(Clone, Copy, Debug, PartialEq, Eq, Structural)]
pub struct List {
    pub bits: u32,
}

impl List {
    /// The set with no flag.
    pub fn empty() -> (l: List)
        ensures
            l.bits == 0,
    {
        List { bits: 0 }
    }

    /// The set with the given bits; bits that name no flag are dropped.
    pub fn of(bits: u32) -> (l: List)
        ensures
            l.bits == bits & ALL_BITS,
    {
        List { bits: bits & ALL_BITS }
    }

    /// The raw bits.
    pub fn bits(&self) -> (b: u32)
        ensures
            b == self.bits,
    {
        self.bits
    }

    /// Whether no flag is set.
    pub fn is_empty(&self) -> (r: bool)
        ensures
            r == (self.bits == 0),
    {
        self.bits == 0
    }

    /// Whether the flag with the given bit is set.
    pub open spec fn on(&self, bit: u32) -> bool {
        self.bits & bit != 0
    }

    /// Whether some of the given bits are set.
    pub fn intersects(&self, bits: u32) -> (r: bool)
        ensures
            r == self.on(bits),
    {
        self.bits & bits != 0
    }

    /// Whether all of the given bits are set.
    pub fn contains(&self, bits: u32) -> (r: bool)
        ensures
            r == (self.bits & bits == bits),
    {
        self.bits & bits == bits
    }

    /// Whether the list or item is ordered.
    pub fn is_ordered(&self) -> (r: bool)
        ensures
            r == self.on(ORDERED),
    {
        self.bits & ORDERED != 0
    }

    /// Whether the item holds block-level content.
    pub fn is_block(&self) -> (r: bool)
        ensures
            r == self.on(BLOCK),
    {
        self.bits & BLOCK != 0
    }
}

} // verus!

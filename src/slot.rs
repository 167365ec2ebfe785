//! Entries of the slot directory of a heap page.
use vstd::prelude::*;

verus! {

/// A slot directory entry: where a tuple starts and how long it is.
/// A length of zero marks a deleted tuple (a tombstone).
#[derive(Debug, Clone, Copy, PartialEq, Eq, Structural)]
pub struct Slot {
    pub off: u16,
    pub len: u16,
}

impl Slot {
    pub const SIZE: usize = 4;

    pub fn new(off: u16, len: u16) -> (r: Slot)
        ensures
            r.off == off,
            r.len == len,
    {
        Slot { off, len }
    }

    /// A deleted entry that keeps its offset.
    pub fn tombstone(off: u16) -> (r: Slot)
        ensures
            r.off == off,
            r.len == 0,
    {
        Slot { off, len: 0 }
    }

    pub fn is_tombstone(&self) -> (r: bool)
        ensures
            r == (self.len == 0),
    {
        self.len == 0
    }

    pub fn is_valid(&self) -> (r: bool)
        ensures
            r == (self.len > 0),
    {
        self.len > 0
    }
}

} // verus!

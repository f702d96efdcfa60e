//! Entity identifiers and their allocation.

use vstd::prelude::*;

verus! {

/// Names one entity. An entity is nothing but its identifier: what it is made
/// of lives in the components attached to it.
#[derive(Clone, Copy, PartialEq, Eq, Hash, Debug, Structural)]
pub struct EntityId(pub u64);

impl EntityId {
    /// The identifier with the given number.
    pub fn from_number(number: u64) -> (id: EntityId)
        ensures
            id == EntityId(number),
    {
        EntityId(number)
    }

    /// The number behind the identifier.
    pub fn num(&self) -> (number: u64)
        ensures
            number == self.0,
    {
        self.0
    }
}

/// Hands out entity identifiers in increasing order.
///
/// An allocator starts at `next` and moves on by `stride` with every
/// identifier it gives. Allocators that share a stride and start at different
/// offsets below it never give the same identifier, which lets several of them
/// work side by side.
#[derive(Clone, Copy, Debug)]
pub struct EntityAllocator {
    pub next: u64,
    pub stride: u64,
}

impl EntityAllocator {
    /// Whether the allocator has an identifier to give: it moves on with
    /// every identifier, and has not reached the largest number.
    pub open spec fn open(self) -> bool {
        self.stride > 0 && self.next < u64::MAX
    }

    /// The position after one more allocation: one stride further, or
    /// `u64::MAX` once the identifier space is used up.
    pub open spec fn following(self) -> u64 {
        if self.next + self.stride <= u64::MAX {
            (self.next + self.stride) as u64
        } else {
            u64::MAX
        }
    }

    /// An allocator that gives `first`, `first + stride`, `first + 2 * stride`, ...
    pub fn new(first: u64, stride: u64) -> (allocator: EntityAllocator)
        ensures
            allocator.next == first,
            allocator.stride == stride,
    {
        EntityAllocator { next: first, stride }
    }

    /// An allocator that has no identifier to give.
    pub fn closed() -> (allocator: EntityAllocator)
        ensures
            !allocator.open(),
            allocator == (EntityAllocator { next: 0, stride: 0 }),
    {
        EntityAllocator { next: 0, stride: 0 }
    }

    /// Whether the allocator has an identifier to give.
    pub fn is_open(&self) -> (open: bool)
        ensures
            open == self.open(),
    {
        self.stride > 0 && self.next < u64::MAX
    }

    /// Gives the next identifier and moves on. The position never moves past
    /// `u64::MAX`; identifiers are distinct until it gets there.
    pub fn allocate(&mut self) -> (id: EntityId)
        ensures
            id == EntityId(old(self).next),
            final(self).stride == old(self).stride,
            final(self).next == old(self).following(),
    {
        let id = EntityId(self.next);
        self.next = self.next.saturating_add(self.stride);
        id
    }
}

} // verus!

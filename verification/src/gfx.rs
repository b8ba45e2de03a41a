//! What the renderer needs decided before it talks to the graphics API.

use vstd::prelude::*;

verus! {

/// Hands out texture units: `0`, then `1`, and so on, each at most once.
/// The renderer owns one allocator for its context.
#[derive(Debug)]
pub struct TextureUnitAllocator {
    next: u32,
}

impl View for TextureUnitAllocator {
    type V = nat;

    /// How many units have been handed out, which is also the unit that
    /// comes next.
    closed spec fn view(&self) -> nat {
        self.next as nat
    }
}

impl TextureUnitAllocator {
    /// An allocator that has handed out nothing.
    pub fn new() -> (allocator: TextureUnitAllocator)
        ensures
            allocator@ == 0,
    {
        TextureUnitAllocator { next: 0 }
    }

    /// How many units have been handed out.
    pub fn used(&self) -> (n: u32)
        ensures
            n == self@,
    {
        self.next
    }

    /// Hands out the next unit. Once `u32::MAX` units are out there is no
    /// further one, and the allocator stays as it is.
    pub fn allocate(&mut self) -> (unit: Option<u32>)
        ensures
            old(self)@ < u32::MAX ==> unit == Some(old(self)@ as u32) && final(self)@ == old(
                self,
            )@ + 1,
            old(self)@ >= u32::MAX ==> unit is None && final(self)@ == old(self)@,
    {
        if self.next < u32::MAX {
            let unit = self.next;
            self.next = self.next + 1;
            Some(unit)
        } else {
            None
        }
    }
}

} // verus!

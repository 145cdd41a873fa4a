//! The allocator capability.
//!
//! A buffer does not allocate for itself: it is parameterized by a value
//! implementing [`Alloc`], which accounts for raw byte ranges described by a
//! size and an alignment. Element storage itself is held safely by the
//! buffer, so an implementor of the capability is pure bookkeeping: it
//! decides which requests it grants and may record the calls it has seen.
//! Whether a request would be granted is part of the specification, as the
//! `can_alloc` and `can_grow` predicates; a call whose request the allocator
//! would refuse (an out-of-memory condition) is excluded by `requires`, so
//! a caller must either know its allocator grants the request or test a
//! bookkeeping predicate of the concrete allocator first.

use vstd::prelude::*;

verus! {

/// The allocator capability: acquire, grow, and release raw byte ranges.
pub trait Alloc: Sized {
    /// Whether a fresh block of `size` bytes at alignment `align` would be
    /// granted in the allocator's current state.
    spec fn can_alloc(&self, size: nat, align: nat) -> bool;

    /// Whether growing a block of `old_size` bytes to `new_size` bytes at
    /// alignment `align` would be granted in the allocator's current state.
    spec fn can_grow(&self, old_size: nat, new_size: nat, align: nat) -> bool;

    /// Acquire a block of `size` bytes at alignment `align`.
    fn alloc_block(&mut self, size: usize, align: usize)
        requires
            old(self).can_alloc(size as nat, align as nat),
    ;

    /// Grow a block of `old_size` bytes to `new_size` bytes at alignment
    /// `align`, preserving its contents.
    fn grow_block(&mut self, old_size: usize, new_size: usize, align: usize)
        requires
            old(self).can_grow(old_size as nat, new_size as nat, align as nat),
    ;

    /// Release a block of `size` bytes at alignment `align`. Never fails.
    fn dealloc_block(&mut self, size: usize, align: usize);
}

/// The default capability: stands for the process-wide allocator, grants
/// every request, and keeps no records.
#[derive(Clone, Copy)]
pub struct Global;

impl Alloc for Global {
    open spec fn can_alloc(&self, size: nat, align: nat) -> bool {
        true
    }

    open spec fn can_grow(&self, old_size: nat, new_size: nat, align: nat) -> bool {
        true
    }

    fn alloc_block(&mut self, size: usize, align: usize) {
        // Granted unconditionally; nothing to record.
    }

    fn grow_block(&mut self, old_size: usize, new_size: usize, align: usize) {
        // Granted unconditionally; nothing to record.
    }

    fn dealloc_block(&mut self, size: usize, align: usize) {
        // Nothing to record.
    }
}

/// A bookkeeping allocator: grants every request and counts the calls of
/// each kind, so a test can observe how a buffer used its capability.
pub struct CountingAlloc {
    /// Number of `alloc_block` calls granted so far.
    pub allocs: usize,
    /// Number of `grow_block` calls granted so far.
    pub grows: usize,
    /// Number of `dealloc_block` calls seen so far.
    pub deallocs: usize,
}

impl CountingAlloc {
    /// A fresh recorder with all counts at zero.
    pub fn new() -> (a: Self)
        ensures
            a.allocs == 0,
            a.grows == 0,
            a.deallocs == 0,
    {
        CountingAlloc { allocs: 0, grows: 0, deallocs: 0 }
    }
}

impl Alloc for CountingAlloc {
    /// A request is granted as long as its count can still be recorded.
    open spec fn can_alloc(&self, size: nat, align: nat) -> bool {
        self.allocs < usize::MAX
    }

    open spec fn can_grow(&self, old_size: nat, new_size: nat, align: nat) -> bool {
        self.grows < usize::MAX
    }

    fn alloc_block(&mut self, size: usize, align: usize)
        ensures
            final(self).allocs == old(self).allocs + 1,
            final(self).grows == old(self).grows,
            final(self).deallocs == old(self).deallocs,
    {
        self.allocs = self.allocs + 1;
    }

    fn grow_block(&mut self, old_size: usize, new_size: usize, align: usize)
        ensures
            final(self).grows == old(self).grows + 1,
            final(self).allocs == old(self).allocs,
            final(self).deallocs == old(self).deallocs,
    {
        self.grows = self.grows + 1;
    }

    fn dealloc_block(&mut self, size: usize, align: usize)
        ensures
            final(self).deallocs == if old(self).deallocs < usize::MAX {
                old(self).deallocs + 1
            } else {
                old(self).deallocs as int
            },
            final(self).allocs == old(self).allocs,
            final(self).grows == old(self).grows,
    {
        if self.deallocs < usize::MAX {
            self.deallocs = self.deallocs + 1;
        }
    }
}

} // verus!

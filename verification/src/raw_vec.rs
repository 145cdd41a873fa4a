//! The growable buffer under the heap.
//!
//! A [`RawVec`] owns the constructed element slots, tracks how many slots
//! its current block can hold (`capacity`, counted in elements), and holds
//! the allocator capability it accounts its block with. Growth is by
//! doubling only, with a small bootstrap capacity when none was ever
//! allocated. Every allocator call is accounted in bytes,
//! `capacity * size_of::<T>()`, at the element type's alignment; a request
//! whose byte size would overflow `usize` (a capacity-overflow condition),
//! or that the allocator would not grant (an out-of-memory condition), is
//! excluded by `requires`.

use crate::alloc_api::Alloc;
use vstd::layout::{align_of, size_of};
use vstd::prelude::*;

verus! {

/// Capacity a buffer bootstraps to when it doubles from capacity zero.
pub const DEFAULT_CAPACITY: usize = 4;

/// A growable buffer: constructed slots, a slot capacity, and the
/// allocator capability the block is accounted with.
pub struct RawVec<T: Ord, A: Alloc> {
    buf: Vec<T>,
    cap: usize,
    a: A,
}

impl<T: Ord, A: Alloc> RawVec<T, A> {
    /// The constructed element slots, in slot order.
    pub closed spec fn slots(&self) -> Seq<T> {
        self.buf@
    }

    /// The number of element slots the current block can hold.
    pub closed spec fn capacity(&self) -> nat {
        self.cap as nat
    }

    /// The allocator capability this buffer accounts with.
    pub closed spec fn allocator(&self) -> A {
        self.a
    }

    /// Well-formed: no more constructed slots than capacity, and the byte
    /// size of the block stays representable.
    pub open spec fn wf(&self) -> bool {
        &&& self.slots().len() <= self.capacity()
        &&& self.capacity() * size_of::<T>() <= usize::MAX
    }

    /// Whether a `double` call is admissible now: the doubled (or
    /// bootstrap) byte size is representable and the allocator grants it.
    pub open spec fn growth_ok(&self) -> bool {
        if self.capacity() == 0 {
            &&& DEFAULT_CAPACITY * size_of::<T>() <= usize::MAX
            &&& self.allocator().can_alloc(DEFAULT_CAPACITY as nat * size_of::<T>(), align_of::<T>())
        } else {
            &&& 2 * self.capacity() <= usize::MAX
            &&& 2 * self.capacity() * size_of::<T>() <= usize::MAX
            &&& self.allocator().can_grow(
                self.capacity() * size_of::<T>(),
                2 * self.capacity() * size_of::<T>(),
                align_of::<T>(),
            )
        }
    }

    /// Current slot capacity.
    pub fn cap(&self) -> (c: usize)
        ensures
            c == self.capacity(),
    {
        self.cap
    }

    /// An empty buffer with capacity zero: no allocation is performed.
    pub fn new_in(a: A) -> (r: Self)
        ensures
            r.wf(),
            r.slots() == Seq::<T>::empty(),
            r.capacity() == 0,
            r.allocator() == a,
    {
        RawVec { buf: Vec::new(), cap: 0, a }
    }

    /// A buffer with room for exactly `cap` elements, allocated eagerly.
    pub fn with_capacity_in(cap: usize, a: A) -> (r: Self)
        requires
            cap * size_of::<T>() <= usize::MAX,
            cap * size_of::<T>() > 0 ==> a.can_alloc(cap as nat * size_of::<T>(), align_of::<T>()),
        ensures
            r.wf(),
            r.slots() == Seq::<T>::empty(),
            r.capacity() == cap,
    {
        Self::allocate_in(cap, a)
    }

    fn allocate_in(cap: usize, a: A) -> (r: Self)
        requires
            cap * size_of::<T>() <= usize::MAX,
            cap * size_of::<T>() > 0 ==> a.can_alloc(cap as nat * size_of::<T>(), align_of::<T>()),
        ensures
            r.wf(),
            r.slots() == Seq::<T>::empty(),
            r.capacity() == cap,
    {
        let mut a = a;
        let elem_size: usize = core::mem::size_of::<T>();
        let alloc_size: usize = cap * elem_size;
        if alloc_size > 0 {
            let align: usize = core::mem::align_of::<T>();
            a.alloc_block(alloc_size, align);
        }
        RawVec { buf: Vec::new(), cap, a }
    }

    /// Double the capacity: bootstrap to [`DEFAULT_CAPACITY`] when no block
    /// was ever allocated, otherwise grow the block to twice its size. The
    /// constructed slots are preserved.
    pub fn double(&mut self)
        requires
            old(self).wf(),
            old(self).growth_ok(),
        ensures
            final(self).wf(),
            final(self).slots() == old(self).slots(),
            final(self).capacity() == if old(self).capacity() == 0 {
                DEFAULT_CAPACITY as nat
            } else {
                2 * old(self).capacity()
            },
    {
        let elem_size: usize = core::mem::size_of::<T>();
        let align: usize = core::mem::align_of::<T>();
        if self.cap == 0 {
            let new_cap: usize = DEFAULT_CAPACITY;
            let alloc_size: usize = new_cap * elem_size;
            if alloc_size > 0 {
                self.a.alloc_block(alloc_size, align);
            }
            self.cap = new_cap;
        } else {
            let new_cap: usize = 2 * self.cap;
            let old_size: usize = self.cap * elem_size;
            let new_size: usize = new_cap * elem_size;
            self.a.grow_block(old_size, new_size, align);
            self.cap = new_cap;
        }
    }

    /// Release the block and return to the empty, capacity-zero state,
    /// dropping every constructed slot.
    pub fn reset(&mut self)
        requires
            old(self).wf(),
        ensures
            final(self).wf(),
            final(self).slots() == Seq::<T>::empty(),
            final(self).capacity() == 0,
    {
        let elem_size: usize = core::mem::size_of::<T>();
        let block_size: usize = self.cap * elem_size;
        if block_size > 0 {
            let align: usize = core::mem::align_of::<T>();
            self.a.dealloc_block(block_size, align);
        }
        self.buf.clear();
        self.cap = 0;
    }

    /// Read-only access to the allocator capability.
    pub fn allocator_ref(&self) -> (r: &A)
        ensures
            *r == self.allocator(),
    {
        &self.a
    }

    /// Mutable access to the allocator capability; the slots and the
    /// capacity are untouched.
    pub fn alloc_mut(&mut self) -> (r: &mut A)
        ensures
            *r == old(self).allocator(),
            final(self).allocator() == *final(r),
            final(self).slots() == old(self).slots(),
            final(self).capacity() == old(self).capacity(),
    {
        &mut self.a
    }

    /// Read-only access to slot `index`.
    pub fn slot(&self, index: usize) -> (r: &T)
        requires
            index < self.slots().len(),
        ensures
            *r == self.slots()[index as int],
    {
        &self.buf[index]
    }

    /// The constructed slots as a slice, in slot order.
    pub fn as_slice(&self) -> (s: &[T])
        ensures
            s@ == self.slots(),
    {
        self.buf.as_slice()
    }

    /// Construct `value` in the first free slot.
    pub fn append_slot(&mut self, value: T)
        requires
            old(self).wf(),
            old(self).slots().len() < old(self).capacity(),
        ensures
            final(self).wf(),
            final(self).slots() == old(self).slots().push(value),
            final(self).capacity() == old(self).capacity(),
            final(self).allocator() == old(self).allocator(),
    {
        self.buf.push(value);
    }

    /// Move the last constructed slot's value out, leaving the slot free.
    pub fn take_last_slot(&mut self) -> (r: T)
        requires
            old(self).wf(),
            old(self).slots().len() > 0,
        ensures
            final(self).wf(),
            r == old(self).slots().last(),
            final(self).slots() == old(self).slots().drop_last(),
            final(self).capacity() == old(self).capacity(),
            final(self).allocator() == old(self).allocator(),
    {
        self.buf.pop().unwrap()
    }

    /// Exchange the values of slots `i` and `j`.
    pub fn swap_slots(&mut self, i: usize, j: usize)
        requires
            old(self).wf(),
            i < old(self).slots().len(),
            j < old(self).slots().len(),
        ensures
            final(self).wf(),
            final(self).slots() == old(self).slots().update(i as int, old(self).slots()[j as int])
                .update(j as int, old(self).slots()[i as int]),
            final(self).capacity() == old(self).capacity(),
            final(self).allocator() == old(self).allocator(),
    {
        let ghost s0 = self.buf@;
        if i != j {
            let lo: usize = if i < j {
                i
            } else {
                j
            };
            let hi: usize = if i < j {
                j
            } else {
                i
            };
            let s = self.buf.as_mut_slice();
            let (left, right) = s.split_at_mut(hi);
            let (_, mid) = left.split_at_mut(lo);
            let x = mid.first_mut().unwrap();
            let y = right.first_mut().unwrap();
            core::mem::swap(x, y);
            proof {
                assert(self.buf@ =~= s0.update(lo as int, s0[hi as int]).update(
                    hi as int,
                    s0[lo as int],
                ));
                assert(s0.update(lo as int, s0[hi as int]).update(hi as int, s0[lo as int]) =~= s0
                    .update(i as int, s0[j as int]).update(j as int, s0[i as int]));
            }
        } else {
            proof {
                assert(s0.update(i as int, s0[j as int]).update(j as int, s0[i as int]) =~= s0);
            }
        }
    }
}

impl<T: Ord> RawVec<T, crate::alloc_api::Global> {
    /// An empty buffer over the default capability.
    pub fn new() -> (r: Self)
        ensures
            r.wf(),
            r.slots() == Seq::<T>::empty(),
            r.capacity() == 0,
    {
        Self::new_in(crate::alloc_api::Global)
    }

    /// A buffer with room for exactly `cap` elements over the default
    /// capability.
    pub fn with_capacity(cap: usize) -> (r: Self)
        requires
            cap * size_of::<T>() <= usize::MAX,
        ensures
            r.wf(),
            r.slots() == Seq::<T>::empty(),
            r.capacity() == cap,
    {
        Self::with_capacity_in(cap, crate::alloc_api::Global)
    }
}

} // verus!

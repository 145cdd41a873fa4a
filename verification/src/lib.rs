//! A growable binary min-heap built over a capability-based allocator model.
//!
//! The crate has three layers. The allocator capability ([`Alloc`], with
//! [`Global`] and [`CountingAlloc`] implementing it) decides, as
//! bookkeeping over byte ranges, which allocation and growth requests it
//! grants. The growable buffer ([`RawVec`]) sits on top of such a
//! capability: it tracks a slot capacity, doubles itself on demand, and
//! owns the constructed element slots. The heap ([`BinaryHeap`])
//! implements push with sift-up, pop with sift-down, peek, clear, and a
//! consuming iterator, all maintaining the heap-order invariant between
//! public calls.
//!
//! Element types supply the order through `Ord`; the proofs assume the
//! order is lawful via `vstd::laws_cmp::obeys_cmp`.

mod alloc_api;
mod heap;
mod laws;
mod order;
mod raw_vec;

pub use alloc_api::{Alloc, CountingAlloc, Global};
pub use heap::{
    lemma_into_iter_sorted, lemma_len_le_cap, lemma_wf_heap_ordered, BinaryHeap, IntoIter,
};
pub use laws::{drains, lemma_drain_sorted};
pub use order::{
    heap_le_ok, heap_ordered, le, lemma_cmp_le, lemma_heap_parent_child, lemma_le_refl,
    lemma_le_total, lemma_le_trans, lemma_root_le_all, lemma_swap_multiset, parent, sorted_by_le,
};
pub use raw_vec::{RawVec, DEFAULT_CAPACITY};

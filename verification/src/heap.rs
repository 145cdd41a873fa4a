//! The binary min-heap.
//!
//! A [`BinaryHeap`] wraps a [`RawVec`] and a running length. Slots
//! `[0, len)` hold the live elements in the implicit-binary-tree layout:
//! the children of slot `i` sit at `2*i + 1` and `2*i + 2`. Between public
//! calls every parent sorts no later than its children, so the root is a
//! minimum. `push` appends and sifts the new element up; `pop` moves the
//! last element to the root and sifts it down, returning the old root.
//!
//! The view of a heap is the sequence of its live slots in slot order.

use crate::alloc_api::{Alloc, Global};
use crate::order::{
    heap_le_ok, heap_ordered, le, lemma_cmp_le, lemma_le_trans, lemma_root_le_all,
    lemma_swap_multiset, parent, sorted_by_le,
};
use crate::raw_vec::{RawVec, DEFAULT_CAPACITY};
use vstd::laws_cmp::obeys_cmp;
use vstd::laws_cmp::obeys_cmp_ord;
use vstd::layout::{align_of, size_of};
use vstd::prelude::*;
use vstd::std_specs::cmp::OrdSpec;
use core::cmp::Ordering;

verus! {

/// A growable binary min-heap over elements of `T`, accounted with the
/// allocator capability `A`.
pub struct BinaryHeap<T: Ord, A: Alloc = Global> {
    vec: RawVec<T, A>,
    len: usize,
}

impl<T: Ord, A: Alloc> View for BinaryHeap<T, A> {
    type V = Seq<T>;

    /// The live elements, in slot order.
    closed spec fn view(&self) -> Seq<T> {
        self.vec.slots()
    }
}

/// The sift-up picture: every parent-child edge holds except the one into
/// `cur`, and, when `cur` has a parent, that parent already sorts no later
/// than `cur`'s children.
spec fn sift_up_inv<T: Ord>(s: Seq<T>, cur: int) -> bool {
    &&& (forall|c: int| 1 <= c < s.len() && c != cur ==> #[trigger] heap_le_ok(s, c))
    &&& (cur > 0 ==> (forall|c: int|
        1 <= c < s.len() && c != cur && parent(c) == cur ==> #[trigger] le(s[parent(cur)], s[c])))
}

/// The sift-down picture: every parent-child edge holds except those out
/// of `cur`, and, when `cur` has a parent, that parent already sorts no
/// later than `cur`'s children.
spec fn sift_down_inv<T: Ord>(s: Seq<T>, cur: int) -> bool {
    &&& (forall|c: int| 1 <= c < s.len() && parent(c) != cur ==> #[trigger] heap_le_ok(s, c))
    &&& (cur > 0 ==> (forall|c: int|
        1 <= c < s.len() && parent(c) == cur ==> #[trigger] le(s[parent(cur)], s[c])))
}

/// Exchanging a node that sorts strictly before its parent moves the
/// sift-up picture one level toward the root.
proof fn lemma_sift_up_step<T: Ord>(s: Seq<T>, cur: int, fa: int)
    requires
        obeys_cmp::<T>(),
        1 <= cur < s.len(),
        fa == parent(cur),
        sift_up_inv(s, cur),
        s[cur].cmp_spec(&s[fa]) == Ordering::Less,
    ensures
        sift_up_inv(s.update(cur, s[fa]).update(fa, s[cur]), fa),
{
    let s2 = s.update(cur, s[fa]).update(fa, s[cur]);
    assert(0 <= fa < cur);
    lemma_cmp_le(s[cur], s[fa]);
    assert(le(s[cur], s[fa]));
    assert forall|c: int| 1 <= c < s2.len() && c != fa implies #[trigger] heap_le_ok(s2, c) by {
        if c == cur {
            assert(s2[parent(c)] == s[cur] && s2[c] == s[fa]);
        } else if parent(c) == cur {
            assert(le(s[parent(cur)], s[c]));
            assert(s2[parent(c)] == s[fa] && s2[c] == s[c]);
        } else if parent(c) == fa {
            assert(heap_le_ok(s, c));
            lemma_le_trans(s[cur], s[fa], s[c]);
            assert(s2[parent(c)] == s[cur] && s2[c] == s[c]);
        } else {
            assert(heap_le_ok(s, c));
            assert(s2[parent(c)] == s[parent(c)] && s2[c] == s[c]);
        }
    }
    if fa > 0 {
        assert forall|c: int|
            1 <= c < s2.len() && c != fa && parent(c) == fa implies #[trigger] le(
            s2[parent(fa)],
            s2[c],
        ) by {
            assert(0 <= parent(fa) < fa);
            assert(s2[parent(fa)] == s[parent(fa)]);
            if c == cur {
                assert(heap_le_ok(s, fa));
                assert(s2[c] == s[fa]);
            } else {
                assert(heap_le_ok(s, fa));
                assert(heap_le_ok(s, c));
                lemma_le_trans(s[parent(fa)], s[fa], s[c]);
                assert(s2[c] == s[c]);
            }
        }
    }
}

/// When the sifted node no longer sorts strictly before its parent (or has
/// reached the root), the whole sequence is heap-ordered.
proof fn lemma_sift_up_done<T: Ord>(s: Seq<T>, cur: int)
    requires
        obeys_cmp::<T>(),
        0 <= cur < s.len(),
        sift_up_inv(s, cur),
        cur > 0 ==> s[cur].cmp_spec(&s[parent(cur)]) != Ordering::Less,
    ensures
        heap_ordered(s),
{
    if cur > 0 {
        lemma_cmp_le(s[cur], s[parent(cur)]);
        assert(le(s[parent(cur)], s[cur]));
        assert(heap_le_ok(s, cur));
    }
    assert forall|c: int| 1 <= c < s.len() implies #[trigger] heap_le_ok(s, c) by {
        if c != cur {
            assert(heap_le_ok(s, c));
        }
    }
}

/// Exchanging a node with its strictly smaller least child moves the
/// sift-down picture one level toward the leaves.
proof fn lemma_sift_down_step<T: Ord>(s: Seq<T>, cur: int, nxt: int)
    requires
        obeys_cmp::<T>(),
        0 <= cur < s.len(),
        nxt == 2 * cur + 1 || nxt == 2 * cur + 2,
        nxt < s.len(),
        sift_down_inv(s, cur),
        s[nxt].cmp_spec(&s[cur]) == Ordering::Less,
        // `nxt` is the least child: it sorts no later than its sibling.
        forall|c: int| 1 <= c < s.len() && parent(c) == cur ==> #[trigger] le(s[nxt], s[c]),
    ensures
        sift_down_inv(s.update(cur, s[nxt]).update(nxt, s[cur]), nxt),
{
    let s2 = s.update(cur, s[nxt]).update(nxt, s[cur]);
    assert(parent(nxt) == cur);
    lemma_cmp_le(s[nxt], s[cur]);
    assert(le(s[nxt], s[cur]));
    assert forall|c: int| 1 <= c < s2.len() && parent(c) != nxt implies #[trigger] heap_le_ok(
        s2,
        c,
    ) by {
        if c == nxt {
            assert(le(s[nxt], s[cur]));
            assert(s2[parent(c)] == s[nxt] && s2[c] == s[cur]);
        } else if parent(c) == cur {
            assert(le(s[nxt], s[c]));
            assert(s2[parent(c)] == s[nxt] && s2[c] == s[c]);
        } else if c == cur {
            assert(le(s[parent(cur)], s[nxt]));
            assert(s2[parent(c)] == s[parent(c)] && s2[c] == s[nxt]);
        } else {
            assert(heap_le_ok(s, c));
            assert(s2[parent(c)] == s[parent(c)] && s2[c] == s[c]);
        }
    }
    assert forall|c: int| 1 <= c < s2.len() && parent(c) == nxt implies #[trigger] le(
        s2[parent(nxt)],
        s2[c],
    ) by {
        assert(c > nxt && c != cur);
        assert(heap_le_ok(s, c));
        assert(s2[parent(nxt)] == s[nxt] && s2[c] == s[c]);
    }
}

/// When the sifted node has no child that sorts strictly before it, the
/// whole sequence is heap-ordered.
proof fn lemma_sift_down_done<T: Ord>(s: Seq<T>, cur: int)
    requires
        obeys_cmp::<T>(),
        0 <= cur,
        sift_down_inv(s, cur),
        forall|c: int| 1 <= c < s.len() && parent(c) == cur ==> #[trigger] le(s[cur], s[c]),
    ensures
        heap_ordered(s),
{
    assert forall|c: int| 1 <= c < s.len() implies #[trigger] heap_le_ok(s, c) by {
        if parent(c) == cur {
            assert(le(s[cur], s[c]));
        } else {
            assert(heap_le_ok(s, c));
        }
    }
}

impl<T: Ord> BinaryHeap<T, Global> {
    /// An empty heap over the default capability; no allocation happens.
    pub fn new() -> (h: Self)
        ensures
            h.wf(),
            h@ == Seq::<T>::empty(),
            h.spec_cap() == 0,
    {
        Self::new_in(Global)
    }

    /// A heap with room for exactly `cap` elements over the default
    /// capability.
    pub fn with_capacity(cap: usize) -> (h: Self)
        requires
            cap * size_of::<T>() <= usize::MAX,
        ensures
            h.wf(),
            h@ == Seq::<T>::empty(),
            h.spec_cap() == cap,
    {
        Self::with_capacity_in(cap, Global)
    }
}

impl<T: Ord, A: Alloc> BinaryHeap<T, A> {
    /// The heap's slot capacity.
    pub closed spec fn spec_cap(&self) -> nat {
        self.vec.capacity()
    }

    /// The allocator capability the heap's buffer accounts with.
    pub closed spec fn spec_alloc(&self) -> A {
        self.vec.allocator()
    }

    /// Well-formed: the buffer is, the running length counts exactly the
    /// live slots, and the live slots are heap-ordered.
    pub closed spec fn wf(&self) -> bool {
        &&& self.vec.wf()
        &&& self.len == self.vec.slots().len()
        &&& heap_ordered(self.vec.slots())
    }

    /// Whether a full heap could grow right now: the doubled (or
    /// bootstrap) byte size is representable and the allocator grants it.
    pub open spec fn growth_ok(&self) -> bool {
        if self.spec_cap() == 0 {
            &&& DEFAULT_CAPACITY * size_of::<T>() <= usize::MAX
            &&& self.spec_alloc().can_alloc(
                DEFAULT_CAPACITY as nat * size_of::<T>(),
                align_of::<T>(),
            )
        } else {
            &&& 2 * self.spec_cap() <= usize::MAX
            &&& 2 * self.spec_cap() * size_of::<T>() <= usize::MAX
            &&& self.spec_alloc().can_grow(
                self.spec_cap() * size_of::<T>(),
                2 * self.spec_cap() * size_of::<T>(),
                align_of::<T>(),
            )
        }
    }

    /// An empty heap accounted with `a`; no allocation happens.
    pub fn new_in(a: A) -> (h: Self)
        ensures
            h.wf(),
            h@ == Seq::<T>::empty(),
            h.spec_cap() == 0,
            h.spec_alloc() == a,
    {
        BinaryHeap { vec: RawVec::new_in(a), len: 0 }
    }

    /// A heap with room for exactly `cap` elements, allocated from `a`
    /// eagerly.
    pub fn with_capacity_in(cap: usize, a: A) -> (h: Self)
        requires
            cap * size_of::<T>() <= usize::MAX,
            cap * size_of::<T>() > 0 ==> a.can_alloc(cap as nat * size_of::<T>(), align_of::<T>()),
        ensures
            h.wf(),
            h@ == Seq::<T>::empty(),
            h.spec_cap() == cap,
    {
        BinaryHeap { vec: RawVec::with_capacity_in(cap, a), len: 0 }
    }

    /// The heap's slot capacity.
    pub fn cap(&self) -> (c: usize)
        ensures
            c == self.spec_cap(),
    {
        self.vec.cap()
    }

    /// Read-only access to the allocator capability.
    pub fn allocator_ref(&self) -> (r: &A)
        ensures
            *r == self.spec_alloc(),
    {
        self.vec.allocator_ref()
    }

    /// Mutable access to the allocator capability; the elements, length
    /// and capacity are untouched.
    pub fn alloc_mut(&mut self) -> (r: &mut A)
        ensures
            *r == old(self).spec_alloc(),
            final(self).spec_alloc() == *final(r),
            final(self)@ == old(self)@,
            final(self).spec_cap() == old(self).spec_cap(),
            final(self).wf() == old(self).wf(),
    {
        self.vec.alloc_mut()
    }

    /// Number of live elements.
    pub fn len(&self) -> (l: usize)
        requires
            self.wf(),
        ensures
            l == self@.len(),
    {
        self.len
    }

    /// Whether the heap holds no element.
    pub fn is_empty(&self) -> (b: bool)
        requires
            self.wf(),
        ensures
            b == (self@.len() == 0),
    {
        self.len == 0
    }

    /// The live elements as a slice, in slot order.
    pub fn as_slice(&self) -> (s: &[T])
        ensures
            s@ == self@,
    {
        self.vec.as_slice()
    }

    /// Three-way comparison of the elements in slots `a` and `b`.
    fn cmp_at(&self, a: usize, b: usize) -> (r: Ordering)
        requires
            a < self.vec.slots().len(),
            b < self.vec.slots().len(),
        ensures
            obeys_cmp::<T>() ==> r == self.vec.slots()[a as int].cmp_spec(
                &self.vec.slots()[b as int],
            ),
    {
        proof {
            reveal(obeys_cmp_ord);
        }
        let x = self.vec.slot(a);
        let y = self.vec.slot(b);
        x.cmp(y)
    }

    /// Exchange the elements in slots `a` and `b`.
    fn swap(&mut self, a: usize, b: usize)
        requires
            old(self).vec.wf(),
            a < old(self).vec.slots().len(),
            b < old(self).vec.slots().len(),
        ensures
            final(self).vec.wf(),
            final(self).vec.slots() == old(self).vec.slots().update(
                a as int,
                old(self).vec.slots()[b as int],
            ).update(b as int, old(self).vec.slots()[a as int]),
            final(self).vec.capacity() == old(self).vec.capacity(),
            final(self).vec.allocator() == old(self).vec.allocator(),
            final(self).len == old(self).len,
    {
        self.vec.swap_slots(a, b);
    }

    /// A reference to the minimum element, or `None` exactly when the heap
    /// is empty.
    pub fn peek(&self) -> (r: Option<&T>)
        requires
            self.wf(),
        ensures
            match r {
                None => self@.len() == 0,
                Some(x) => {
                    &&& self@.len() > 0
                    &&& *x == self@[0]
                    &&& obeys_cmp::<T>() ==> (forall|i: int|
                        0 <= i < self@.len() ==> le(self@[0], #[trigger] self@[i]))
                },
            },
    {
        if self.is_empty() {
            None
        } else {
            proof {
                if obeys_cmp::<T>() {
                    assert forall|i: int| 0 <= i < self@.len() implies le(
                        self@[0],
                        #[trigger] self@[i],
                    ) by {
                        lemma_root_le_all(self.vec.slots(), i);
                    }
                }
            }
            Some(self.vec.slot(0))
        }
    }

    /// Insert `value`, growing the buffer by one doubling when the heap is
    /// full, and restore heap order by sifting the new element up.
    pub fn push(&mut self, value: T)
        requires
            old(self).wf(),
            obeys_cmp::<T>(),
            old(self)@.len() == old(self).spec_cap() ==> old(self).growth_ok(),
        ensures
            final(self).wf(),
            final(self)@.len() == old(self)@.len() + 1,
            final(self)@.to_multiset() == old(self)@.to_multiset().insert(value),
            final(self).spec_cap() == if old(self)@.len() < old(self).spec_cap() {
                old(self).spec_cap()
            } else if old(self).spec_cap() == 0 {
                DEFAULT_CAPACITY as nat
            } else {
                2 * old(self).spec_cap()
            },
            old(self)@.len() < old(self).spec_cap() ==> final(self).spec_alloc() == old(
                self,
            ).spec_alloc(),
    {
        if self.len == self.vec.cap() {
            self.vec.double();
        }
        let ghost s0 = self.vec.slots();
        let ghost cap1 = self.vec.capacity();
        let ghost a1 = self.vec.allocator();
        self.vec.append_slot(value);
        proof {
            broadcast use vstd::seq_lib::group_to_multiset_ensures;

            assert(self.vec.slots() == s0.push(value));
            assert(self.vec.slots().to_multiset() =~= s0.to_multiset().insert(value));
            assert forall|c: int|
                1 <= c < self.vec.slots().len() && c != s0.len() as int implies #[trigger] heap_le_ok(
                self.vec.slots(),
                c,
            ) by {
                assert(0 <= parent(c) < c);
                assert(heap_le_ok(s0, c));
                assert(self.vec.slots()[parent(c)] == s0[parent(c)]);
                assert(self.vec.slots()[c] == s0[c]);
            }
        }
        let mut cur: usize = self.len;
        loop
            invariant
                obeys_cmp::<T>(),
                self.vec.wf(),
                self.vec.slots().len() == s0.len() + 1,
                cur < self.vec.slots().len(),
                self.len == s0.len(),
                self.vec.capacity() == cap1,
                self.vec.allocator() == a1,
                self.vec.slots().to_multiset() == s0.to_multiset().insert(value),
                sift_up_inv(self.vec.slots(), cur as int),
            ensures
                self.vec.wf(),
                self.vec.slots().len() == s0.len() + 1,
                self.len == s0.len(),
                self.vec.capacity() == cap1,
                self.vec.allocator() == a1,
                self.vec.slots().to_multiset() == s0.to_multiset().insert(value),
                heap_ordered(self.vec.slots()),
            decreases cur,
        {
            if cur == 0 {
                proof {
                    lemma_sift_up_done(self.vec.slots(), cur as int);
                }
                break ;
            }
            let fa: usize = (cur - 1) / 2;
            proof {
                assert(fa as int == parent(cur as int));
                assert(0 <= fa < cur);
            }
            let ord = self.cmp_at(cur, fa);
            match ord {
                Ordering::Less => {
                    let ghost s_pre = self.vec.slots();
                    self.swap(cur, fa);
                    proof {
                        lemma_sift_up_step(s_pre, cur as int, fa as int);
                        lemma_swap_multiset(s_pre, cur as int, fa as int);
                    }
                    cur = fa;
                },
                _ => {
                    proof {
                        lemma_sift_up_done(self.vec.slots(), cur as int);
                    }
                    break ;
                },
            }
        }
        self.len = self.len + 1;
        proof {
            broadcast use vstd::seq_lib::group_to_multiset_ensures;

            assert(final(self)@.len() == self.vec.slots().to_multiset().len());
            assert(old(self)@.to_multiset().insert(value).len() == old(self)@.to_multiset().len()
                + 1);
        }
    }

    /// Remove and return the minimum element, or `None` exactly when the
    /// heap is empty. The last live element moves to the root and is
    /// sifted down toward its smaller children.
    pub fn pop(&mut self) -> (r: Option<T>)
        requires
            old(self).wf(),
            obeys_cmp::<T>(),
        ensures
            final(self).wf(),
            final(self).spec_cap() == old(self).spec_cap(),
            final(self).spec_alloc() == old(self).spec_alloc(),
            match r {
                None => old(self)@.len() == 0 && final(self)@ == old(self)@,
                Some(x) => {
                    &&& old(self)@.len() > 0
                    &&& x == old(self)@[0]
                    &&& final(self)@.len() == old(self)@.len() - 1
                    &&& final(self)@.to_multiset() == old(self)@.to_multiset().remove(x)
                    &&& forall|i: int| 0 <= i < old(self)@.len() ==> le(x, #[trigger] old(self)@[i])
                    &&& forall|y: T| old(self)@.to_multiset().count(y) > 0 ==> le(x, y)
                },
            },
    {
        if self.len == 0 {
            return None;
        }
        let ghost s_old = self.vec.slots();
        proof {
            broadcast use vstd::seq_lib::group_to_multiset_ensures;

            assert forall|i: int| 0 <= i < s_old.len() implies le(s_old[0], #[trigger] s_old[i]) by {
                lemma_root_le_all(s_old, i);
            }
            assert forall|y: T| s_old.to_multiset().count(y) > 0 implies le(s_old[0], y) by {
                assert(s_old.contains(y));
                let i = choose|i: int| 0 <= i < s_old.len() && s_old[i] == y;
                assert(le(s_old[0], s_old[i]));
            }
        }
        self.len = self.len - 1;
        self.swap(0, self.len);
        let ans = self.vec.take_last_slot();
        proof {
            broadcast use vstd::seq_lib::group_to_multiset_ensures;

            let s_sw = s_old.update(0, s_old[s_old.len() - 1]).update(
                s_old.len() - 1,
                s_old[0],
            );
            lemma_swap_multiset(s_old, 0, s_old.len() - 1);
            assert(ans == s_old[0]);
            assert(self.vec.slots() == s_sw.drop_last());
            assert(s_sw.drop_last() =~= s_sw.remove(s_sw.len() - 1));
            assert(s_sw.remove(s_sw.len() - 1).to_multiset() =~= s_sw.to_multiset().remove(
                s_sw[s_sw.len() - 1],
            ));
            assert(self.vec.slots().to_multiset() == s_old.to_multiset().remove(s_old[0]));
            assert forall|c: int|
                1 <= c < self.vec.slots().len() && parent(c) != 0 implies #[trigger] heap_le_ok(
                self.vec.slots(),
                c,
            ) by {
                assert(1 <= parent(c) < c);
                assert(heap_le_ok(s_old, c));
                assert(self.vec.slots()[parent(c)] == s_old[parent(c)]);
                assert(self.vec.slots()[c] == s_old[c]);
            }
        }
        let ghost n = self.vec.slots().len();
        let ghost cap1 = self.vec.capacity();
        let ghost a1 = self.vec.allocator();
        let mut cur: usize = 0;
        loop
            invariant
                obeys_cmp::<T>(),
                self.vec.wf(),
                self.vec.slots().len() == n,
                self.len == n,
                cur <= n,
                self.vec.capacity() == cap1,
                self.vec.allocator() == a1,
                self.vec.slots().to_multiset() == s_old.to_multiset().remove(s_old[0]),
                sift_down_inv(self.vec.slots(), cur as int),
            ensures
                self.vec.wf(),
                self.vec.slots().len() == n,
                self.len == n,
                self.vec.capacity() == cap1,
                self.vec.allocator() == a1,
                self.vec.slots().to_multiset() == s_old.to_multiset().remove(s_old[0]),
                heap_ordered(self.vec.slots()),
            decreases n - cur,
        {
            if cur >= self.len / 2 {
                proof {
                    assert forall|c: int|
                        1 <= c < self.vec.slots().len() && parent(c) == cur as int implies
                    #[trigger] le(self.vec.slots()[cur as int], self.vec.slots()[c]) by {
                        assert(c >= 2 * cur + 1);
                        assert(false);
                    }
                    lemma_sift_down_done(self.vec.slots(), cur as int);
                }
                break ;
            }
            let mut nxt: usize = 2 * cur + 1;
            proof {
                assert(2 * (cur as int) + 1 < n);
            }
            if nxt + 1 < self.len {
                let ord_rl = self.cmp_at(nxt + 1, nxt);
                match ord_rl {
                    Ordering::Less => {
                        nxt = nxt + 1;
                    },
                    _ => {},
                }
            }
            proof {
                // `nxt` sorts no later than every child of `cur`.
                let s = self.vec.slots();
                let l = 2 * (cur as int) + 1;
                let rgt = 2 * (cur as int) + 2;
                if rgt < n {
                    lemma_cmp_le(s[rgt], s[l]);
                }
                crate::order::lemma_le_refl(s[nxt as int]);
                assert forall|c: int| 1 <= c < n && parent(c) == cur as int implies #[trigger] le(
                    s[nxt as int],
                    s[c],
                ) by {
                    assert(c == l || c == rgt);
                }
            }
            let ord = self.cmp_at(nxt, cur);
            match ord {
                Ordering::Less => {
                    let ghost s_pre = self.vec.slots();
                    self.swap(nxt, cur);
                    proof {
                        assert(self.vec.slots() == s_pre.update(
                            cur as int,
                            s_pre[nxt as int],
                        ).update(nxt as int, s_pre[cur as int])) by {
                            assert(self.vec.slots() =~= s_pre.update(
                                cur as int,
                                s_pre[nxt as int],
                            ).update(nxt as int, s_pre[cur as int]));
                        }
                        lemma_sift_down_step(s_pre, cur as int, nxt as int);
                        lemma_swap_multiset(s_pre, nxt as int, cur as int);
                    }
                    cur = nxt;
                },
                _ => {
                    proof {
                        let s = self.vec.slots();
                        lemma_cmp_le(s[nxt as int], s[cur as int]);
                        assert forall|c: int|
                            1 <= c < n && parent(c) == cur as int implies #[trigger] le(
                            s[cur as int],
                            s[c],
                        ) by {
                            lemma_le_trans(s[cur as int], s[nxt as int], s[c]);
                        }
                        lemma_sift_down_done(s, cur as int);
                    }
                    break ;
                },
            }
        }
        Some(ans)
    }

    /// Drop every live element, release the buffer's block, and return to
    /// the fresh, capacity-zero state.
    pub fn clear(&mut self)
        requires
            old(self).wf(),
        ensures
            final(self).wf(),
            final(self)@ == Seq::<T>::empty(),
            final(self).spec_cap() == 0,
    {
        self.vec.reset();
        self.len = 0;
    }

    /// Consume the heap into an iterator that yields its elements in
    /// ascending order, one pop at a time.
    pub fn into_iter(self) -> (it: IntoIter<T, A>)
        requires
            self.wf(),
        ensures
            it.wf(),
            it@ == self@,
            it.taken() == Seq::<T>::empty(),
    {
        IntoIter { heap: self, taken: Ghost(Seq::empty()) }
    }
}

/// The heap-order invariant: in a well-formed heap every parent sorts no
/// later than its children; it holds between any two public calls.
pub proof fn lemma_wf_heap_ordered<T: Ord, A: Alloc>(h: &BinaryHeap<T, A>)
    requires
        h.wf(),
    ensures
        heap_ordered(h@),
{
}

/// A well-formed heap never holds more elements than its capacity.
pub proof fn lemma_len_le_cap<T: Ord, A: Alloc>(h: &BinaryHeap<T, A>)
    requires
        h.wf(),
    ensures
        h@.len() <= h.spec_cap(),
{
}

/// Sortedness via drain: whatever a heap's consuming iterator has yielded
/// so far is non-decreasing, and all of it sorts no later than everything
/// that still remains to be yielded.
pub proof fn lemma_into_iter_sorted<T: Ord, A: Alloc>(it: &IntoIter<T, A>)
    requires
        it.wf(),
    ensures
        sorted_by_le(it.taken()),
        forall|i: int, j: int|
            0 <= i < it.taken().len() && 0 <= j < it@.len() ==> #[trigger] le(
                it.taken()[i],
                it@[j],
            ),
{
}

/// A consuming iterator over a heap: yields the remaining minimum on each
/// `next` call until the heap is drained. It remembers, in ghost state,
/// what it has yielded, so that its sortedness is part of its invariant.
pub struct IntoIter<T: Ord, A: Alloc = Global> {
    heap: BinaryHeap<T, A>,
    taken: Ghost<Seq<T>>,
}

impl<T: Ord, A: Alloc> View for IntoIter<T, A> {
    type V = Seq<T>;

    /// The elements not yet yielded, in the wrapped heap's slot order.
    closed spec fn view(&self) -> Seq<T> {
        self.heap@
    }
}

impl<T: Ord, A: Alloc> IntoIter<T, A> {
    /// The elements yielded so far, in the order they came out.
    pub closed spec fn taken(&self) -> Seq<T> {
        self.taken@
    }

    /// Well-formed: the wrapped heap is, what was yielded is
    /// non-decreasing, and it all sorts no later than what remains.
    pub closed spec fn wf(&self) -> bool {
        &&& self.heap.wf()
        &&& sorted_by_le(self.taken@)
        &&& forall|i: int, j: int|
            0 <= i < self.taken@.len() && 0 <= j < self.heap@.len() ==> #[trigger] le(
                self.taken@[i],
                self.heap@[j],
            )
    }

    /// The next element in ascending order: the minimum of what remains,
    /// or `None` exactly when the heap is drained.
    pub fn next(&mut self) -> (r: Option<T>)
        requires
            old(self).wf(),
            obeys_cmp::<T>(),
        ensures
            final(self).wf(),
            match r {
                None => old(self)@.len() == 0 && final(self)@ == old(self)@,
                Some(x) => {
                    &&& old(self)@.len() > 0
                    &&& x == old(self)@[0]
                    &&& final(self)@.len() == old(self)@.len() - 1
                    &&& final(self)@.to_multiset() == old(self)@.to_multiset().remove(x)
                    &&& forall|i: int| 0 <= i < old(self)@.len() ==> le(x, #[trigger] old(self)@[i])
                    &&& forall|y: T| old(self)@.to_multiset().count(y) > 0 ==> le(x, y)
                    &&& final(self).taken() == old(self).taken().push(x)
                },
            },
    {
        let r = self.heap.pop();
        match r {
            Some(x) => {
                proof {
                    broadcast use vstd::seq_lib::group_to_multiset_ensures;
                    broadcast use vstd::multiset::group_multiset_axioms;

                    let t0 = self.taken@;
                    let h1 = self.heap@;
                    self.taken@ = t0.push(x);
                    assert forall|i: int, j: int|
                        0 <= i <= j < t0.push(x).len() implies #[trigger] le(
                        t0.push(x)[i],
                        t0.push(x)[j],
                    ) by {
                        if j == t0.len() as int {
                            if i == j {
                                crate::order::lemma_le_refl(x);
                            } else {
                                assert(le(t0[i], old(self)@[0]));
                            }
                        }
                    }
                    assert forall|i: int, j: int|
                        0 <= i < t0.push(x).len() && 0 <= j < h1.len() implies #[trigger] le(
                        t0.push(x)[i],
                        h1[j],
                    ) by {
                        assert(h1.to_multiset().count(h1[j]) > 0) by {
                            assert(h1.contains(h1[j]));
                        }
                        assert(old(self)@.to_multiset().count(h1[j]) > 0);
                        if i < t0.len() {
                            assert(old(self)@.contains(h1[j]));
                            let k = choose|k: int|
                                0 <= k < old(self)@.len() && old(self)@[k] == h1[j];
                            assert(le(t0[i], old(self)@[k]));
                        } else {
                            assert(le(x, h1[j]));
                        }
                    }
                }
                Some(x)
            },
            None => None,
        }
    }
}

} // verus!

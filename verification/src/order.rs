//! The element order, the heap-order predicate over a slot sequence, and
//! the lemmas about both that the heap proofs and the public laws use.
//!
//! Elements are compared through `Ord::cmp`. At the specification level the
//! comparison is `cmp_spec`, and all reasoning assumes the order is lawful,
//! stated as `vstd::laws_cmp::obeys_cmp::<T>()`.

use vstd::laws_cmp::{obeys_cmp, obeys_cmp_ord, obeys_partial_cmp_spec_properties};
use vstd::laws_eq::obeys_eq_spec_properties;
use vstd::prelude::*;
use vstd::std_specs::cmp::{OrdSpec, PartialEqSpec, PartialOrdSpec};
use core::cmp::Ordering;

verus! {

/// `a` sorts no later than `b`: the three-way comparison does not say `Greater`.
pub open spec fn le<T: Ord>(a: T, b: T) -> bool {
    a.cmp_spec(&b) != Ordering::Greater
}

/// Index of the parent of slot `c` in the implicit binary tree (0-based layout:
/// the children of slot `i` sit at `2*i + 1` and `2*i + 2`).
pub open spec fn parent(c: int) -> int {
    (c - 1) / 2
}

/// The edge from the parent of slot `c` down to slot `c` respects the order.
pub open spec fn heap_le_ok<T: Ord>(s: Seq<T>, c: int) -> bool {
    le(s[parent(c)], s[c])
}

/// The heap-order invariant over a slot sequence: every parent sorts no
/// later than each of its children.
pub open spec fn heap_ordered<T: Ord>(s: Seq<T>) -> bool {
    forall|c: int| 1 <= c < s.len() ==> #[trigger] heap_le_ok(s, c)
}

/// The sequence is non-decreasing under the element order.
pub open spec fn sorted_by_le<T: Ord>(s: Seq<T>) -> bool {
    forall|i: int, j: int| 0 <= i <= j < s.len() ==> #[trigger] le(s[i], s[j])
}

/// A lawful order is reflexive.
pub proof fn lemma_le_refl<T: Ord>(x: T)
    requires
        obeys_cmp::<T>(),
    ensures
        le(x, x),
{
    reveal(obeys_partial_cmp_spec_properties);
    reveal(obeys_cmp_ord);
    if x.cmp_spec(&x) == Ordering::Greater {
        assert(x.partial_cmp_spec(&x) == Some(Ordering::Greater));
        assert(x.partial_cmp_spec(&x) == Some(Ordering::Less));
        assert(false);
    }
}

/// A lawful order is total: of any two elements, one sorts no later than the other.
pub proof fn lemma_le_total<T: Ord>(x: T, y: T)
    requires
        obeys_cmp::<T>(),
    ensures
        le(x, y) || le(y, x),
{
    reveal(obeys_partial_cmp_spec_properties);
    reveal(obeys_cmp_ord);
    if x.cmp_spec(&y) == Ordering::Greater {
        assert(x.partial_cmp_spec(&y) == Some(Ordering::Greater));
        assert(y.partial_cmp_spec(&x) == Some(Ordering::Less));
        assert(y.cmp_spec(&x) == Ordering::Less);
    }
}

/// A lawful order is transitive.
pub proof fn lemma_le_trans<T: Ord>(x: T, y: T, z: T)
    requires
        obeys_cmp::<T>(),
        le(x, y),
        le(y, z),
    ensures
        le(x, z),
{
    reveal(obeys_partial_cmp_spec_properties);
    reveal(obeys_cmp_ord);
    reveal(obeys_eq_spec_properties);
    if x.cmp_spec(&z) == Ordering::Greater {
        assert(x.partial_cmp_spec(&z) == Some(Ordering::Greater));
        assert(z.partial_cmp_spec(&x) == Some(Ordering::Less));
        assert(x.partial_cmp_spec(&y) == Some(x.cmp_spec(&y)));
        assert(y.partial_cmp_spec(&z) == Some(y.cmp_spec(&z)));
        if x.cmp_spec(&y) == Ordering::Less && y.cmp_spec(&z) == Ordering::Less {
            assert(x.partial_cmp_spec(&z) == Some(Ordering::Less));
        } else if x.cmp_spec(&y) == Ordering::Less {
            // y compares equal to z; a strictly smaller x cannot sort after z.
            assert(y.eq_spec(&z));
            assert(z.partial_cmp_spec(&y) == Some(Ordering::Less));
            assert(z.partial_cmp_spec(&x) == Some(Ordering::Less));
            assert(z.partial_cmp_spec(&y) == Some(z.cmp_spec(&y)));
            assert(y.partial_cmp_spec(&z) == Some(Ordering::Equal));
            assert(z.eq_spec(&y));
            assert(z.partial_cmp_spec(&y) == Some(Ordering::Equal));
        } else if y.cmp_spec(&z) == Ordering::Less {
            // x compares equal to y; y strictly below z cannot leave x above z.
            assert(x.eq_spec(&y));
            assert(y.eq_spec(&x));
            assert(y.partial_cmp_spec(&x) == Some(Ordering::Equal));
            assert(y.partial_cmp_spec(&z) == Some(Ordering::Less));
            assert(y.partial_cmp_spec(&x) == Some(Ordering::Less));
        } else {
            // both comparisons are Equal; equality is transitive.
            assert(x.eq_spec(&y));
            assert(y.eq_spec(&z));
            assert(x.eq_spec(&z));
            assert(x.partial_cmp_spec(&z) == Some(Ordering::Equal));
        }
        assert(false);
    }
}

/// Connects the three-way comparison with `le`: `Less` is exactly the strict
/// part of the order, and the order is total.
pub proof fn lemma_cmp_le<T: Ord>(a: T, b: T)
    requires
        obeys_cmp::<T>(),
    ensures
        (a.cmp_spec(&b) == Ordering::Less) == !le(b, a),
        le(a, b) || le(b, a),
{
    reveal(obeys_partial_cmp_spec_properties);
    reveal(obeys_cmp_ord);
    assert(a.partial_cmp_spec(&b) == Some(a.cmp_spec(&b)));
    assert(b.partial_cmp_spec(&a) == Some(b.cmp_spec(&a)));
    if a.cmp_spec(&b) == Ordering::Less {
        assert(b.partial_cmp_spec(&a) == Some(Ordering::Greater));
    }
    if b.cmp_spec(&a) == Ordering::Greater {
        assert(a.partial_cmp_spec(&b) == Some(Ordering::Less));
    }
    lemma_le_total(a, b);
}

/// In a heap-ordered sequence the root sorts no later than every element.
pub proof fn lemma_root_le_all<T: Ord>(s: Seq<T>, i: int)
    requires
        obeys_cmp::<T>(),
        heap_ordered(s),
        0 <= i < s.len(),
    ensures
        le(s[0], s[i]),
    decreases i,
{
    if i == 0 {
        lemma_le_refl(s[0]);
    } else {
        assert(heap_le_ok(s, i));
        assert(0 <= parent(i) < i);
        lemma_root_le_all(s, parent(i));
        lemma_le_trans(s[0], s[parent(i)], s[i]);
    }
}

/// In a heap-ordered sequence every node sorts no later than each of its
/// children, at `2*i + 1` and `2*i + 2`.
pub proof fn lemma_heap_parent_child<T: Ord>(s: Seq<T>, i: int, c: int)
    requires
        heap_ordered(s),
        0 <= i < s.len(),
        c == 2 * i + 1 || c == 2 * i + 2,
        c < s.len(),
    ensures
        le(s[i], s[c]),
{
    assert(heap_le_ok(s, c));
    assert(parent(c) == i);
}

/// Exchanging two slots of a sequence leaves its multiset of elements unchanged.
pub proof fn lemma_swap_multiset<T>(s: Seq<T>, i: int, j: int)
    requires
        0 <= i < s.len(),
        0 <= j < s.len(),
    ensures
        s.update(i, s[j]).update(j, s[i]).to_multiset() == s.to_multiset(),
{
    broadcast use vstd::seq_lib::group_to_multiset_ensures;

    let s1 = s.update(i, s[j]);
    let s2 = s1.update(j, s[i]);
    if i == j {
        assert(s2 =~= s);
    } else {
        assert(s1.to_multiset() =~= s.to_multiset().remove(s[i]).insert(s[j]));
        assert(s2.to_multiset() =~= s1.to_multiset().remove(s1[j]).insert(s[i]));
        assert(s1[j] == s[j]);
        assert(s.to_multiset().count(s[i]) > 0);
        assert(s.to_multiset().count(s[j]) > 0);
        assert(s2.to_multiset() =~= s.to_multiset()) by {
            assert forall|x: T| s2.to_multiset().count(x) == s.to_multiset().count(x) by {
                assert(s2.to_multiset().count(x) == s.to_multiset().remove(s[i]).insert(
                    s[j],
                ).remove(s[j]).insert(s[i]).count(x));
            }
        }
    }
}

} // verus!

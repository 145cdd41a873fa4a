//! Laws that relate several heap operations.
//!
//! `pop` promises that the value it returns is the root, that the root
//! sorts no later than everything the heap held, and that the contents
//! lose exactly that value. The [`drains`] relation captures a whole such
//! run: a sequence of values taken, one minimum at a time, from a
//! multiset. The law below proves that any such run comes out in
//! non-decreasing order and uses the multiset up exactly — popping a heap
//! until empty sorts its contents.

use crate::order::{le, lemma_le_refl, sorted_by_le};
use vstd::laws_cmp::obeys_cmp;
use vstd::multiset::Multiset;
use vstd::prelude::*;

verus! {

/// `s` drains `m`: each element of `s` in turn sorts no later than
/// everything then left of `m` and is removed from it, and `m` is used up
/// exactly. Successive `pop` calls establish this relation between the
/// values they return and the heap's starting contents.
pub open spec fn drains<T: Ord>(s: Seq<T>, m: Multiset<T>) -> bool
    decreases s.len(),
{
    if s.len() == 0 {
        m == Multiset::<T>::empty()
    } else {
        &&& m.count(s[0]) > 0
        &&& (forall|y: T| #[trigger] m.count(y) > 0 ==> le(s[0], y))
        &&& drains(s.drop_first(), m.remove(s[0]))
    }
}

/// Sortedness via drain: a sequence of successive minima of a multiset is
/// non-decreasing and holds exactly that multiset of values.
pub proof fn lemma_drain_sorted<T: Ord>(s: Seq<T>, m: Multiset<T>)
    requires
        obeys_cmp::<T>(),
        drains(s, m),
    ensures
        sorted_by_le(s),
        s.to_multiset() == m,
    decreases s.len(),
{
    broadcast use vstd::seq_lib::group_to_multiset_ensures;
    broadcast use vstd::multiset::group_multiset_axioms;

    if s.len() == 0 {
        assert(s.to_multiset() =~= m);
    } else {
        let t = s.drop_first();
        lemma_drain_sorted(t, m.remove(s[0]));
        assert(s.remove(0) =~= t);
        assert(s.remove(0).to_multiset() =~= s.to_multiset().remove(s[0]));
        assert(s.to_multiset().count(s[0]) > 0) by {
            assert(s.contains(s[0]));
        }
        assert(s.to_multiset() =~= m) by {
            assert forall|x: T| s.to_multiset().count(x) == m.count(x) by {
                assert(s.to_multiset().remove(s[0]).count(x) == m.remove(s[0]).count(x));
            }
        }
        assert forall|i: int, j: int| 0 <= i <= j < s.len() implies #[trigger] le(s[i], s[j]) by {
            if i == 0 {
                if j == 0 {
                    lemma_le_refl(s[0]);
                } else {
                    assert(t[j - 1] == s[j]);
                    assert(t.contains(s[j]));
                    assert(t.to_multiset().count(s[j]) > 0);
                    assert(m.remove(s[0]).count(s[j]) > 0);
                    assert(m.count(s[j]) > 0);
                }
            } else {
                assert(le(t[i - 1], t[j - 1]));
            }
        }
    }
}

} // verus!

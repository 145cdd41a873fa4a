use binheap::{BinaryHeap, CountingAlloc, RawVec, DEFAULT_CAPACITY};

#[test]
fn raw_vec_create() {
    let a = CountingAlloc::new();
    let mut vec: RawVec<u128, CountingAlloc> = RawVec::new_in(a);
    vec.double();
    vec.double();
    drop(vec);
}

#[test]
fn test_push() {
    let a = CountingAlloc::new();
    let mut bh: BinaryHeap<u8, CountingAlloc> = BinaryHeap::new_in(a);
    for i in 1..=9 {
        bh.push(2 * i);
    }
    for i in 1..=9 {
        bh.push(2 * i - 1);
    }
    assert_eq!(
        bh.as_slice(),
        &[1, 2, 5, 8, 3, 6, 9, 13, 17, 10, 4, 12, 7, 14, 11, 16, 15, 18][..]
    );
}

#[test]
fn test_pop() {
    let a = CountingAlloc::new();
    let mut bh: BinaryHeap<u8, CountingAlloc> = BinaryHeap::new_in(a);
    for &i in &[1, 7, 2, 8, 9, 3, 4, 5, 6] {
        bh.push(i);
    }
    for i in 1..=9 {
        assert_eq!(bh.pop(), Some(i));
    }
    assert_eq!(bh.pop(), None);
}

#[test]
fn empty_semantics() {
    let mut h: BinaryHeap<u32> = BinaryHeap::new();
    assert!(h.is_empty());
    assert_eq!(h.len(), 0);
    assert_eq!(h.cap(), 0);
    assert_eq!(h.peek(), None);
    assert_eq!(h.pop(), None);
    assert!(h.is_empty());
}

#[test]
fn clear_resets_and_is_idempotent() {
    let mut h: BinaryHeap<u32> = BinaryHeap::new();
    h.push(2);
    h.push(1);
    h.push(3);
    assert_eq!(h.len(), 3);
    h.clear();
    assert_eq!(h.len(), 0);
    assert_eq!(h.cap(), 0);
    assert_eq!(h.peek(), None);
    h.clear();
    assert_eq!(h.len(), 0);
    assert_eq!(h.cap(), 0);
    assert_eq!(h.peek(), None);
    h.push(7);
    assert_eq!(h.peek(), Some(&7));
    assert_eq!(h.cap(), DEFAULT_CAPACITY);
}

#[test]
fn peek_sequence_scenario() {
    let mut h: BinaryHeap<i32> = BinaryHeap::new();
    h.push(4);
    assert_eq!(h.peek(), Some(&4));
    h.push(5);
    assert_eq!(h.peek(), Some(&4));
    h.push(3);
    assert_eq!(h.peek(), Some(&3));
    assert_eq!(h.pop(), Some(3));
    assert_eq!(h.peek(), Some(&4));
    assert_eq!(h.pop(), Some(4));
    assert_eq!(h.peek(), Some(&5));
}

#[test]
fn growth_preserves_order() {
    let a = CountingAlloc::new();
    let mut h: BinaryHeap<u32, CountingAlloc> = BinaryHeap::new_in(a);
    for i in 0..1000 {
        h.push(i);
        assert_eq!(h.len(), (i + 1) as usize);
    }
    assert_eq!(h.cap(), 1024);
    assert_eq!(h.allocator_ref().allocs, 1);
    assert_eq!(h.allocator_ref().grows, 8);
    for i in 0..1000 {
        assert_eq!(h.pop(), Some(i));
    }
    assert_eq!(h.pop(), None);
}

#[test]
fn drain_sorts_duplicates() {
    let mut h: BinaryHeap<u64> = BinaryHeap::new();
    for &v in &[5, 1, 3, 1, 5, 1] {
        h.push(v);
    }
    let mut it = h.into_iter();
    let mut out: Vec<u64> = Vec::new();
    while let Some(v) = it.next() {
        out.push(v);
    }
    assert_eq!(out, vec![1, 1, 1, 3, 5, 5]);
}

#[test]
fn into_iter_on_empty_heap() {
    let h: BinaryHeap<u8> = BinaryHeap::new();
    let mut it = h.into_iter();
    assert_eq!(it.next(), None);
    assert_eq!(it.next(), None);
}

#[test]
fn with_capacity_is_eager_and_exact() {
    let a = CountingAlloc::new();
    let mut h: BinaryHeap<u16, CountingAlloc> = BinaryHeap::with_capacity_in(7, a);
    assert_eq!(h.cap(), 7);
    assert_eq!(h.len(), 0);
    assert_eq!(h.allocator_ref().allocs, 1);
    for i in 0..7 {
        h.push(i);
    }
    assert_eq!(h.cap(), 7);
    assert_eq!(h.allocator_ref().grows, 0);
    h.push(7);
    assert_eq!(h.cap(), 14);
    assert_eq!(h.allocator_ref().grows, 1);
}

#[test]
fn with_capacity_zero_allocates_nothing() {
    let a = CountingAlloc::new();
    let h: BinaryHeap<u16, CountingAlloc> = BinaryHeap::with_capacity_in(0, a);
    assert_eq!(h.cap(), 0);
    assert_eq!(h.allocator_ref().allocs, 0);
}

#[test]
fn clear_releases_the_block() {
    let a = CountingAlloc::new();
    let mut h: BinaryHeap<u32, CountingAlloc> = BinaryHeap::new_in(a);
    h.push(1);
    h.push(2);
    assert_eq!(h.allocator_ref().allocs, 1);
    assert_eq!(h.allocator_ref().deallocs, 0);
    h.clear();
    assert_eq!(h.allocator_ref().deallocs, 1);
    h.push(9);
    assert_eq!(h.allocator_ref().allocs, 2);
    assert_eq!(h.peek(), Some(&9));
}

#[test]
fn alloc_mut_gives_the_capability_back() {
    let a = CountingAlloc::new();
    let mut h: BinaryHeap<u32, CountingAlloc> = BinaryHeap::new_in(a);
    h.push(3);
    let counts = h.alloc_mut();
    assert_eq!(counts.allocs, 1);
    counts.deallocs = 0;
    assert_eq!(h.peek(), Some(&3));
}

#[test]
fn heap_order_and_size_accounting() {
    let mut h: BinaryHeap<i64> = BinaryHeap::new();
    let mut pushes: usize = 0;
    let mut pops: usize = 0;
    for &v in &[8, 3, 5, 13, 2, 2, 21, 1, 34, 5, 0, 9] {
        h.push(v);
        pushes += 1;
    }
    for _ in 0..4 {
        assert!(h.pop().is_some());
        pops += 1;
    }
    assert_eq!(h.len(), pushes - pops);
    assert!(h.len() <= h.cap());
    let s = h.as_slice();
    for c in 1..s.len() {
        assert!(s[(c - 1) / 2] <= s[c]);
    }
}

use binheap::BinaryHeap;
use std::cell::Cell;
use std::cmp::Ordering;
use std::rc::Rc;

/// An element whose destruction is observable through a shared counter.
/// Only `key` takes part in the order.
struct Tick {
    key: u32,
    drops: Rc<Cell<u32>>,
}

impl Tick {
    fn new(key: u32, drops: &Rc<Cell<u32>>) -> Tick {
        Tick { key, drops: Rc::clone(drops) }
    }
}

impl Drop for Tick {
    fn drop(&mut self) {
        self.drops.set(self.drops.get() + 1);
    }
}

impl PartialEq for Tick {
    fn eq(&self, other: &Self) -> bool {
        self.key == other.key
    }
}

impl Eq for Tick {}

impl PartialOrd for Tick {
    fn partial_cmp(&self, other: &Self) -> Option<Ordering> {
        Some(self.cmp(other))
    }
}

impl Ord for Tick {
    fn cmp(&self, other: &Self) -> Ordering {
        self.key.cmp(&other.key)
    }
}

#[test]
fn every_element_dropped_exactly_once() {
    let drops = Rc::new(Cell::new(0));
    let mut h: BinaryHeap<Tick> = BinaryHeap::new();
    for key in [3, 0, 5, 1, 4, 2] {
        h.push(Tick::new(key, &drops));
    }
    assert_eq!(drops.get(), 0);
    let first = h.pop().expect("six elements were pushed");
    assert_eq!(first.key, 0);
    drop(first);
    assert_eq!(drops.get(), 1);
    let second = h.pop().expect("five elements remain");
    assert_eq!(second.key, 1);
    drop(second);
    assert_eq!(drops.get(), 2);
    drop(h);
    assert_eq!(drops.get(), 6);
}

#[test]
fn clear_drops_every_live_element() {
    let drops = Rc::new(Cell::new(0));
    let mut h: BinaryHeap<Tick> = BinaryHeap::new();
    for key in [2, 1, 0] {
        h.push(Tick::new(key, &drops));
    }
    h.clear();
    assert_eq!(drops.get(), 3);
    drop(h);
    assert_eq!(drops.get(), 3);
}

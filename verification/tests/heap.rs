use giputils::grc::Grc;
use giputils::heap::BinaryHeap;
use giputils::heap::BinaryHeapCmp;
use std::cell::RefCell;
use std::rc::Rc;

struct CMP;

impl BinaryHeapCmp<u32> for CMP {
    fn gte_spec(&self, s: u32, o: u32) -> bool {
        s <= o
    }

    fn gte(&self, s: u32, o: u32) -> bool {
        s <= o
    }
}

struct MaxFirst;

impl BinaryHeapCmp<u32> for MaxFirst {
    fn gte_spec(&self, s: u32, o: u32) -> bool {
        s >= o
    }

    fn gte(&self, s: u32, o: u32) -> bool {
        s >= o
    }
}

/// Orders handles by a priority table that the test keeps changing.
struct ByPriority {
    priority: Rc<RefCell<Vec<u64>>>,
}

impl BinaryHeapCmp<u32> for ByPriority {
    fn gte_spec(&self, s: u32, o: u32) -> bool {
        self.gte(s, o)
    }

    fn gte(&self, s: u32, o: u32) -> bool {
        let p = self.priority.borrow();
        p[s as usize] >= p[o as usize]
    }
}

/// Orders handles by a priority table that is fixed when the policy is made.
struct ByTable {
    priority: Vec<u64>,
}

impl BinaryHeapCmp<u32> for ByTable {
    fn gte_spec(&self, s: u32, o: u32) -> bool {
        self.gte(s, o)
    }

    fn gte(&self, s: u32, o: u32) -> bool {
        self.priority[s as usize] >= self.priority[o as usize]
    }
}

fn next_random(state: &mut u64) -> u64 {
    *state = state.wrapping_mul(6364136223846793005).wrapping_add(1442695040888963407);
    *state >> 33
}

#[test]
fn test() {
    let mut a = BinaryHeap::new(Grc::new(CMP));
    for x in [3, 2, 4, 5, 1] {
        a.push(x);
    }
    for x in [1, 2, 3, 4, 5] {
        assert!(a.pop() == Some(x));
    }
}

#[test]
fn pop_order_with_max_policy() {
    let mut a = BinaryHeap::new(Grc::new(MaxFirst));
    for x in [3, 2, 4, 5, 1] {
        a.push(x);
    }
    for x in [5, 4, 3, 2, 1] {
        assert_eq!(a.pop(), Some(x));
    }
    assert_eq!(a.pop(), None);
    assert!(a.is_empty());
}

#[test]
fn array_after_each_step() {
    let mut a = BinaryHeap::new(Grc::new(MaxFirst));
    assert_eq!(a.elements(), &[] as &[u32]);
    a.push(3);
    assert_eq!(a.elements(), &[3]);
    a.push(2);
    assert_eq!(a.elements(), &[3, 2]);
    a.push(4);
    assert_eq!(a.elements(), &[4, 2, 3]);
    a.push(5);
    assert_eq!(a.elements(), &[5, 4, 3, 2]);
    a.push(1);
    assert_eq!(a.elements(), &[5, 4, 3, 2, 1]);
    assert_eq!(a.len(), 5);
    assert_eq!(a.pop(), Some(5));
    assert_eq!(a.elements(), &[4, 2, 3, 1]);
    assert_eq!(a.pop(), Some(4));
    assert_eq!(a.elements(), &[3, 2, 1]);
}

#[test]
fn push_same_handle_twice() {
    let mut a = BinaryHeap::new(Grc::new(MaxFirst));
    for x in [7, 3, 9] {
        a.push(x);
    }
    assert_eq!(a.len(), 3);
    let before = a.elements().to_vec();
    a.push(3);
    assert_eq!(a.len(), 3);
    assert_eq!(a.elements(), &before[..]);
    a.push(9);
    a.push(7);
    assert_eq!(a.len(), 3);
    assert_eq!(a.pop(), Some(9));
    assert_eq!(a.pop(), Some(7));
    assert_eq!(a.pop(), Some(3));
    assert_eq!(a.pop(), None);
}

#[test]
fn single_entry_pops_to_empty() {
    let mut a = BinaryHeap::new(Grc::new(CMP));
    assert_eq!(a.pop(), None);
    a.push(0);
    assert_eq!(a.len(), 1);
    assert_eq!(a.pop(), Some(0));
    assert!(a.is_empty());
    a.push(0);
    a.push(1);
    assert_eq!(a.pop(), Some(0));
    assert_eq!(a.elements(), &[1]);
    assert_eq!(a.pop(), Some(1));
    assert_eq!(a.pop(), None);
}

#[test]
fn moving_an_absent_handle_changes_nothing() {
    let mut a = BinaryHeap::new(Grc::new(MaxFirst));
    a.update(40);
    a.up(41);
    a.down(42);
    assert!(a.is_empty());
    for x in [5, 1, 3] {
        a.push(x);
    }
    let before = a.elements().to_vec();
    a.update(100);
    a.up(2);
    a.down(4);
    assert_eq!(a.elements(), &before[..]);
    assert_eq!(a.len(), 3);
}

#[test]
fn update_after_one_priority_changed() {
    let mut seed = 12345u64;
    let n = 60usize;
    for change in 0..(2 * n) {
        let table: Vec<u64> = (0..n).map(|_| next_random(&mut seed) % 1000).collect();
        let priority = Rc::new(RefCell::new(table));
        let mut heap = BinaryHeap::new(Grc::new(ByPriority { priority: priority.clone() }));
        for h in 0..n as u32 {
            heap.push(h);
        }
        let target = (change % n) as u32;
        if change < n {
            priority.borrow_mut()[target as usize] += 1 + next_random(&mut seed) % 2000;
        } else {
            priority.borrow_mut()[target as usize] = next_random(&mut seed) % 3;
        }
        heap.update(target);
        assert_eq!(heap.len(), n);
        let mut drained = Vec::new();
        while let Some(h) = heap.pop() {
            drained.push(h);
        }
        assert_eq!(drained.len(), n);
        let p = priority.borrow();
        for w in drained.windows(2) {
            assert!(p[w[0] as usize] >= p[w[1] as usize]);
        }
        let mut seen = drained.clone();
        seen.sort();
        assert_eq!(seen, (0..n as u32).collect::<Vec<u32>>());
    }
}

#[test]
fn update_after_the_policy_was_replaced() {
    let mut table: Vec<u64> = vec![50, 10, 40, 20, 30, 60, 5];
    let mut heap = BinaryHeap::new(Grc::new(ByTable { priority: table.clone() }));
    for h in 0..7u32 {
        heap.push(h);
    }
    assert_eq!(heap.elements()[0], 5);
    table[6] = 100;
    heap.set_policy(Grc::new(ByTable { priority: table.clone() }));
    heap.update(6);
    assert_eq!(heap.elements()[0], 6);
    table[5] = 0;
    heap.set_policy(Grc::new(ByTable { priority: table.clone() }));
    heap.update(5);
    let mut drained = Vec::new();
    while let Some(h) = heap.pop() {
        drained.push(h);
    }
    assert_eq!(drained, vec![6, 0, 2, 4, 3, 1, 5]);
}

#[test]
fn clear_lets_every_handle_in_again() {
    let mut a = BinaryHeap::new(Grc::new(MaxFirst));
    for x in [3, 2, 4, 5, 1] {
        a.push(x);
    }
    a.clear();
    assert!(a.is_empty());
    assert_eq!(a.len(), 0);
    assert_eq!(a.pop(), None);
    for x in [3, 2, 4, 5, 1] {
        a.push(x);
        assert_eq!(a.len(), [3, 2, 4, 5, 1].iter().position(|y| *y == x).unwrap() + 1);
    }
    assert_eq!(a.elements(), &[5, 4, 3, 2, 1]);
    for x in [5, 4, 3, 2, 1] {
        assert_eq!(a.pop(), Some(x));
    }
}

#[test]
fn ties_stop_the_movement() {
    struct Halves;
    impl BinaryHeapCmp<u32> for Halves {
        fn gte_spec(&self, s: u32, o: u32) -> bool {
            s / 2 >= o / 2
        }

        fn gte(&self, s: u32, o: u32) -> bool {
            s / 2 >= o / 2
        }
    }
    let mut a = BinaryHeap::new(Grc::new(Halves));
    a.push(4);
    a.push(5);
    assert_eq!(a.elements(), &[4, 5]);
    a.push(6);
    assert_eq!(a.elements(), &[6, 5, 4]);
    a.push(7);
    assert_eq!(a.elements(), &[6, 7, 4, 5]);
    assert_eq!(a.pop(), Some(6));
    assert_eq!(a.elements(), &[7, 5, 4]);
}

#[test]
fn sparse_handles_grow_the_table() {
    let mut a = BinaryHeap::new(Grc::new(MaxFirst));
    a.push(1000);
    a.push(5);
    a.push(70000);
    a.update(99999);
    assert_eq!(a.len(), 3);
    assert_eq!(a.pop(), Some(70000));
    assert_eq!(a.pop(), Some(1000));
    assert_eq!(a.pop(), Some(5));
}

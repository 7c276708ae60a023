use giputils::allocator::GallocElem;
use giputils::allocator::Gallocator;
use giputils::allocator::HandleError;

#[test]
fn values_are_found_under_their_handles() {
    let mut slab: Gallocator<String> = Gallocator::new();
    let a = slab.allocate("a".to_string());
    let b = slab.allocate("b".to_string());
    let c = slab.allocate("c".to_string());
    assert_eq!((a, b, c), (0, 1, 2));
    assert_eq!(slab.slots(), 3);
    slab.dealloc(b);
    let d = slab.allocate("d".to_string());
    assert_eq!(d, 3);
    assert_eq!(slab.get(a), Ok(&"a".to_string()));
    assert_eq!(slab.get(c), Ok(&"c".to_string()));
    assert_eq!(slab.get(d), Ok(&"d".to_string()));
    assert_eq!(slab.get(b), Err(HandleError::StaleHandleUse));
    assert_eq!(slab[a], "a");
    assert_eq!(slab[2u32], "c");
}

#[test]
fn round_trip_over_many_calls() {
    let mut slab: Gallocator<u64> = Gallocator::new();
    let mut live: Vec<(usize, u64)> = Vec::new();
    let mut state = 99u64;
    for step in 0..500u64 {
        state = state.wrapping_mul(6364136223846793005).wrapping_add(1442695040888963407);
        if (state >> 40) % 3 == 0 && !live.is_empty() {
            let at = ((state >> 20) as usize) % live.len();
            let (h, _) = live.swap_remove(at);
            slab.dealloc(h);
            assert!(slab.is_removed(h));
        } else {
            let h = slab.allocate(step * 7);
            live.push((h, step * 7));
        }
        for (h, v) in &live {
            assert_eq!(slab.get(*h), Ok(v));
            assert!(!slab.is_removed(*h));
        }
    }
}

#[test]
fn out_of_range_and_stale_handles_are_reported() {
    let mut slab: Gallocator<u8> = Gallocator::new();
    assert_eq!(slab.get(0), Err(HandleError::IndexOutOfRange));
    let h = slab.allocate(7);
    assert_eq!(slab.get(h + 1), Err(HandleError::IndexOutOfRange));
    assert_eq!(slab.get_mut(h + 1), Err(HandleError::IndexOutOfRange));
    assert_eq!(slab.checked_dealloc(h + 1), Err(HandleError::IndexOutOfRange));
    assert_eq!(slab.slots(), 1);
    assert_eq!(slab.get(h), Ok(&7));
    assert_eq!(slab.checked_dealloc(h), Ok(()));
    assert_eq!(slab.get(h), Err(HandleError::StaleHandleUse));
    assert_eq!(slab.get_mut(h), Err(HandleError::StaleHandleUse));
    assert_eq!(slab.checked_dealloc(h), Ok(()));
    slab.dealloc(h);
    assert!(slab.is_removed(h));
    assert_eq!(slab.slots(), 1);
}

#[test]
fn payloads_change_in_place() {
    let mut slab: Gallocator<u32> = Gallocator::new();
    let a = slab.allocate(1);
    let b = slab.allocate(2);
    *slab.get_mut(a).unwrap() = 10;
    slab[b] += 5;
    slab[0u32] += 1;
    assert_eq!(slab.get(a), Ok(&11));
    assert_eq!(slab.get(b), Ok(&7));
}

#[test]
fn gc_keeps_live_values_in_order() {
    let mut slab: Gallocator<char> = Gallocator::new();
    let handles: Vec<usize> = "abcdefg".chars().map(|c| slab.allocate(c)).collect();
    slab.dealloc(handles[0]);
    slab.dealloc(handles[3]);
    slab.dealloc(handles[6]);
    let map = slab.gc();
    assert_eq!(map.len(), 4);
    assert_eq!(slab.slots(), 4);
    assert_eq!(map.get(&1), Some(&0));
    assert_eq!(map.get(&2), Some(&1));
    assert_eq!(map.get(&4), Some(&2));
    assert_eq!(map.get(&5), Some(&3));
    for dead in [0usize, 3, 6, 7] {
        assert_eq!(map.get(&dead), None);
        assert!(!map.contains_key(&dead));
    }
    for (old, c) in [(1usize, 'b'), (2, 'c'), (4, 'e'), (5, 'f')] {
        let new = *map.get(&old).unwrap();
        assert_eq!(slab.get(new), Ok(&c));
        assert!(!slab.is_removed(new));
    }
    let next = slab.allocate('z');
    assert_eq!(next, 4);
}

#[test]
fn gc_of_an_empty_or_dead_store() {
    let mut slab: Gallocator<u8> = Gallocator::default();
    assert_eq!(slab.gc().len(), 0);
    let a = slab.allocate(1);
    let b = slab.allocate(2);
    slab.dealloc(a);
    slab.dealloc(b);
    let map = slab.gc();
    assert_eq!(map.len(), 0);
    assert_eq!(slab.slots(), 0);
    assert_eq!(slab.allocate(3), 0);
}

#[test]
fn slot_holds_its_payload() {
    let mut e = GallocElem::new(5u8);
    assert!(!e.is_removed());
    assert_eq!(*e, 5);
    *e = 6;
    assert_eq!(e.take(), 6);
}

use giputils::grc::Grc;
use giputils::gvec::Gvec;
use giputils::hash::GHashMap;
use giputils::hash::GHashSet;
use giputils::OptionU32;

#[test]
fn gvec_indexes_by_u32_and_usize() {
    let mut v: Gvec<u32> = Gvec::new();
    assert_eq!(v.len(), 0);
    v.push(10);
    v.push(20);
    v.push(30);
    assert_eq!(v.len(), 3);
    assert_eq!(v[0u32], 10);
    assert_eq!(v[2usize], 30);
    v[1u32] = 21;
    v[2usize] = 31;
    assert_eq!(v.clone().into_vec(), vec![10, 21, 31]);
    assert_eq!(v.pop(), Some(31));
    assert_eq!(v.iter().sum::<u32>(), 31);
}

#[test]
fn gvec_swap_and_swap_remove() {
    let mut v: Gvec<char> = Gvec::from(vec!['a', 'b', 'c', 'd']);
    v.swap(0, 3);
    assert_eq!(v.clone().into_vec(), vec!['d', 'b', 'c', 'a']);
    v.swap(1, 1);
    v.swap(2, 1);
    assert_eq!(v.clone().into_vec(), vec!['d', 'c', 'b', 'a']);
    v.swap_remove(0);
    assert_eq!(v.clone().into_vec(), vec!['a', 'c', 'b']);
    v.swap_remove(2);
    assert_eq!(v.clone().into_vec(), vec!['a', 'c']);
}

#[test]
fn gvec_reserve_fills_with_defaults() {
    let mut v: Gvec<OptionU32> = Gvec::default();
    v.reserve(3);
    assert_eq!(v.len(), 3);
    assert!(v[0u32].is_none() && v[1u32].is_none() && v[2u32].is_none());
    v[1u32] = OptionU32::some(9);
    v.reserve(2);
    assert_eq!(v.len(), 3);
    v.reserve(3);
    assert_eq!(v.len(), 3);
    v.reserve(5);
    assert_eq!(v.len(), 5);
    assert_eq!(v[1u32], OptionU32::some(9));
    assert!(v[4u32].is_none());
}

#[test]
fn gvec_of_random_words() {
    let mut rng = <rand::rngs::StdRng as rand::SeedableRng>::seed_from_u64(1);
    let a = Gvec::new_rand(16, &mut rng);
    assert_eq!(a.len(), 16);
    let mut again = <rand::rngs::StdRng as rand::SeedableRng>::seed_from_u64(1);
    let b = Gvec::new_rand(16, &mut again);
    assert_eq!(a.into_vec(), b.into_vec());
    assert_eq!(Gvec::new_rand(0, &mut rng).len(), 0);
}

#[test]
fn option_u32_tells_none_from_some() {
    let n = OptionU32::none();
    assert!(n.is_none());
    assert!(!n.is_some());
    assert_eq!(n, OptionU32::default());
    let s = OptionU32::some(0);
    assert!(s.is_some());
    assert!(!s.is_none());
    assert_eq!(s.0, 0);
    assert!(OptionU32::some(u32::MAX).is_none());
    assert!(OptionU32::some(u32::MAX - 1).is_some());
}

#[test]
fn hash_map_binds_and_finds() {
    let mut m: GHashMap<u64, &str> = GHashMap::new();
    assert_eq!(m.len(), 0);
    assert_eq!(m.get(&1), None);
    assert_eq!(m.insert(1, "one"), None);
    assert_eq!(m.insert(2, "two"), None);
    assert_eq!(m.insert(1, "uno"), Some("one"));
    assert_eq!(m.len(), 2);
    assert_eq!(m.get(&1), Some(&"uno"));
    assert_eq!(m.get(&2), Some(&"two"));
    assert!(m.contains_key(&2));
    assert!(!m.contains_key(&3));
    assert_eq!(m.remove(&2), Some("two"));
    assert_eq!(m.len(), 1);
    assert!(GHashMap::<u8, u8>::default().is_empty());
}

#[test]
fn hash_set_holds_each_value_once() {
    let mut s: GHashSet<u32> = GHashSet::new();
    assert_eq!(s.len(), 0);
    assert!(s.insert(5));
    assert!(s.insert(6));
    assert!(!s.insert(5));
    assert_eq!(s.len(), 2);
    assert!(s.contains(&5));
    assert!(!s.contains(&7));
    assert!(GHashSet::<u8>::default().is_empty());
}

#[test]
fn hash_map_walks_in_the_same_order_every_time() {
    let mut a: GHashMap<u64, u64> = GHashMap::new();
    let mut b: GHashMap<u64, u64> = GHashMap::new();
    for k in 0..200u64 {
        a.insert(k * 7919, k);
        b.insert(k * 7919, k);
    }
    let ka: Vec<u64> = a.keys().copied().collect();
    let kb: Vec<u64> = b.keys().copied().collect();
    assert_eq!(ka, kb);
}

#[test]
fn grc_shares_one_value() {
    let a = Grc::new(vec![1, 2, 3]);
    assert_eq!(a.count(), 1);
    let b = a.clone();
    assert_eq!(a.count(), 2);
    assert_eq!(b.len(), 3);
    assert_eq!(*b, vec![1, 2, 3]);
    assert!(a.ptr_eq(&b));
    let c = Grc::new(vec![1, 2, 3]);
    assert!(!a.ptr_eq(&c));
    drop(b);
    assert_eq!(a.count(), 1);
}

use giputils::bitvec::BitVec;
use giputils::hash::GHashSet;

#[test]
fn test0() {
    let v = [true, false, true, false, true];
    let bv = BitVec::from(&v);
    for i in 0..bv.len() {
        assert_eq!(bv.get(i), v[i]);
    }
}

#[test]
fn test1() {
    let bv = BitVec::from_elem(0, true);
    assert!(bv.is_empty());
}

#[test]
fn test2() {
    for w in 1..200 {
        let one = BitVec::one(w);
        assert!(one.is_one());
        let ones = BitVec::ones(w);
        assert!(ones.is_ones());
        let zero = BitVec::zero(w);
        assert!(zero.is_zero());
    }
}

#[test]
fn test3() {
    let v = 12345;
    let bv = BitVec::from_usize(64, v);
    assert_eq!(bv.to_usize(), v);
    let bv2 = BitVec::from_usize(10, v);
    assert_eq!(bv2.to_usize(), v & ((1 << 10) - 1));
}

#[test]
fn test4() {
    let v = [true, false, true, true, false];
    let bv = BitVec::from(&v);
    let mut iter = bv.iter();
    for &val in &v {
        assert_eq!(iter.next(), Some(val));
    }
    assert_eq!(iter.next(), None);
    let mut into_iter = bv.into_iter();
    let mut i = 0;
    while let Some(val) = into_iter.next() {
        assert_eq!(val, v[i]);
        i += 1;
    }
    assert_eq!(i, v.len());
}

#[test]
fn test_fmt() {
    let z = BitVec::new();
    assert_eq!(z.to_string(), "[]");
    assert_eq!(z.to_lower_hex(), "[]");
    assert_eq!(z.to_upper_hex(), "[]");

    let v = 12345;
    let bv = BitVec::from_usize(64, v);
    let s = bv.to_string();
    assert_eq!(s.len(), 64);
    assert!(s.ends_with("11000000111001"));

    assert_eq!(bv.to_lower_hex(), "0x3039");
    assert_eq!(bv.to_upper_hex(), "0x3039");

    let mut bv_large = BitVec::zero(128);
    for i in 0..65 {
        bv_large.set(i, true);
    }

    assert_eq!(bv_large.to_lower_hex(), "0x1ffffffffffffffff");
    assert_eq!(bv_large.to_upper_hex(), "0x1FFFFFFFFFFFFFFFF");

    let s_large = bv_large.to_string();
    assert_eq!(s_large.len(), 128);
    let expected_suffix = "1".repeat(65);
    assert!(s_large.ends_with(&expected_suffix));
    assert!(s_large.starts_with('0'));
}

#[test]
fn test_extend() {
    let mut bv = BitVec::new();
    bv.extend(&[true, false, true]);
    assert_eq!(bv.len(), 3);
    assert_eq!(bv.get(0), true);
    assert_eq!(bv.get(1), false);
    assert_eq!(bv.get(2), true);

    bv.extend(&[false, true]);
    assert_eq!(bv.len(), 5);
    assert_eq!(bv.get(3), false);
    assert_eq!(bv.get(4), true);
}

#[test]
fn test_double_ended_iter() {
    let v = [true, false, true, true, false, true, false, false];
    let bv = BitVec::from(&v);

    let mut iter = bv.iter();
    let mut v_iter = v.iter().copied();
    while v_iter.len() > 0 {
        if v_iter.len() % 2 == 0 {
            assert_eq!(iter.next(), v_iter.next());
        } else {
            assert_eq!(iter.next_back(), v_iter.next_back());
        }
    }
    assert_eq!(iter.next(), None);
    assert_eq!(iter.next_back(), None);

    let mut iter = bv.clone().into_iter();
    let mut v_iter = v.iter().copied();
    while v_iter.len() > 0 {
        if v_iter.len() % 2 != 0 {
            assert_eq!(iter.next(), v_iter.next());
        } else {
            assert_eq!(iter.next_back(), v_iter.next_back());
        }
    }
    assert_eq!(iter.next(), None);
    assert_eq!(iter.next_back(), None);
}

#[test]
fn from_elem_fills_whole_and_partial_words() {
    for len in [1usize, 63, 64, 65, 127, 128, 129] {
        let ones = BitVec::from_elem(len, true);
        let zeros = BitVec::from_elem(len, false);
        assert_eq!(ones.len(), len);
        assert_eq!(zeros.len(), len);
        assert_eq!(ones.word_len(), (len + 63) / 64);
        for i in 0..len {
            assert!(ones.get(i));
            assert!(!zeros.get(i));
        }
    }
}

#[test]
fn push_crosses_word_boundaries() {
    let mut bv = BitVec::new();
    assert!(bv.is_empty());
    assert_eq!(bv.word_len(), 0);
    for i in 0..130usize {
        bv.push(i % 3 == 0);
        assert_eq!(bv.len(), i + 1);
    }
    assert_eq!(bv.word_len(), 3);
    for i in 0..130usize {
        assert_eq!(bv.get(i), i % 3 == 0);
    }
}

#[test]
fn set_changes_one_bit() {
    let mut bv = BitVec::zero(70);
    bv.set(69, true);
    bv.set(3, true);
    bv.set(3, false);
    for i in 0..70 {
        assert_eq!(bv.get(i), i == 69);
    }
    assert!(!bv.is_zero());
    assert!(!bv.is_one());
    assert!(!bv.is_ones());
}

#[test]
fn push_word_appends_sixty_four_bits() {
    let mut bv = BitVec::new();
    bv.push_word(0x8000_0000_0000_0001);
    assert_eq!(bv.len(), 64);
    assert!(bv.get(0));
    assert!(bv.get(63));
    assert!(!bv.get(1));
    bv.push_word(2);
    assert_eq!(bv.len(), 128);
    assert!(!bv.get(64));
    assert!(bv.get(65));
    assert_eq!(bv.to_lower_hex(), "0x28000000000000001");
}

#[test]
fn from_usize_keeps_low_bits_only() {
    let bv = BitVec::from_usize(4, 0b10110);
    assert_eq!(bv.len(), 4);
    assert_eq!(bv.to_usize(), 0b0110);
    assert_eq!(bv.to_string(), "0110");
    let wide = BitVec::from_usize(100, 5);
    assert_eq!(wide.len(), 100);
    assert_eq!(wide.to_usize(), 5);
    for i in 3..100 {
        assert!(!wide.get(i));
    }
    assert_eq!(BitVec::from_usize(0, 7).len(), 0);
    assert_eq!(BitVec::new().to_usize(), 0);
}

#[test]
fn clear_empties() {
    let mut bv = BitVec::ones(77);
    bv.clear();
    assert!(bv.is_empty());
    assert_eq!(bv.len(), 0);
    bv.push(true);
    assert_eq!(bv.to_string(), "1");
}

#[test]
fn bit_operations_work_bit_by_bit() {
    let a = BitVec::from(&[true, true, false, false]);
    let b = BitVec::from(&[true, false, true, false]);
    assert_eq!((a.clone() & b.clone()).to_string(), "0001");
    assert_eq!((a.clone() | b.clone()).to_string(), "0111");
    assert_eq!((a.clone() ^ b.clone()).to_string(), "0110");
    assert_eq!((!&a).to_string(), "1100");
    assert_eq!(a.inverted().to_string(), "1100");

    let mut c = a.clone();
    c.bitand_assign(&b);
    assert_eq!(c.to_string(), "0001");
    let mut d = a.clone();
    d.bitor_assign(&b);
    assert_eq!(d.to_string(), "0111");
    let mut e = a.clone();
    e.bitxor_assign(&b);
    assert_eq!(e.to_string(), "0110");
}

#[test]
fn inverting_keeps_unused_bits_clear() {
    let z = BitVec::zero(70);
    let n = !&z;
    assert!(n.is_ones());
    assert_eq!(n.len(), 70);
    assert_eq!(n.to_lower_hex(), "0x3fffffffffffffffff");
    let back = !&n;
    assert!(back.is_zero());
    let empty = !&BitVec::new();
    assert!(empty.is_empty());
}

#[test]
fn hex_text_pads_lower_words() {
    let mut bv = BitVec::new();
    bv.push_word(0xabc);
    bv.push_word(0x1f);
    assert_eq!(bv.to_lower_hex(), "0x1f0000000000000abc");
    assert_eq!(bv.to_upper_hex(), "0x1F0000000000000ABC");
    assert_eq!(BitVec::zero(200).to_lower_hex(), "0x0");
    let mut top_clear = BitVec::zero(128);
    top_clear.set(0, true);
    assert_eq!(top_clear.to_lower_hex(), "0x00000000000000001");
}

#[test]
fn size_hint_counts_the_remaining_bits() {
    let bv = BitVec::from(&[true, false, true]);
    let mut it = bv.iter();
    assert_eq!(it.size_hint(), (3, Some(3)));
    it.next();
    it.next_back();
    assert_eq!(it.size_hint(), (1, Some(1)));
    let mut owned = bv.clone().into_iter();
    assert_eq!(owned.size_hint(), (3, Some(3)));
    assert_eq!(owned.next_back(), Some(true));
    assert_eq!(owned.size_hint(), (2, Some(2)));
}

#[test]
fn from_slice_and_random_words() {
    let v = vec![false, true, true];
    let bv = BitVec::from(&v[..]);
    assert_eq!(bv.to_string(), "110");
    let mut rng = <rand::rngs::StdRng as rand::SeedableRng>::seed_from_u64(7);
    let r = BitVec::new_rand(3, &mut rng);
    assert_eq!(r.len(), 192);
    assert_eq!(r.word_len(), 3);
}

#[test]
fn test_hash_eq() {
    let a = BitVec::ones(64);
    let mut b = BitVec::new();
    for _ in 0..64 {
        b.push(true);
    }
    assert!(a == b);
    let mut s = GHashSet::new();
    s.insert(a);
    s.insert(b);
    assert!(s.len() == 1);
}

#[test]
fn equality_is_by_bits() {
    let a = BitVec::from(&[true, false, true]);
    let b = BitVec::from_usize(3, 5);
    let c = BitVec::from_usize(4, 5);
    let d = BitVec::from_usize(3, 4);
    assert!(a == b);
    assert!(a.equals(&b));
    assert!(a != c);
    assert!(a != d);
    assert!(BitVec::new() == BitVec::from_elem(0, true));
    let wide = BitVec::ones(130);
    let mut other = BitVec::ones(130);
    assert!(wide == other);
    other.set(129, false);
    assert!(wide != other);
    other.set(129, true);
    other.set(64, false);
    assert!(!wide.equals(&other));
}

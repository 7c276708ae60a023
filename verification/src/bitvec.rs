use crate::bits::bit;
use crate::bits::lemma_clear_bit;
use crate::bits::lemma_equal_words;
use crate::bits::lemma_low_mask_bits;
use crate::bits::lemma_set_bit;
use crate::bits::lemma_test_bit;
use crate::bits::lemma_word_ops;
use crate::bits::lemma_zero_word;
use crate::bits::low_mask;
use crate::gvec::Gvec;
use crate::hex::hex_fixed;
use crate::hex::hex_short;
use crate::hex::push_hex_fixed;
use crate::hex::push_hex_short;
use std::ops::IndexMut;
use vstd::prelude::*;
use vstd::string::StringExecFns;

verus! {

/// Word `w` holds the first 64 bits of `s`, and zeros beyond the end of `s`.
pub open spec fn packs(s: Seq<bool>, w: u64) -> bool {
    forall|k: u64| k < 64 ==> #[trigger] bit(w, k) == (k < s.len() && s[k as int])
}

/// The 64 bits of a word, the least significant first.
pub open spec fn word_bits(w: u64) -> Seq<bool> {
    Seq::new(64, |k: int| bit(w, k as u64))
}

/// A growable sequence of bits, packed 64 to a word.
///
/// Its view is the sequence of its bits, the first pushed first.
#[derive(Hash)]
pub struct BitVec {
    bits: Gvec<u64>,
    last_len: usize,
}

impl View for BitVec {
    type V = Seq<bool>;

    closed spec fn view(&self) -> Seq<bool> {
        Seq::new(
            ((self.bits@.len() - 1) * 64 + self.last_len) as nat,
            |i: int| bit(self.bits@[i / 64], (i % 64) as u64),
        )
    }
}

impl BitVec {
    pub const WORD_SIZE: usize = 64;

    pub const WORD_SIZE_MASK: usize = 63;

    /// The words and the length of the last word fit together, whatever the
    /// unused bits of the last word hold.
    spec fn shaped(&self) -> bool {
        &&& self.bits@.len() >= 1
        &&& self.last_len <= 64
        &&& self.last_len == 0 ==> self.bits@.len() == 1
        &&& (self.bits@.len() - 1) * 64 + self.last_len <= usize::MAX
    }

    /// The representation is in order: at least one word, every word but the
    /// last full, and no bit set beyond the end.
    pub closed spec fn wf(&self) -> bool {
        &&& self.shaped()
        &&& forall|k: u64| self.last_len <= k < 64 ==> !#[trigger] bit(self.bits@.last(), k)
    }

    #[inline]
    pub fn new() -> (r: Self)
        ensures
            r.wf(),
            r@ == Seq::<bool>::empty(),
    {
        Self::default()
    }

    /// `len` bits, each equal to `val`.
    #[inline]
    pub fn from_elem(len: usize, val: bool) -> (r: Self)
        ensures
            r.wf(),
            r@ == Seq::new(len as nat, |i: int| val),
    {
        if len == 0 {
            return Self::default();
        }
        let v: u64 = if val {
            u64::MAX
        } else {
            0
        };
        let words: usize = len / Self::WORD_SIZE;
        let mut bits: Gvec<u64> = Gvec::new();
        while bits.len() < words
            invariant
                bits@.len() <= words,
                forall|j: int| 0 <= j < bits@.len() ==> bits@[j] == v,
            decreases words - bits@.len(),
        {
            bits.push(v);
        }
        let mut last_len: usize = len & Self::WORD_SIZE_MASK;
        assert(last_len == len % 64) by (bit_vector)
            requires
                last_len == len & 63,
        ;
        if last_len == 0 {
            last_len = 64;
        } else {
            assert(last_len < 64 ==> (1u64 << last_len) >= 1) by (bit_vector);
            bits.push(
                if val {
                    (1u64 << last_len) - 1
                } else {
                    0
                },
            );
        }
        let r = Self { bits, last_len };
        proof {
            assert(v == low_mask(if val {
                64u64
            } else {
                0u64
            })) by {
                assert((1u64 << 0u64) - 1 == 0) by (bit_vector);
            }
            assert(r.bits@.last() == low_mask(if val {
                last_len as u64
            } else {
                0u64
            })) by {
                assert((1u64 << 0u64) - 1 == 0) by (bit_vector);
            }
            assert forall|k: u64| r.last_len <= k < 64 implies !#[trigger] bit(r.bits@.last(), k) by {
                lemma_low_mask_bits(if val { last_len as u64 } else { 0u64 }, k);
            }
            assert forall|i: int| 0 <= i < len implies #[trigger] r@[i] == val by {
                let j = i / 64;
                let k = (i % 64) as u64;
                if j < r.bits@.len() - 1 || last_len == 64 {
                    lemma_low_mask_bits(if val { 64u64 } else { 0u64 }, k);
                } else {
                    lemma_low_mask_bits(if val { last_len as u64 } else { 0u64 }, k);
                }
            }
            assert(r@ =~= Seq::new(len as nat, |i: int| val));
        }
        r
    }

    /// The number of bits.
    #[inline]
    pub fn len(&self) -> (r: usize)
        requires
            self.wf(),
        ensures
            r == self@.len(),
    {
        (self.bits.len() - 1) * 64 + self.last_len
    }

    /// The number of words that hold a bit.
    #[inline]
    pub fn word_len(&self) -> (r: usize)
        requires
            self.wf(),
        ensures
            r == (self@.len() + 63) / 64,
    {
        let mut res: usize = self.bits.len();
        if self.last_len == 0 {
            res -= 1
        }
        res
    }

    #[inline]
    pub fn is_empty(&self) -> (r: bool)
        requires
            self.wf(),
        ensures
            r == (self@.len() == 0),
    {
        self.len() == 0
    }

    #[inline]
    pub fn clear(&mut self)
        ensures
            final(self).wf(),
            final(self)@ == Seq::<bool>::empty(),
    {
        *self = Self::default();
    }

    #[inline]
    pub fn get(&self, index: usize) -> (r: bool)
        requires
            self.wf(),
            index < self@.len(),
        ensures
            r == self@[index as int],
    {
        let word_index: usize = index / 64;
        let bit_index: usize = index % 64;
        let mask: u64 = 1u64 << bit_index;
        proof {
            lemma_test_bit(self.bits@[word_index as int], bit_index as u64);
        }
        (self.bits[word_index] & mask) != 0
    }

    #[inline]
    pub fn set(&mut self, index: usize, val: bool)
        requires
            old(self).wf(),
            index < old(self)@.len(),
        ensures
            final(self).wf(),
            final(self)@ == old(self)@.update(index as int, val),
    {
        let word_index: usize = index / 64;
        let bit_index: usize = index % 64;
        let mask: u64 = 1u64 << bit_index;
        let ghost w = self.bits@[word_index as int];
        let word = self.bits.index_mut(word_index);
        if val {
            *word |= mask;
        } else {
            *word &= !mask;
        }
        proof {
            let w2 = self.bits@[word_index as int];
            assert forall|k: u64| k < 64 implies #[trigger] bit(w2, k) == (if k == bit_index {
                val
            } else {
                bit(w, k)
            }) by {
                lemma_set_bit(w, bit_index as u64, k);
                lemma_clear_bit(w, bit_index as u64, k);
            }
            assert forall|i: int| 0 <= i < self@.len() implies #[trigger] self@[i] == old(
                self,
            )@.update(index as int, val)[i] by {
                if i / 64 == word_index as int {
                    assert(bit(w2, (i % 64) as u64) == (if (i % 64) as u64 == bit_index {
                        val
                    } else {
                        bit(w, (i % 64) as u64)
                    }));
                }
            }
            assert(self@ =~= old(self)@.update(index as int, val));
            assert forall|k: u64| self.last_len <= k < 64 implies !#[trigger] bit(
                self.bits@.last(),
                k,
            ) by {
                if word_index == self.bits@.len() - 1 {
                    assert(bit(w2, k) == bit(w, k));
                }
                assert(!bit(old(self).bits@.last(), k));
            }
        }
    }
}

impl BitVec {
    /// Clears whatever the last word holds beyond the end.
    #[inline]
    fn mask_last(&mut self)
        requires
            old(self).shaped(),
        ensures
            final(self).wf(),
            final(self).last_len == old(self).last_len,
            final(self).bits@.len() == old(self).bits@.len(),
            forall|j: int|
                0 <= j < old(self).bits@.len() - 1 ==> final(self).bits@[j] == old(self).bits@[j],
            forall|k: u64|
                k < 64 ==> #[trigger] bit(final(self).bits@.last(), k) == (k < old(self).last_len
                    && bit(old(self).bits@.last(), k)),
    {
        let ghost w = self.bits@.last();
        let ghost n = self.last_len as u64;
        if self.last_len == 64 {
            return ;
        }
        assert(n < 64 ==> (1u64 << n) >= 1) by (bit_vector);
        let mask: u64 = (1u64 << self.last_len) - 1;
        let at: usize = self.bits.len() - 1;
        let word = self.bits.index_mut(at);
        *word &= mask;
        proof {
            assert(mask == low_mask(n));
            assert forall|k: u64| k < 64 implies #[trigger] bit(self.bits@.last(), k) == (k < n
                && bit(w, k)) by {
                lemma_word_ops(w, mask, k);
                lemma_low_mask_bits(n, k);
            }
        }
    }

    /// `len` bits that hold the low bits of `v`, the least significant
    /// first, and zeros beyond bit 63.
    pub fn from_usize(len: usize, v: usize) -> (r: Self)
        ensures
            r.wf(),
            r@ == Seq::new(len as nat, |i: int| i < 64 && bit(v as u64, i as u64)),
    {
        if len == 0 {
            return Self::default();
        }
        let mut res = Self::from_elem(len, false);
        let ghost zeros = res.bits@;
        proof {
            assert(res@.len() == len);
            assert forall|j: int| 0 <= j < zeros.len() implies zeros[j] == 0 by {
                res.lemma_word(j);
                lemma_zero_word(zeros[j]);
                assert forall|k: u64| k < 64 implies !#[trigger] bit(zeros[j], k) by {
                    if j * 64 + k < res@.len() {
                        assert(!res@[j * 64 + k]);
                    }
                }
            }
        }
        *res.bits.index_mut(0usize) = v as u64;
        let ghost set = res.bits@;
        res.mask_last();
        proof {
            lemma_zero_word(0);
            assert(res@.len() == len);
            assert forall|i: int| 0 <= i < len implies #[trigger] res@[i] == (i < 64 && bit(
                v as u64,
                i as u64,
            )) by {
                let j = i / 64;
                let k = (i % 64) as u64;
                assert(res@[i] == bit(res.bits@[j], k));
                if j == res.bits@.len() - 1 {
                    assert(bit(res.bits@.last(), k) == (k < res.last_len && bit(set.last(), k)));
                    if j > 0 {
                        assert(set[j] == zeros[j]);
                    }
                } else {
                    assert(res.bits@[j] == set[j]);
                    if j > 0 {
                        assert(set[j] == zeros[j]);
                    }
                }
            }
            assert(res@ =~= Seq::new(len as nat, |i: int| i < 64 && bit(v as u64, i as u64)));
        }
        res
    }

    /// The first 64 bits as a number, the first bit the least significant,
    /// cut to the width of `usize`.
    pub fn to_usize(&self) -> (r: usize)
        requires
            self.wf(),
        ensures
            exists|w: u64| #[trigger] packs(self@, w) && r == w as usize,
    {
        if self.is_empty() {
            proof {
                lemma_zero_word(0);
                assert(packs(self@, 0));
                assert(0u64 as usize == 0) by (bit_vector);
            }
            return 0;
        }
        let w: u64 = self.bits[0usize];
        proof {
            assert forall|k: u64| k < 64 implies #[trigger] bit(w, k) == (k < self@.len()
                && self@[k as int]) by {
                if k < self@.len() {
                    assert(self@[k as int] == bit(self.bits@[k as int / 64], (k as int % 64) as u64));
                } else {
                    assert(self.bits@.len() == 1);
                    assert(!bit(self.bits@.last(), k));
                }
            }
            assert(packs(self@, w));
        }
        #[verifier::truncate]
        (w as usize)
    }

    /// Appends one bit.
    #[inline]
    pub fn push(&mut self, bit: bool)
        requires
            old(self).wf(),
            old(self)@.len() < usize::MAX,
        ensures
            final(self).wf(),
            final(self)@ == old(self)@.push(bit),
    {
        if self.last_len == 64 {
            self.bits.push(0);
            self.last_len = 0;
        }
        proof {
            lemma_zero_word(0);
        }
        let ghost w = self.bits@.last();
        let ghost at = self.last_len as u64;
        assert(forall|k: u64| at <= k < 64 ==> !#[trigger] crate::bits::bit(w, k));
        let mask: u64 = 1u64 << self.last_len;
        let n: usize = self.bits.len() - 1;
        let x = self.bits.index_mut(n);
        if bit {
            *x |= mask;
        } else {
            *x &= !mask;
        }
        self.last_len += 1;
        proof {
            let w2 = self.bits@.last();
            assert forall|k: u64| k < 64 implies #[trigger] crate::bits::bit(w2, k) == (if k == at {
                bit
            } else {
                crate::bits::bit(w, k)
            }) by {
                lemma_set_bit(w, at, k);
                lemma_clear_bit(w, at, k);
            }
            assert forall|i: int| 0 <= i < self@.len() implies #[trigger] self@[i] == old(
                self,
            )@.push(bit)[i] by {
                if i / 64 == n as int {
                    assert(crate::bits::bit(w2, (i % 64) as u64) == (if (i % 64) as u64 == at {
                        bit
                    } else {
                        crate::bits::bit(w, (i % 64) as u64)
                    }));
                }
            }
            assert(self@ =~= old(self)@.push(bit));
        }
    }

    /// Appends the 64 bits of `word`, the least significant first. The
    /// bits held so far must fill their words.
    #[inline]
    pub fn push_word(&mut self, word: u64)
        requires
            old(self).wf(),
            old(self)@.len() % 64 == 0,
            old(self)@.len() + 64 <= usize::MAX,
        ensures
            final(self).wf(),
            final(self)@ == old(self)@ + word_bits(word),
    {
        if self.last_len == 0 {
            let l: usize = self.bits.len() - 1;
            *self.bits.index_mut(l) = word;
            self.last_len = 64;
        } else {
            self.bits.push(word);
        }
        proof {
            assert(self@ =~= old(self)@ + word_bits(word));
        }
    }

    /// `len` bits, all clear.
    #[inline]
    pub fn zero(len: usize) -> (r: Self)
        requires
            len > 0,
        ensures
            r.wf(),
            r@ == Seq::new(len as nat, |i: int| false),
    {
        Self::from_elem(len, false)
    }

    /// `len` bits, all set.
    #[inline]
    pub fn ones(len: usize) -> (r: Self)
        requires
            len > 0,
        ensures
            r.wf(),
            r@ == Seq::new(len as nat, |i: int| true),
    {
        Self::from_elem(len, true)
    }

    /// `len` bits of which the first is set and no other.
    #[inline]
    pub fn one(len: usize) -> (r: Self)
        requires
            len > 0,
        ensures
            r.wf(),
            r@ == Seq::new(len as nat, |i: int| i == 0),
    {
        let mut r = Self::from_elem(len, false);
        r.set(0, true);
        proof {
            assert(r@ =~= Seq::new(len as nat, |i: int| i == 0));
        }
        r
    }

    /// Word `j` of a well-formed vector holds bits `64 * j` and following,
    /// and zeros beyond the end.
    proof fn lemma_word(&self, j: int)
        requires
            self.wf(),
            0 <= j < self.bits@.len(),
        ensures
            forall|k: u64|
                k < 64 ==> #[trigger] bit(self.bits@[j], k) == (j * 64 + k < self@.len() && self@[j
                    * 64 + k]),
    {
        assert forall|k: u64| k < 64 implies #[trigger] bit(self.bits@[j], k) == (j * 64 + k
            < self@.len() && self@[j * 64 + k]) by {
            let i = j * 64 + k;
            if i < self@.len() {
                assert(i / 64 == j && i % 64 == k);
            } else {
                assert(j == self.bits@.len() - 1);
                assert(!bit(self.bits@.last(), k));
            }
        }
    }

    /// Whether no bit is set.
    #[inline]
    pub fn is_zero(&self) -> (r: bool)
        requires
            self.wf(),
            self@.len() > 0,
        ensures
            r == forall|i: int| 0 <= i < self@.len() ==> !self@[i],
    {
        let n: usize = self.word_len();
        let mut i: usize = 0;
        while i < n
            invariant
                self.wf(),
                i <= n,
                n == self.bits@.len(),
                forall|j: int| 0 <= j < i * 64 && j < self@.len() ==> !self@[j],
            decreases n - i,
        {
            proof {
                self.lemma_word(i as int);
                lemma_zero_word(self.bits@[i as int]);
            }
            if self.bits[i] != 0 {
                proof {
                    let k = choose|k: u64| k < 64 && #[trigger] bit(self.bits@[i as int], k);
                    assert(self@[i * 64 + k]);
                }
                return false;
            }
            proof {
                assert forall|j: int| 0 <= j < (i + 1) * 64 && j < self@.len() implies !self@[j] by {
                    if j >= i * 64 {
                        assert(!bit(self.bits@[i as int], (j - i * 64) as u64));
                    }
                }
            }
            i += 1;
        }
        true
    }

    /// Whether the first bit is set and no other.
    #[inline]
    pub fn is_one(&self) -> (r: bool)
        requires
            self.wf(),
            self@.len() > 0,
        ensures
            r == forall|i: int| 0 <= i < self@.len() ==> self@[i] == (i == 0),
    {
        proof {
            self.lemma_word(0);
            lemma_equal_words(self.bits@[0], 1);
            assert forall|k: u64| k < 64 implies #[trigger] bit(1, k) == (k == 0) by {
                assert(1u64 == low_mask(1)) by {
                    assert((1u64 << 1u64) - 1 == 1) by (bit_vector);
                }
                lemma_low_mask_bits(1, k);
            }
        }
        if self.bits[0usize] != 1u64 {
            proof {
                let k = choose|k: u64| k < 64 && #[trigger] bit(self.bits@[0], k) != bit(1, k);
                if k < self@.len() {
                    assert(self@[k as int] != (k == 0));
                } else {
                    assert(!bit(self.bits@[0], k));
                }
            }
            return false;
        }
        let n: usize = self.word_len();
        let mut i: usize = 1;
        proof {
            assert forall|j: int| 0 <= j < 64 && j < self@.len() implies self@[j] == (j == 0) by {
                assert(bit(self.bits@[0], j as u64) == bit(1, j as u64));
            }
        }
        while i < n
            invariant
                self.wf(),
                1 <= i <= n,
                n == self.bits@.len(),
                forall|j: int| 0 <= j < i * 64 && j < self@.len() ==> self@[j] == (j == 0),
            decreases n - i,
        {
            proof {
                self.lemma_word(i as int);
                lemma_zero_word(self.bits@[i as int]);
            }
            if self.bits[i] != 0 {
                proof {
                    let k = choose|k: u64| k < 64 && #[trigger] bit(self.bits@[i as int], k);
                    assert(self@[i * 64 + k]);
                }
                return false;
            }
            proof {
                assert forall|j: int| 0 <= j < (i + 1) * 64 && j < self@.len() implies self@[j] == (j
                    == 0) by {
                    if j >= i * 64 {
                        assert(!bit(self.bits@[i as int], (j - i * 64) as u64));
                    }
                }
            }
            i += 1;
        }
        true
    }

    /// Whether every bit is set.
    #[inline]
    pub fn is_ones(&self) -> (r: bool)
        requires
            self.wf(),
            self@.len() > 0,
        ensures
            r == forall|i: int| 0 <= i < self@.len() ==> self@[i],
    {
        let wl: usize = self.word_len();
        let mut i: usize = 0;
        while i < wl - 1
            invariant
                self.wf(),
                self@.len() > 0,
                i <= wl - 1,
                wl == self.bits@.len(),
                forall|j: int| 0 <= j < i * 64 && j < self@.len() ==> self@[j],
            decreases wl - i,
        {
            proof {
                self.lemma_word(i as int);
                lemma_equal_words(self.bits@[i as int], u64::MAX);
                assert forall|k: u64| k < 64 implies #[trigger] bit(u64::MAX, k) by {
                    lemma_low_mask_bits(64, k);
                }
            }
            if self.bits[i] != u64::MAX {
                proof {
                    let k = choose|k: u64|
                        k < 64 && #[trigger] bit(self.bits@[i as int], k) != bit(u64::MAX, k);
                    assert(!self@[i * 64 + k]);
                }
                return false;
            }
            proof {
                assert forall|j: int| 0 <= j < (i + 1) * 64 && j < self@.len() implies self@[j] by {
                    if j >= i * 64 {
                        assert(bit(self.bits@[i as int], (j - i * 64) as u64) == bit(
                            u64::MAX,
                            (j - i * 64) as u64,
                        ));
                    }
                }
            }
            i += 1;
        }
        let ghost n = self.last_len as u64;
        assert(n < 64 ==> (1u64 << n) >= 1) by (bit_vector);
        let mask: u64 = if self.last_len == 64 {
            u64::MAX
        } else {
            (1u64 << self.last_len) - 1
        };
        proof {
            assert(mask == low_mask(n));
            self.lemma_word(wl - 1);
            lemma_equal_words(self.bits@[wl - 1], mask);
            assert forall|k: u64| k < 64 implies #[trigger] bit(mask, k) == (k < n) by {
                lemma_low_mask_bits(n, k);
            }
            if self.bits@[wl - 1] == mask {
                assert forall|j: int| 0 <= j < self@.len() implies self@[j] by {
                    if j >= (wl - 1) * 64 {
                        assert(bit(self.bits@[wl - 1], (j - (wl - 1) * 64) as u64) == bit(
                            mask,
                            (j - (wl - 1) * 64) as u64,
                        ));
                    }
                }
            } else {
                let k = choose|k: u64|
                    k < 64 && #[trigger] bit(self.bits@[wl - 1], k) != bit(mask, k);
                if k < n {
                    assert(!self@[(wl - 1) * 64 + k]);
                } else {
                    assert(!bit(self.bits@.last(), k));
                }
            }
        }
        self.bits[wl - 1] == mask
    }
}

impl Default for BitVec {
    #[inline]
    fn default() -> (r: Self)
        ensures
            r.wf(),
            r@ == Seq::<bool>::empty(),
    {
        let mut bits: Gvec<u64> = Gvec::new();
        bits.push(0);
        let r = Self { bits, last_len: 0 };
        proof {
            lemma_zero_word(0);
            assert(r@ =~= Seq::<bool>::empty());
        }
        r
    }
}

impl BitVec {
    /// Appends the bits of `bits`, in order.
    pub fn extend(&mut self, bits: &[bool])
        requires
            old(self).wf(),
            old(self)@.len() + bits@.len() <= usize::MAX,
        ensures
            final(self).wf(),
            final(self)@ == old(self)@ + bits@,
    {
        let n: usize = bits.len();
        let mut i: usize = 0;
        while i < n
            invariant
                self.wf(),
                i <= n,
                n == bits@.len(),
                old(self)@.len() + n <= usize::MAX,
                self@ == old(self)@ + bits@.take(i as int),
            decreases n - i,
        {
            self.push(bits[i]);
            proof {
                assert(bits@.take(i + 1) =~= bits@.take(i as int).push(bits@[i as int]));
            }
            i += 1;
        }
        proof {
            assert(bits@.take(n as int) =~= bits@);
        }
    }

    /// A vector of `num_word` words of bits drawn from `rng`.
    #[inline]
    pub fn new_rand(num_word: usize, rng: &mut rand::rngs::StdRng) -> (r: Self)
        requires
            num_word > 0,
            num_word * 64 <= usize::MAX,
        ensures
            r.wf(),
            r@.len() == num_word * 64,
    {
        Self { bits: Gvec::new_rand(num_word, rng), last_len: 64 }
    }

    /// The bits from first to last, to be taken from either end.
    pub fn iter(&self) -> (r: Iter<'_>)
        requires
            self.wf(),
        ensures
            r.wf(),
            r@ == self@,
    {
        let r = Iter { bv: self, start: 0, end: self.len() };
        proof {
            assert(r@ =~= self@);
        }
        r
    }

    /// The bits from first to last, to be taken from either end; the
    /// vector is given up.
    pub fn into_iter(self) -> (r: IntoIter)
        requires
            self.wf(),
        ensures
            r.wf(),
            r@ == self@,
    {
        let len: usize = self.len();
        let ghost bits = self@;
        let r = IntoIter { bv: self, start: 0, end: len };
        proof {
            assert(r@ =~= bits);
        }
        r
    }
}

/// The bits of a borrowed `BitVec` that have not been taken yet. Its view
/// is the sequence of those bits.
pub struct Iter<'a> {
    bv: &'a BitVec,
    start: usize,
    end: usize,
}

impl<'a> Iter<'a> {
    pub closed spec fn wf(&self) -> bool {
        self.bv.wf() && self.start <= self.end <= self.bv@.len()
    }

    pub closed spec fn view(&self) -> Seq<bool> {
        self.bv@.subrange(self.start as int, self.end as int)
    }

    /// Takes the first of the remaining bits.
    #[inline]
    pub fn next(&mut self) -> (r: Option<bool>)
        requires
            old(self).wf(),
        ensures
            final(self).wf(),
            r == if old(self)@.len() > 0 {
                Some(old(self)@.first())
            } else {
                None
            },
            final(self)@ == if old(self)@.len() > 0 {
                old(self)@.drop_first()
            } else {
                old(self)@
            },
    {
        if self.start < self.end {
            let res = self.bv.get(self.start);
            self.start += 1;
            proof {
                assert(self@ =~= old(self)@.drop_first());
            }
            Some(res)
        } else {
            None
        }
    }

    /// The number of remaining bits, as a lower and an upper bound.
    #[inline]
    pub fn size_hint(&self) -> (r: (usize, Option<usize>))
        requires
            self.wf(),
        ensures
            r.0 == self@.len(),
            r.1 == Some(r.0),
    {
        let len: usize = self.end - self.start;
        (len, Some(len))
    }

    /// Takes the last of the remaining bits.
    #[inline]
    pub fn next_back(&mut self) -> (r: Option<bool>)
        requires
            old(self).wf(),
        ensures
            final(self).wf(),
            r == if old(self)@.len() > 0 {
                Some(old(self)@.last())
            } else {
                None
            },
            final(self)@ == if old(self)@.len() > 0 {
                old(self)@.drop_last()
            } else {
                old(self)@
            },
    {
        if self.start < self.end {
            self.end -= 1;
            proof {
                assert(self@ =~= old(self)@.drop_last());
            }
            Some(self.bv.get(self.end))
        } else {
            None
        }
    }
}

/// The bits of a `BitVec` that have not been taken yet. Its view is the
/// sequence of those bits.
pub struct IntoIter {
    bv: BitVec,
    start: usize,
    end: usize,
}

impl IntoIter {
    pub closed spec fn wf(&self) -> bool {
        self.bv.wf() && self.start <= self.end <= self.bv@.len()
    }

    pub closed spec fn view(&self) -> Seq<bool> {
        self.bv@.subrange(self.start as int, self.end as int)
    }

    /// Takes the first of the remaining bits.
    #[inline]
    pub fn next(&mut self) -> (r: Option<bool>)
        requires
            old(self).wf(),
        ensures
            final(self).wf(),
            r == if old(self)@.len() > 0 {
                Some(old(self)@.first())
            } else {
                None
            },
            final(self)@ == if old(self)@.len() > 0 {
                old(self)@.drop_first()
            } else {
                old(self)@
            },
    {
        if self.start < self.end {
            let res = self.bv.get(self.start);
            self.start += 1;
            proof {
                assert(self@ =~= old(self)@.drop_first());
            }
            Some(res)
        } else {
            None
        }
    }

    /// The number of remaining bits, as a lower and an upper bound.
    #[inline]
    pub fn size_hint(&self) -> (r: (usize, Option<usize>))
        requires
            self.wf(),
        ensures
            r.0 == self@.len(),
            r.1 == Some(r.0),
    {
        let len: usize = self.end - self.start;
        (len, Some(len))
    }

    /// Takes the last of the remaining bits.
    #[inline]
    pub fn next_back(&mut self) -> (r: Option<bool>)
        requires
            old(self).wf(),
        ensures
            final(self).wf(),
            r == if old(self)@.len() > 0 {
                Some(old(self)@.last())
            } else {
                None
            },
            final(self)@ == if old(self)@.len() > 0 {
                old(self)@.drop_last()
            } else {
                old(self)@
            },
    {
        if self.start < self.end {
            self.end -= 1;
            proof {
                assert(self@ =~= old(self)@.drop_last());
            }
            Some(self.bv.get(self.end))
        } else {
            None
        }
    }
}

impl Clone for BitVec {
    fn clone(&self) -> (r: Self)
        ensures
            r@ == self@,
            self.wf() ==> r.wf(),
    {
        let r = Self { bits: self.bits.clone(), last_len: self.last_len };
        proof {
            assert(r.bits@ =~= self.bits@);
        }
        r
    }
}

/// A bitwise operation on two words.
#[derive(Clone, Copy)]
enum WordOp {
    And,
    Or,
    Xor,
}

impl WordOp {
    /// What the operation makes of two bits.
    spec fn of_bits(self, x: bool, y: bool) -> bool {
        match self {
            WordOp::And => x && y,
            WordOp::Or => x || y,
            WordOp::Xor => x != y,
        }
    }

    /// The operation on two words: on each pair of bits alike.
    fn apply(self, x: u64, y: u64) -> (r: u64)
        ensures
            forall|k: u64| k < 64 ==> #[trigger] bit(r, k) == self.of_bits(bit(x, k), bit(y, k)),
    {
        let r: u64 = match self {
            WordOp::And => x & y,
            WordOp::Or => x | y,
            WordOp::Xor => x ^ y,
        };
        proof {
            assert forall|k: u64| k < 64 implies #[trigger] bit(r, k) == self.of_bits(
                bit(x, k),
                bit(y, k),
            ) by {
                lemma_word_ops(x, y, k);
            }
        }
        r
    }
}

impl BitVec {
    /// The bits of `a` and `b`, combined pairwise by `op`.
    fn combine(a: &BitVec, b: &BitVec, op: WordOp) -> (r: BitVec)
        requires
            a.wf(),
            b.wf(),
            a@.len() == b@.len(),
        ensures
            r.wf(),
            r@.len() == a@.len(),
            forall|i: int| 0 <= i < a@.len() ==> #[trigger] r@[i] == op.of_bits(a@[i], b@[i]),
    {
        let n: usize = a.bits.len();
        let mut bits: Gvec<u64> = Gvec::new();
        let mut j: usize = 0;
        while j < n
            invariant
                j <= n,
                n == a.bits@.len(),
                n == b.bits@.len(),
                bits@.len() == j,
                forall|w: int, k: u64|
                    0 <= w < j && k < 64 ==> #[trigger] bit(bits@[w], k) == op.of_bits(
                        bit(a.bits@[w], k),
                        bit(b.bits@[w], k),
                    ),
            decreases n - j,
        {
            bits.push(op.apply(a.bits[j], b.bits[j]));
            j += 1;
        }
        let r = BitVec { bits, last_len: a.last_len };
        proof {
            assert forall|k: u64| r.last_len <= k < 64 implies !#[trigger] bit(r.bits@.last(), k) by {
                assert(!bit(a.bits@.last(), k));
                assert(!bit(b.bits@.last(), k));
                assert(bit(r.bits@[n - 1], k) == op.of_bits(
                    bit(a.bits@[n - 1], k),
                    bit(b.bits@[n - 1], k),
                ));
            }
            assert forall|i: int| 0 <= i < a@.len() implies #[trigger] r@[i] == op.of_bits(
                a@[i],
                b@[i],
            ) by {
                assert(bit(r.bits@[i / 64], (i % 64) as u64) == op.of_bits(
                    bit(a.bits@[i / 64], (i % 64) as u64),
                    bit(b.bits@[i / 64], (i % 64) as u64),
                ));
            }
        }
        r
    }

    /// Every bit inverted.
    pub fn inverted(&self) -> (r: BitVec)
        requires
            self.wf(),
        ensures
            r.wf(),
            r@ == Seq::new(self@.len(), |i: int| !self@[i]),
    {
        let n: usize = self.bits.len();
        let mut bits: Gvec<u64> = Gvec::new();
        let mut j: usize = 0;
        while j < n
            invariant
                j <= n,
                n == self.bits@.len(),
                bits@.len() == j,
                forall|w: int| 0 <= w < j ==> #[trigger] bits@[w] == !self.bits@[w],
            decreases n - j,
        {
            let x: u64 = self.bits[j];
            bits.push(!x);
            j += 1;
        }
        let mut r = BitVec { bits, last_len: self.last_len };
        let ghost whole = r.bits@;
        r.mask_last();
        proof {
            assert forall|i: int| 0 <= i < self@.len() implies #[trigger] r@[i] == !self@[i] by {
                let w = i / 64;
                let k = (i % 64) as u64;
                lemma_word_ops(self.bits@[w], 0, k);
                assert(whole[w] == !self.bits@[w]);
                if w == n - 1 {
                    assert(bit(r.bits@.last(), k) == (k < r.last_len && bit(whole.last(), k)));
                } else {
                    assert(r.bits@[w] == whole[w]);
                }
            }
            assert(r@ =~= Seq::new(self@.len(), |i: int| !self@[i]));
        }
        r
    }

    /// Keeps the bits that are set in `rhs` too.
    #[inline]
    pub fn bitand_assign(&mut self, rhs: &BitVec)
        requires
            old(self).wf(),
            rhs.wf(),
            old(self)@.len() == rhs@.len(),
        ensures
            final(self).wf(),
            final(self)@ == Seq::new(rhs@.len(), |i: int| old(self)@[i] && rhs@[i]),
    {
        let r = Self::combine(self, rhs, WordOp::And);
        proof {
            assert(r@ =~= Seq::new(rhs@.len(), |i: int| self@[i] && rhs@[i]));
        }
        *self = r;
    }

    /// Sets the bits that are set in `rhs`.
    #[inline]
    pub fn bitor_assign(&mut self, rhs: &BitVec)
        requires
            old(self).wf(),
            rhs.wf(),
            old(self)@.len() == rhs@.len(),
        ensures
            final(self).wf(),
            final(self)@ == Seq::new(rhs@.len(), |i: int| old(self)@[i] || rhs@[i]),
    {
        let r = Self::combine(self, rhs, WordOp::Or);
        proof {
            assert(r@ =~= Seq::new(rhs@.len(), |i: int| self@[i] || rhs@[i]));
        }
        *self = r;
    }

    /// Inverts the bits that are set in `rhs`.
    #[inline]
    pub fn bitxor_assign(&mut self, rhs: &BitVec)
        requires
            old(self).wf(),
            rhs.wf(),
            old(self)@.len() == rhs@.len(),
        ensures
            final(self).wf(),
            final(self)@ == Seq::new(rhs@.len(), |i: int| old(self)@[i] != rhs@[i]),
    {
        let r = Self::combine(self, rhs, WordOp::Xor);
        proof {
            assert(r@ =~= Seq::new(rhs@.len(), |i: int| self@[i] != rhs@[i]));
        }
        *self = r;
    }
}

impl vstd::std_specs::ops::NotSpecImpl for &BitVec {
    open spec fn obeys_not_spec() -> bool {
        false
    }

    open spec fn not_req(self) -> bool {
        self.wf()
    }

    open spec fn not_spec(self) -> BitVec {
        arbitrary()
    }
}

impl std::ops::Not for &BitVec {
    type Output = BitVec;

    /// Every bit inverted.
    #[inline]
    fn not(self) -> (r: BitVec)
        ensures
            r.wf(),
            r@ == Seq::new(self@.len(), |i: int| !self@[i]),
    {
        self.inverted()
    }
}

impl vstd::std_specs::ops::BitAndSpecImpl for BitVec {
    open spec fn obeys_bitand_spec() -> bool {
        false
    }

    open spec fn bitand_req(self, rhs: BitVec) -> bool {
        self.wf() && rhs.wf() && self@.len() == rhs@.len()
    }

    open spec fn bitand_spec(self, rhs: BitVec) -> BitVec {
        arbitrary()
    }
}

impl std::ops::BitAnd for BitVec {
    type Output = BitVec;

    /// The bits that are set in both.
    #[inline]
    fn bitand(self, rhs: BitVec) -> (r: BitVec)
        ensures
            r.wf(),
            r@ == Seq::new(self@.len(), |i: int| self@[i] && rhs@[i]),
    {
        let r = BitVec::combine(&self, &rhs, WordOp::And);
        proof {
            assert(r@ =~= Seq::new(self@.len(), |i: int| self@[i] && rhs@[i]));
        }
        r
    }
}

impl vstd::std_specs::ops::BitOrSpecImpl for BitVec {
    open spec fn obeys_bitor_spec() -> bool {
        false
    }

    open spec fn bitor_req(self, rhs: BitVec) -> bool {
        self.wf() && rhs.wf() && self@.len() == rhs@.len()
    }

    open spec fn bitor_spec(self, rhs: BitVec) -> BitVec {
        arbitrary()
    }
}

impl std::ops::BitOr for BitVec {
    type Output = BitVec;

    /// The bits that are set in either.
    #[inline]
    fn bitor(self, rhs: BitVec) -> (r: BitVec)
        ensures
            r.wf(),
            r@ == Seq::new(self@.len(), |i: int| self@[i] || rhs@[i]),
    {
        let r = BitVec::combine(&self, &rhs, WordOp::Or);
        proof {
            assert(r@ =~= Seq::new(self@.len(), |i: int| self@[i] || rhs@[i]));
        }
        r
    }
}

impl vstd::std_specs::ops::BitXorSpecImpl for BitVec {
    open spec fn obeys_bitxor_spec() -> bool {
        false
    }

    open spec fn bitxor_req(self, rhs: BitVec) -> bool {
        self.wf() && rhs.wf() && self@.len() == rhs@.len()
    }

    open spec fn bitxor_spec(self, rhs: BitVec) -> BitVec {
        arbitrary()
    }
}

impl std::ops::BitXor for BitVec {
    type Output = BitVec;

    /// The bits that are set in exactly one of the two.
    #[inline]
    fn bitxor(self, rhs: BitVec) -> (r: BitVec)
        ensures
            r.wf(),
            r@ == Seq::new(self@.len(), |i: int| self@[i] != rhs@[i]),
    {
        let r = BitVec::combine(&self, &rhs, WordOp::Xor);
        proof {
            assert(r@ =~= Seq::new(self@.len(), |i: int| self@[i] != rhs@[i]));
        }
        r
    }
}

impl<'a> vstd::std_specs::convert::FromSpecImpl<&'a [bool]> for BitVec {
    open spec fn obeys_from_spec() -> bool {
        false
    }

    open spec fn from_spec(value: &'a [bool]) -> BitVec {
        arbitrary()
    }
}

impl<'a> From<&'a [bool]> for BitVec {
    /// The bits of `value`, in order.
    #[inline]
    fn from(value: &'a [bool]) -> (r: BitVec)
        ensures
            r.wf(),
            r@ == value@,
    {
        let n: usize = value.len();
        assert(value@.len() == n);
        let mut r = BitVec::new();
        r.extend(value);
        proof {
            assert(Seq::<bool>::empty() + value@ =~= value@);
        }
        r
    }
}

impl<'a, const N: usize> vstd::std_specs::convert::FromSpecImpl<&'a [bool; N]> for BitVec {
    open spec fn obeys_from_spec() -> bool {
        false
    }

    open spec fn from_spec(value: &'a [bool; N]) -> BitVec {
        arbitrary()
    }
}

impl<'a, const N: usize> From<&'a [bool; N]> for BitVec {
    /// The bits of `value`, in order.
    #[inline]
    fn from(value: &'a [bool; N]) -> (r: BitVec)
        ensures
            r.wf(),
            r@ == value@,
    {
        let mut r = BitVec::new();
        r.extend(value.as_slice());
        proof {
            assert(Seq::<bool>::empty() + value@ =~= value@);
        }
        r
    }
}

/// The word that holds bits `64 * j` to `64 * j + 63` of `s`, with zeros
/// beyond the end of `s`.
pub open spec fn word_at(s: Seq<bool>, j: int) -> u64 {
    choose|w: u64| #[trigger] packs(s.skip(64 * j), w)
}

/// The bits as text, the last bit first; "[]" where there is no bit.
pub open spec fn binary_text(s: Seq<bool>) -> Seq<char> {
    if s.len() == 0 {
        seq!['[', ']']
    } else {
        Seq::new(
            s.len(),
            |i: int|
                if s[s.len() - 1 - i] {
                    '1'
                } else {
                    '0'
                },
        )
    }
}

/// The 16 digits of each of the words below word `j`, the highest first.
pub open spec fn hex_tail(s: Seq<bool>, j: int, upper: bool) -> Seq<char>
    decreases j,
{
    if j <= 0 {
        Seq::empty()
    } else {
        hex_fixed(word_at(s, j - 1), 16, upper) + hex_tail(s, j - 1, upper)
    }
}

/// The bits as a hexadecimal number, the first bit the least significant:
/// "[]" where there is no bit, "0x0" where no bit is set, and else "0x",
/// the digits of the highest word without leading zeros and the 16 digits
/// of each lower word.
pub open spec fn hex_text(s: Seq<bool>, upper: bool) -> Seq<char> {
    if s.len() == 0 {
        seq!['[', ']']
    } else if forall|i: int| 0 <= i < s.len() ==> !s[i] {
        seq!['0', 'x', '0']
    } else {
        seq!['0', 'x'] + hex_short(word_at(s, (s.len() + 63) / 64 - 1), upper) + hex_tail(
            s,
            (s.len() + 63) / 64 - 1,
            upper,
        )
    }
}

impl BitVec {
    /// Word `j` of the representation is the word that the bits determine.
    proof fn lemma_word_at(&self, j: int)
        requires
            self.wf(),
            0 <= j < self.bits@.len(),
        ensures
            word_at(self@, j) == self.bits@[j],
    {
        let part = self@.skip(64 * j);
        let w = self.bits@[j];
        self.lemma_word(j);
        assert forall|k: u64| k < 64 implies #[trigger] bit(w, k) == (k < part.len() && part[k as int]) by {
            if k < part.len() {
                assert(part[k as int] == self@[64 * j + k]);
            }
        }
        assert(packs(part, w));
        let c = word_at(self@, j);
        assert(packs(part, c));
        lemma_equal_words(c, w);
        assert forall|k: u64| k < 64 implies #[trigger] bit(c, k) == bit(w, k) by {}
    }

    /// The bits as text, the last bit first; "[]" where there is no bit.
    pub fn to_string(&self) -> (r: String)
        requires
            self.wf(),
        ensures
            r@ == binary_text(self@),
    {
        proof {
            reveal_strlit("[]");
            reveal_strlit("1");
            reveal_strlit("0");
        }
        let mut out = String::new();
        if self.is_empty() {
            out.append("[]");
            proof {
                assert(out@ =~= binary_text(self@));
            }
            return out;
        }
        let n: usize = self.len();
        let mut i: usize = n;
        while i > 0
            invariant
                self.wf(),
                i <= n,
                n == self@.len(),
                n > 0,
                "1"@ == seq!['1'],
                "0"@ == seq!['0'],
                out@ == binary_text(self@).take(n - i),
            decreases i,
        {
            i -= 1;
            if self.get(i) {
                out.append("1");
            } else {
                out.append("0");
            }
            proof {
                let t = binary_text(self@);
                assert(t.take(n - i) =~= t.take(n - i - 1).push(t[n - i - 1]));
            }
        }
        proof {
            assert(binary_text(self@).take(n as int) =~= binary_text(self@));
        }
        out
    }

    /// The bits as a hexadecimal number, with digits in lower or upper case.
    fn to_hex(&self, upper: bool) -> (r: String)
        requires
            self.wf(),
        ensures
            r@ == hex_text(self@, upper),
    {
        proof {
            reveal_strlit("[]");
            reveal_strlit("0x");
            reveal_strlit("0");
        }
        let mut out = String::new();
        if self.is_empty() {
            out.append("[]");
            proof {
                assert(out@ =~= hex_text(self@, upper));
            }
            return out;
        }
        out.append("0x");
        if self.is_zero() {
            out.append("0");
            proof {
                assert(out@ =~= hex_text(self@, upper));
            }
            return out;
        }
        let wl: usize = self.word_len();
        proof {
            self.lemma_word_at(wl - 1);
        }
        push_hex_short(&mut out, self.bits[wl - 1], upper);
        let ghost head = out@;
        let mut i: usize = wl - 1;
        while i > 0
            invariant
                self.wf(),
                i <= wl - 1,
                wl == self.bits@.len(),
                out@ + hex_tail(self@, i as int, upper) == head + hex_tail(
                    self@,
                    wl - 1,
                    upper,
                ),
            decreases i,
        {
            i -= 1;
            proof {
                self.lemma_word_at(i as int);
            }
            let ghost before = out@;
            push_hex_fixed(&mut out, self.bits[i], upper);
            proof {
                assert(out@ + hex_tail(self@, i as int, upper) =~= before + hex_tail(
                    self@,
                    i + 1,
                    upper,
                ));
            }
        }
        proof {
            assert(out@ + hex_tail(self@, 0, upper) =~= out@);
            assert(head =~= seq!['0', 'x'] + hex_short(word_at(self@, wl - 1), upper));
        }
        out
    }

    /// The bits as a hexadecimal number with the digits a to f.
    pub fn to_lower_hex(&self) -> (r: String)
        requires
            self.wf(),
        ensures
            r@ == hex_text(self@, false),
    {
        self.to_hex(false)
    }

    /// The bits as a hexadecimal number with the digits A to F.
    pub fn to_upper_hex(&self) -> (r: String)
        requires
            self.wf(),
        ensures
            r@ == hex_text(self@, true),
    {
        self.to_hex(true)
    }
}

impl BitVec {
    /// Whether the representation is in order.
    fn is_wf(&self) -> (r: bool)
        ensures
            r == self.wf(),
    {
        let n: usize = self.bits.len();
        if n == 0 || self.last_len > 64 {
            return false;
        }
        if self.last_len == 0 && n != 1 {
            return false;
        }
        if n - 1 > (usize::MAX - self.last_len) / 64 {
            return false;
        }
        if self.last_len == 64 {
            return true;
        }
        let ghost at = self.last_len as u64;
        assert(at < 64 ==> (1u64 << at) >= 1) by (bit_vector);
        let mask: u64 = (1u64 << self.last_len) - 1;
        let w: u64 = self.bits[n - 1];
        proof {
            assert(w == self.bits@.last());
            assert(self.shaped());
            assert(mask == low_mask(at));
            lemma_zero_word(w & !mask);
            assert forall|k: u64| k < 64 implies #[trigger] bit(w & !mask, k) == (k >= at && bit(
                w,
                k,
            )) by {
                lemma_word_ops(w, !mask, k);
                lemma_word_ops(mask, 0, k);
                lemma_low_mask_bits(at, k);
            }
            if (w & !mask) == 0 {
                assert forall|k: u64| at <= k < 64 implies !#[trigger] bit(w, k) by {
                    assert(!bit(w & !mask, k));
                }
                assert(self.wf());
            } else {
                let k = choose|k: u64| k < 64 && #[trigger] bit(w & !mask, k);
                assert(bit(w, k) && k >= at);
                assert(!self.wf());
            }
        }
        (w & !mask) == 0
    }

    /// Whether both hold the same bits.
    pub fn equals(&self, other: &BitVec) -> (r: bool)
        requires
            self.wf(),
            other.wf(),
        ensures
            r == (self@ == other@),
    {
        if self.len() != other.len() {
            return false;
        }
        let n: usize = self.word_len();
        let mut i: usize = 0;
        while i < n
            invariant
                self.wf(),
                other.wf(),
                self@.len() == other@.len(),
                i <= n,
                n == self.bits@.len() || (n == 0 && self@.len() == 0),
                self.bits@.len() == other.bits@.len(),
                forall|j: int| 0 <= j < i * 64 && j < self@.len() ==> self@[j] == other@[j],
            decreases n - i,
        {
            proof {
                self.lemma_word(i as int);
                other.lemma_word(i as int);
                lemma_equal_words(self.bits@[i as int], other.bits@[i as int]);
            }
            if self.bits[i] != other.bits[i] {
                proof {
                    let k = choose|k: u64|
                        k < 64 && #[trigger] bit(self.bits@[i as int], k) != bit(
                            other.bits@[i as int],
                            k,
                        );
                    assert(self@[i * 64 + k] != other@[i * 64 + k]);
                }
                return false;
            }
            proof {
                assert forall|j: int| 0 <= j < (i + 1) * 64 && j < self@.len() implies self@[j]
                    == other@[j] by {
                    if j >= i * 64 {
                        assert(bit(self.bits@[i as int], (j - i * 64) as u64) == bit(
                            other.bits@[i as int],
                            (j - i * 64) as u64,
                        ));
                    }
                }
            }
            i += 1;
        }
        proof {
            assert(self@ =~= other@);
        }
        true
    }
}

impl vstd::std_specs::cmp::PartialEqSpecImpl for BitVec {
    open spec fn obeys_eq_spec() -> bool {
        true
    }

    open spec fn eq_spec(&self, other: &BitVec) -> bool {
        self.wf() && other.wf() && self@ == other@
    }
}

impl PartialEq for BitVec {
    /// Whether both are in order and hold the same bits.
    #[inline]
    fn eq(&self, other: &BitVec) -> (r: bool) {
        if !self.is_wf() || !other.is_wf() {
            return false;
        }
        self.equals(other)
    }
}

impl Eq for BitVec {

}

} // verus!

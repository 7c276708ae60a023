use vstd::prelude::*;
use vstd::std_specs::bits::u64_trailing_zeros;

verus! {

/// Bit `k` of word `w`, counted from the least significant bit.
pub open spec fn bit(w: u64, k: u64) -> bool {
    (w >> k) & 1 == 1
}

/// The word whose bits below `n` are set and no others.
pub open spec fn low_mask(n: u64) -> u64 {
    if n >= 64 {
        u64::MAX
    } else {
        ((1u64 << n) - 1) as u64
    }
}

/// A word is zero exactly if none of its bits is set.
pub proof fn lemma_zero_word(w: u64)
    ensures
        w == 0 <==> forall|k: u64| k < 64 ==> !#[trigger] bit(w, k),
{
    if w == 0 {
        assert forall|k: u64| k < 64 implies !#[trigger] bit(w, k) by {
            assert(k < 64 ==> (0u64 >> k) & 1 != 1) by (bit_vector);
        }
    } else {
        let t = u64_trailing_zeros(w);
        assert(t < 64);
        assert(bit(w, t as u64));
    }
}

/// Two words are equal exactly if they agree bit by bit.
pub proof fn lemma_equal_words(a: u64, b: u64)
    ensures
        a == b <==> forall|k: u64| k < 64 ==> #[trigger] bit(a, k) == bit(b, k),
{
    let x = a ^ b;
    assert(x == 0 <==> a == b) by (bit_vector)
        requires
            x == a ^ b,
    ;
    lemma_zero_word(x);
    assert forall|k: u64| k < 64 implies #[trigger] bit(x, k) == (bit(a, k) != bit(b, k)) by {
        assert(k < 64 ==> ((((a ^ b) >> k) & 1 == 1) == (((a >> k) & 1 == 1) != ((b >> k) & 1
            == 1)))) by (bit_vector);
    }
    if a != b {
        let k = choose|k: u64| k < 64 && #[trigger] bit(x, k);
        assert(bit(a, k) != bit(b, k));
    } else {
        assert forall|k: u64| k < 64 implies #[trigger] bit(a, k) == bit(b, k) by {}
    }
}

/// The bits of a low mask: those below `n`.
pub proof fn lemma_low_mask_bits(n: u64, k: u64)
    requires
        n <= 64,
        k < 64,
    ensures
        bit(low_mask(n), k) == (k < n),
{
    if n >= 64 {
        assert(k < 64 ==> (0xffff_ffff_ffff_ffffu64 >> k) & 1 == 1) by (bit_vector);
    } else {
        assert(n < 64 && k < 64 ==> (((((1u64 << n) - 1) as u64 >> k) & 1 == 1) == (k < n)))
            by (bit_vector);
    }
}

/// The bits of a word with bit `j` set.
pub proof fn lemma_set_bit(w: u64, j: u64, k: u64)
    requires
        j < 64,
        k < 64,
    ensures
        bit(w | (1u64 << j), k) == (k == j || bit(w, k)),
{
    assert(j < 64 && k < 64 ==> ((((w | (1u64 << j)) >> k) & 1 == 1) == (k == j || ((w >> k) & 1
        == 1)))) by (bit_vector);
}

/// The bits of a word with bit `j` cleared.
pub proof fn lemma_clear_bit(w: u64, j: u64, k: u64)
    requires
        j < 64,
        k < 64,
    ensures
        bit(w & !(1u64 << j), k) == (k != j && bit(w, k)),
{
    assert(j < 64 && k < 64 ==> ((((w & !(1u64 << j)) >> k) & 1 == 1) == (k != j && ((w >> k) & 1
        == 1)))) by (bit_vector);
}

/// Testing a bit with a mask reads that bit.
pub proof fn lemma_test_bit(w: u64, j: u64)
    requires
        j < 64,
    ensures
        ((w & (1u64 << j)) != 0) == bit(w, j),
{
    assert(j < 64 ==> (((w & (1u64 << j)) != 0) == ((w >> j) & 1 == 1))) by (bit_vector);
}

/// The bits of the complement, the conjunction, the disjunction and the
/// exclusive disjunction of words.
pub proof fn lemma_word_ops(a: u64, b: u64, k: u64)
    requires
        k < 64,
    ensures
        bit(!a, k) == !bit(a, k),
        bit(a & b, k) == (bit(a, k) && bit(b, k)),
        bit(a | b, k) == (bit(a, k) || bit(b, k)),
        bit(a ^ b, k) == (bit(a, k) != bit(b, k)),
{
    assert(k < 64 ==> (((!a >> k) & 1 == 1) == !((a >> k) & 1 == 1))) by (bit_vector);
    assert(k < 64 ==> ((((a & b) >> k) & 1 == 1) == (((a >> k) & 1 == 1) && ((b >> k) & 1 == 1))))
        by (bit_vector);
    assert(k < 64 ==> ((((a | b) >> k) & 1 == 1) == (((a >> k) & 1 == 1) || ((b >> k) & 1 == 1))))
        by (bit_vector);
    assert(k < 64 ==> ((((a ^ b) >> k) & 1 == 1) == (((a >> k) & 1 == 1) != ((b >> k) & 1 == 1))))
        by (bit_vector);
}

} // verus!

//! Bit sets packed into 64-bit words.
use vstd::prelude::*;

verus! {

/// Bit `k` of `w`.
pub open spec fn bit(w: u64, k: u64) -> bool {
    (w >> k) & 1 == 1
}

/// Bit `i` of a bit set packed into words, 64 to a word.
pub open spec fn word_bit(words: Seq<u64>, i: int) -> bool {
    bit(words[i / 64], (i % 64) as u64)
}

pub proof fn lemma_set_bit(w: u64, k: u64)
    requires
        k < 64,
    ensures
        bit(w | (1u64 << k), k),
        forall|j: u64| j < 64 && j != k ==> #[trigger] bit(w | (1u64 << k), j) == bit(w, j),
{
    assert(((w | (1u64 << k)) >> k) & 1 == 1) by (bit_vector)
        requires
            k < 64,
    ;
    assert forall|j: u64| j < 64 && j != k implies #[trigger] bit(w | (1u64 << k), j) == bit(
        w,
        j,
    ) by {
        assert(((w | (1u64 << k)) >> j) & 1 == (w >> j) & 1) by (bit_vector)
            requires
                k < 64,
                j < 64,
                j != k,
        ;
    }
}

pub proof fn lemma_zero_bits()
    ensures
        forall|j: u64| j < 64 ==> !#[trigger] bit(0, j),
        forall|j: u64| j < 64 ==> #[trigger] bit(u64::MAX, j),
{
    assert forall|j: u64| j < 64 implies !#[trigger] bit(0, j) by {
        assert((0u64 >> j) & 1 == 0) by (bit_vector);
    }
    assert forall|j: u64| j < 64 implies #[trigger] bit(u64::MAX, j) by {
        assert((0xffff_ffff_ffff_ffffu64 >> j) & 1 == 1) by (bit_vector)
            requires
                j < 64,
        ;
    }
}

/// Sets bit `i` of a packed bit set.
pub fn set_bit(words: &mut [u64; 64], i: usize)
    requires
        i < 4096,
    ensures
        word_bit(final(words)@, i as int),
        forall|j: int|
            0 <= j < 4096 && j != i ==> #[trigger] word_bit(final(words)@, j) == word_bit(
                old(words)@,
                j,
            ),
{
    let w: u64 = words[i / 64];
    let k: u64 = (i % 64) as u64;
    proof {
        lemma_set_bit(w, k);
    }
    words[i / 64] = w | (1u64 << k);
}

/// Reads bit `i` of a packed bit set.
pub fn get_bit(words: &[u64; 64], i: usize) -> (b: bool)
    requires
        i < 4096,
    ensures
        b == word_bit(words@, i as int),
{
    (words[i / 64] >> ((i % 64) as u64)) & 1 == 1
}

/// Makes every bit of a packed bit set equal to `b`.
pub fn fill_bits(words: &mut [u64; 64], b: bool)
    ensures
        forall|j: int| 0 <= j < 4096 ==> #[trigger] word_bit(final(words)@, j) == b,
{
    let w: u64 = if b {
        u64::MAX
    } else {
        0
    };
    let mut i: usize = 0;
    while i < 64
        invariant
            i <= 64,
            forall|j: int| 0 <= j < i ==> #[trigger] words@[j] == w,
        decreases 64 - i,
    {
        words[i] = w;
        i = i + 1;
    }
    proof {
        lemma_zero_bits();
        assert forall|j: int| 0 <= j < 4096 implies #[trigger] word_bit(words@, j) == b by {
            assert(words@[j / 64] == w);
            assert(bit(w, (j % 64) as u64) == b);
        }
    }
}

} // verus!

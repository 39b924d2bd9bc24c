//! A packed vector of 2-bit values, used to store the node states of the
//! buddy allocator's tree.
use vstd::prelude::*;

verus! {

/// Value of the 2-bit entry `j` (0..16) of a 32-bit word.
pub open spec fn word_entry(w: u32, j: int) -> u8 {
    ((w >> ((2 * j) as u32)) & 3u32) as u8
}

proof fn lemma_word_set(w: u32, i: u32, j: u32, x: u32)
    requires
        i < 16,
        j < 16,
        x < 4,
    ensures
        (((w & !(3u32 << (2 * i))) | (x << (2 * i))) >> (2 * j)) & 3u32 == if i == j {
            x
        } else {
            (w >> (2 * j)) & 3u32
        },
{
    assert((((w & !(3u32 << (2 * i))) | (x << (2 * i))) >> (2 * j)) & 3u32 == if i == j {
        x
    } else {
        (w >> (2 * j)) & 3u32
    }) by (bit_vector)
        requires
            i < 16,
            j < 16,
            x < 4,
    ;
}

/// A vector of 2-bit entries packed sixteen to a 32-bit word.
pub struct Bitv {
    storage: Vec<u32>,
}

impl View for Bitv {
    type V = Seq<u8>;

    closed spec fn view(&self) -> Seq<u8> {
        Seq::new((16 * self.storage@.len()) as nat, |i: int| word_entry(self.storage@[i / 16], i % 16))
    }
}

impl Bitv {
    /// Number of 2-bit entries.
    pub open spec fn len(&self) -> nat {
        self@.len()
    }

    /// A vector of `words` zeroed 32-bit words, that is `16 * words` entries, all 0.
    pub fn new(words: usize) -> (v: Bitv)
        requires
            16 * words <= usize::MAX,
        ensures
            v@.len() == 16 * words,
            forall|i: int| 0 <= i < v@.len() ==> #[trigger] v@[i] == 0,
    {
        let mut storage: Vec<u32> = Vec::new();
        let mut k: usize = 0;
        while k < words
            invariant
                k <= words,
                storage@.len() == k,
                forall|m: int| 0 <= m < k ==> #[trigger] storage@[m] == 0,
            decreases words - k,
        {
            storage.push(0);
            k = k + 1;
        }
        let v = Bitv { storage };
        assert forall|i: int| 0 <= i < v@.len() implies #[trigger] v@[i] == 0 by {
            let j = (i % 16) as u32;
            assert((0u32 >> (2 * j)) & 3u32 == 0) by (bit_vector);
        }
        v
    }

    /// The 2-bit entry at `i`.
    pub fn get(&self, i: usize) -> (x: u8)
        requires
            i < self@.len(),
        ensures
            x == self@[i as int],
            x < 4,
    {
        let w = self.storage[i / 16];
        let b = ((i % 16) * 2) as u32;
        proof {
            let j = (i % 16) as u32;
            assert((w >> (2 * j)) & 3u32 < 4) by (bit_vector);
        }
        ((w >> b) & 3) as u8
    }

    /// Stores `x` (0..4) at entry `i`.
    pub fn set(&mut self, i: usize, x: u8)
        requires
            i < old(self)@.len(),
            x < 4,
        ensures
            final(self)@ == old(self)@.update(i as int, x),
    {
        let w = i / 16;
        let b = ((i % 16) * 2) as u32;
        let old_word = self.storage[w];
        let new_word = (old_word & !(3u32 << b)) | ((x as u32) << b);
        self.storage.set(w, new_word);
        proof {
            let ghost ov = old(self)@;
            assert forall|k: int| 0 <= k < ov.len() implies #[trigger] self@[k] == ov.update(
                i as int,
                x,
            )[k] by {
                if k / 16 == w as int {
                    lemma_word_set(old_word, (i % 16) as u32, (k % 16) as u32, x as u32);
                }
            }
            assert(self@ =~= ov.update(i as int, x));
        }
    }

    /// Zeroes the first `capacity / 4` bytes, that is the first
    /// `4 * (capacity / 4)` entries.
    pub fn clear(&mut self, capacity: usize)
        requires
            4 * (capacity / 4) <= old(self)@.len(),
        ensures
            final(self)@.len() == old(self)@.len(),
            forall|i: int|
                0 <= i < final(self)@.len() ==> #[trigger] final(self)@[i] == if i < 4 * (capacity
                    / 4) {
                    0
                } else {
                    old(self)@[i]
                },
    {
        let n = (capacity / 4) * 4;
        let mut i: usize = 0;
        while i < n
            invariant
                n == 4 * (capacity / 4),
                n <= old(self)@.len(),
                i <= n,
                self@.len() == old(self)@.len(),
                forall|k: int|
                    0 <= k < self@.len() ==> #[trigger] self@[k] == if k < i {
                        0
                    } else {
                        old(self)@[k]
                    },
            decreases n - i,
        {
            self.set(i, 0);
            i = i + 1;
        }
    }
}

} // verus!

//! A flat bit set over `u32` words, used to mark occupied price ticks.

use vstd::prelude::*;

verus! {

/// A fixed-capacity set of bits, packed 32 to a word.
pub struct BitSet {
    content: Vec<u32>,
    size: usize,
}

/// Whether bit `i` is set in the packed words.
pub open spec fn spec_bit(content: Seq<u32>, i: int) -> bool {
    content[i / 32] & (1u32 << (i % 32) as u32) != 0
}

impl BitSet {
    /// How many bits the set can hold.
    pub closed spec fn spec_size(&self) -> int {
        self.size as int
    }

    /// The words cover the advertised size.
    pub closed spec fn wf(&self) -> bool {
        self.content@.len() == if self.size % 32 == 0 {
            self.size as int / 32
        } else {
            self.size as int / 32 + 1
        }
    }

    /// Whether bit `i` is set.
    pub closed spec fn spec_get(&self, i: int) -> bool {
        spec_bit(self.content@, i)
    }

    /// A set of `bits` zeroed bits.
    pub fn with_capacity(bits: usize) -> (r: BitSet)
        ensures
            r.wf(),
            r.spec_size() == bits,
            forall|i: int| 0 <= i < bits ==> !r.spec_get(i),
    {
        let words: usize = if bits % 32 == 0 {
            bits / 32
        } else {
            bits / 32 + 1
        };
        let mut content: Vec<u32> = Vec::new();
        let mut w: usize = 0;
        while w < words
            invariant
                w <= words,
                content@.len() == w,
                forall|k: int| 0 <= k < w ==> content@[k] == 0u32,
            decreases words - w,
        {
            content.push(0u32);
            w = w + 1;
        }
        proof {
            assert forall|i: int| 0 <= i < bits implies !spec_bit(content@, i) by {
                assert(content@[i / 32] == 0u32);
                assert(0u32 & (1u32 << (i % 32) as u32) == 0) by (bit_vector);
            }
        }
        BitSet { content, size: bits }
    }

    /// Whether bit `i` is set; `None` when `i` is out of range.
    pub fn get(&self, i: usize) -> (r: Option<bool>)
        requires
            self.wf(),
        ensures
            i < self.spec_size() ==> r == Some(self.spec_get(i as int)),
            i >= self.spec_size() ==> r is None,
    {
        if i >= self.size {
            return None;
        }
        let w = i / 32;
        let b = i % 32;
        proof {
            if self.size % 32 == 0 {
                assert(w < self.content@.len());
            } else {
                assert(w < self.content@.len());
            }
        }
        let block = self.content[w];
        Some(block & (1u32 << b as u32) != 0u32)
    }

    /// Set bit `i` to `x`; the other bits keep their value.
    pub fn set(&mut self, i: usize, x: bool)
        requires
            old(self).wf(),
            i < old(self).spec_size(),
        ensures
            final(self).wf(),
            final(self).spec_size() == old(self).spec_size(),
            final(self).spec_get(i as int) == x,
            forall|j: int|
                0 <= j < old(self).spec_size() && j != i ==> final(self).spec_get(j) == old(
                    self,
                ).spec_get(j),
    {
        let w = i / 32;
        let b = (i % 32) as u32;
        let flag = 1u32 << b;
        let val = if x {
            self.content[w] | flag
        } else {
            self.content[w] & !flag
        };
        let ghost old_word = self.content@[w as int];
        self.content.set(w, val);
        proof {
            let bb = (i % 32) as u32;
            if x {
                assert(bb < 32 ==> (old_word | (1u32 << bb)) & (1u32 << bb) != 0) by (bit_vector);
                assert forall|c: u32| c < 32 && c != bb implies ((old_word | (1u32 << bb)) & (1u32
                    << c) == old_word & (1u32 << c)) by {
                    assert(forall|o: u32, p: u32, q: u32|
                        p < 32 && q < 32 && p != q ==> #[trigger] ((o | (1u32 << p)) & (1u32 << q))
                            == o & (1u32 << q)) by (bit_vector);
                }
            } else {
                assert(bb < 32 ==> (old_word & !(1u32 << bb)) & (1u32 << bb) == 0) by (bit_vector);
                assert forall|c: u32| c < 32 && c != bb implies ((old_word & !(1u32 << bb)) & (1u32
                    << c) == old_word & (1u32 << c)) by {
                    assert(forall|o: u32, p: u32, q: u32|
                        p < 32 && q < 32 && p != q ==> #[trigger] ((o & !(1u32 << p)) & (1u32 << q))
                            == o & (1u32 << q)) by (bit_vector);
                }
            }
            assert forall|j: int|
                0 <= j < old(self).spec_size() && j != i implies final(self).spec_get(j) == old(
                    self,
                ).spec_get(j) by {
                if j / 32 == w as int {
                    assert((j % 32) as u32 != bb);
                    assert(((j % 32) as u32) < 32);
                }
            }
        }
    }

    /// The index of the lowest set bit, if any bit is set.
    pub fn first(&self) -> (r: Option<usize>)
        requires
            self.wf(),
        ensures
            match r {
                Some(i) => i < self.spec_size() && self.spec_get(i as int) && forall|j: int|
                    0 <= j < i ==> !self.spec_get(j),
                None => forall|j: int| 0 <= j < self.spec_size() ==> !self.spec_get(j),
            },
    {
        let mut i: usize = 0;
        while i < self.size
            invariant
                self.wf(),
                i <= self.size,
                forall|j: int| 0 <= j < i ==> !self.spec_get(j),
            decreases self.size - i,
        {
            let w = i / 32;
            let b = (i % 32) as u32;
            if self.content[w] & (1u32 << b) != 0u32 {
                return Some(i);
            }
            i = i + 1;
        }
        None
    }
}

} // verus!

//! A fixed-capacity bit set that records which fragments of a window arrived.

use vstd::prelude::*;

verus! {

/// Whether bit `k` of `w` is one.
pub open spec fn word_bit(w: u64, k: u64) -> bool {
    (w >> k) & 1 == 1
}

proof fn lemma_zero_word(k: u64)
    requires
        k < 64,
    ensures
        !word_bit(0, k),
{
    assert((0u64 >> k) & 1 == 0) by (bit_vector)
        requires
            k < 64,
    ;
}

proof fn lemma_set_bit(w: u64, k: u64, j: u64)
    requires
        k < 64,
        j < 64,
    ensures
        word_bit(w | (1u64 << k), j) == (j == k || word_bit(w, j)),
{
    assert((((w | (1u64 << k)) >> j) & 1 == 1) == (j == k || ((w >> j) & 1 == 1))) by (bit_vector)
        requires
            k < 64,
            j < 64,
    ;
}

/// Marking an index marks it and leaves every other index as it was, and
/// marking it again changes nothing.
pub proof fn lemma_marks(marks: Seq<bool>, i: int, j: int)
    requires
        0 <= i < marks.len(),
        0 <= j < marks.len(),
    ensures
        marks.update(i, true)[i],
        j != i ==> marks.update(i, true)[j] == marks[j],
        marks.update(i, true).update(i, true) == marks.update(i, true),
{
    assert(marks.update(i, true).update(i, true) =~= marks.update(i, true));
}

/// A bit set over the indices `0 .. capacity`, packed into 64-bit words.
#[derive(Debug)]
pub struct Bitmap {
    capacity: usize,
    words: Vec<u64>,
}

impl Bitmap {
    /// The words cover every index below the capacity.
    pub closed spec fn wf(&self) -> bool {
        self.words@.len() == self.capacity / 64 + 1
    }

    /// The number of indices the bitmap was created for.
    pub closed spec fn capacity(&self) -> nat {
        self.capacity as nat
    }

    /// Whether index `i` is marked.
    pub closed spec fn marked(&self, i: int) -> bool {
        0 <= i < self.capacity && word_bit(self.words@[i / 64], (i % 64) as u64)
    }

    /// The marks as a sequence of `capacity` booleans.
    pub open spec fn view(&self) -> Seq<bool> {
        Seq::new(self.capacity(), |i: int| self.marked(i))
    }

    /// Creates a bitmap of `n` indices, none of them marked.
    pub fn new(n: usize) -> (b: Bitmap)
        ensures
            b.wf(),
            b.capacity() == n,
            b@ == Seq::new(n as nat, |i: int| false),
    {
        let count: usize = n / 64 + 1;
        let mut words: Vec<u64> = Vec::new();
        let mut k: usize = 0;
        while k < count
            invariant
                k <= count,
                words@.len() == k,
                forall|j: int| 0 <= j < k ==> words@[j] == 0u64,
            decreases count - k,
        {
            words.push(0u64);
            k = k + 1;
        }
        let b = Bitmap { capacity: n, words };
        proof {
            assert forall|i: int| 0 <= i < n implies !b.marked(i) by {
                lemma_zero_word((i % 64) as u64);
            }
            assert(b@ =~= Seq::new(n as nat, |i: int| false));
        }
        b
    }

    /// The number of indices the bitmap was created for.
    pub fn size(&self) -> (n: usize)
        ensures
            n == self.capacity(),
    {
        self.capacity
    }

    /// Marks `index`. Marking an index twice leaves the bitmap as it was
    /// after the first time.
    pub fn set(&mut self, index: usize)
        requires
            old(self).wf(),
            index < old(self).capacity(),
        ensures
            final(self).wf(),
            final(self).capacity() == old(self).capacity(),
            final(self)@ == old(self)@.update(index as int, true),
    {
        let w: usize = index / 64;
        let k: u64 = (index % 64) as u64;
        let word: u64 = self.words[w];
        self.words.set(w, word | (1u64 << k));
        proof {
            assert forall|i: int| 0 <= i < self.capacity implies self.marked(i) == (i == index
                || old(self).marked(i)) by {
                if i / 64 == w {
                    lemma_set_bit(word, k, (i % 64) as u64);
                }
            }
            assert(self@ =~= old(self)@.update(index as int, true));
        }
    }

    /// Tells whether `index` is marked.
    pub fn is_set(&self, index: usize) -> (r: bool)
        requires
            self.wf(),
            index < self.capacity(),
        ensures
            r == self@[index as int],
    {
        let w: usize = index / 64;
        let k: u64 = (index % 64) as u64;
        (self.words[w] >> k) & 1 == 1
    }
}

} // verus!

//! A cyclic index used to page through views.
use vstd::prelude::*;

verus! {

/// A position that wraps around in both directions within `0..max_size`.
///
/// `max_size` may be changed freely; `index` is never clamped, so after a
/// shrink it may lie outside the range until the next step.
pub struct LoopingIndex {
    pub max_size: usize,
    pub index: usize,
}

impl LoopingIndex {
    /// The index lies inside the current range.
    pub open spec fn in_range(&self) -> bool {
        self.index < self.max_size
    }

    /// Starts at position zero with the given bound.
    pub fn new(max_size: usize) -> (r: LoopingIndex)
        ensures
            r.max_size == max_size,
            r.index == 0,
    {
        LoopingIndex { max_size: max_size, index: 0 }
    }

    /// Steps forward, wrapping from the last position to zero.
    pub fn next(&mut self)
        requires
            old(self).max_size > 0,
        ensures
            final(self).max_size == old(self).max_size,
            final(self).index == (old(self).index + 1) % (old(self).max_size as int),
    {
        let m = self.index % self.max_size;
        proof {
            lemma_succ_mod(self.index as int, self.max_size as int);
        }
        self.index = (m + 1) % self.max_size;
    }

    /// Steps backward, wrapping from zero to the last position.
    pub fn previous(&mut self)
        requires
            old(self).max_size > 0,
        ensures
            final(self).max_size == old(self).max_size,
            old(self).index > 0 ==> final(self).index == old(self).index - 1,
            old(self).index == 0 ==> final(self).index == old(self).max_size - 1,
    {
        if self.index > 0 {
            self.index = self.index - 1;
        } else {
            self.index = self.max_size - 1;
        }
    }

    /// Sets a new bound, leaving the position as it is.
    pub fn resize(&mut self, max_size: usize)
        ensures
            final(self).max_size == max_size,
            final(self).index == old(self).index,
    {
        self.max_size = max_size;
    }
}

proof fn lemma_succ_mod(i: int, b: int)
    requires
        0 <= i,
        0 < b,
    ensures
        ((i % b) + 1) % b == (i + 1) % b,
{
    vstd::arithmetic::div_mod::lemma_add_mod_noop(i, 1, b);
    if b > 1 {
        vstd::arithmetic::div_mod::lemma_small_mod(1, b as nat);
    }
}

} // verus!

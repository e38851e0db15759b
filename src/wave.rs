//! A cycle table of fixed-point samples, read cyclically.

use vstd::prelude::*;

verus! {

/// One or more periods of a tone, and a read position into them.
pub struct SineGen {
    samples: Vec<i32>,
    sample_index: usize,
}

impl SineGen {
    pub closed spec fn samples(&self) -> Seq<i32> {
        self.samples@
    }

    pub closed spec fn position(&self) -> nat {
        self.sample_index as nat
    }

    /// The read position is inside the table, or at 0 for an empty one.
    pub open spec fn wf(&self) -> bool {
        self.position() < self.samples().len() || self.position() == 0
    }

    /// A table over `samples`, read from the start.
    pub fn from_samples(samples: Vec<i32>) -> (r: SineGen)
        ensures
            r.samples() == samples@,
            r.position() == 0,
            r.wf(),
    {
        SineGen { samples, sample_index: 0 }
    }

    /// The number of samples in the table.
    pub fn len(&self) -> (r: usize)
        ensures
            r == self.samples().len(),
    {
        self.samples.len()
    }

    /// Appends the samples of `other_wave` after this table's own.
    pub fn concat(&mut self, other_wave: &SineGen)
        requires
            old(self).wf(),
        ensures
            final(self).samples() == old(self).samples() + other_wave.samples(),
            final(self).position() == old(self).position(),
            final(self).wf(),
    {
        let mut i: usize = 0;
        let ghost start = self.samples@;
        while i < other_wave.samples.len()
            invariant
                i <= other_wave.samples.len(),
                self.samples@ == start + other_wave.samples@.subrange(0, i as int),
                self.sample_index == old(self).sample_index,
            decreases other_wave.samples.len() - i,
        {
            self.samples.push(other_wave.samples[i]);
            i = i + 1;
            assert(self.samples@ =~= start + other_wave.samples@.subrange(0, i as int));
        }
        assert(other_wave.samples@.subrange(0, i as int) =~= other_wave.samples@);
    }

    /// A copy of the whole table.
    pub fn get_full_cycle(&self) -> (r: Vec<i32>)
        ensures
            r@ == self.samples(),
    {
        self.samples.clone()
    }

    /// The next `n` samples from the read position, wrapping at the end of
    /// the table; the position moves past them. An empty table has none to give.
    pub fn get_frames(&mut self, n: usize) -> (r: Option<Vec<i32>>)
        requires
            old(self).wf(),
        ensures
            final(self).wf(),
            final(self).samples() == old(self).samples(),
            r is None <==> old(self).samples().len() == 0 && n > 0,
            r is None ==> final(self).position() == old(self).position(),
            r matches Some(v) ==> {
                &&& v@.len() == n
                &&& forall|k: int| 0 <= k < n ==> #[trigger] v@[k] == old(self).samples()[
                    (old(self).position() + k) % (old(self).samples().len() as int)]
                &&& old(self).samples().len() > 0 ==> final(self).position()
                    == (old(self).position() + n) % (old(self).samples().len() as int)
            },
    {
        let len = self.samples.len();
        let mut out: Vec<i32> = Vec::with_capacity(n);
        if len == 0 {
            if n > 0 {
                return None;
            }
            return Some(out);
        }
        let ghost start = self.sample_index as int;
        let mut pos = self.sample_index;
        let mut k: usize = 0;
        proof { vstd::arithmetic::div_mod::lemma_small_mod(start as nat, len as nat); }
        while k < n
            invariant
                len == self.samples.len(),
                len > 0,
                0 <= start < len,
                k <= n,
                pos < len,
                pos == (start + k) % (len as int),
                out@.len() == k,
                forall|j: int| 0 <= j < k ==> #[trigger] out@[j] == self.samples@[(start + j) % (len as int)],
            decreases n - k,
        {
            out.push(self.samples[pos]);
            proof {
                vstd::arithmetic::div_mod::lemma_add_mod_noop(start + k, 1, len as int);
                if len == 1 {
                    vstd::arithmetic::div_mod::lemma_mod_self_0(1);
                } else {
                    vstd::arithmetic::div_mod::lemma_small_mod(1, len as nat);
                    if pos + 1 == len {
                        vstd::arithmetic::div_mod::lemma_mod_self_0(len as int);
                    } else {
                        vstd::arithmetic::div_mod::lemma_small_mod((pos + 1) as nat, len as nat);
                    }
                }
            }
            pos = if pos + 1 == len { 0 } else { pos + 1 };
            k = k + 1;
        }
        self.sample_index = pos;
        Some(out)
    }
}

} // verus!

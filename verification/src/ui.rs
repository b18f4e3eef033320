//! Shared buffers of the overlay pass.
//!
//! Each frame, the overlay's widgets hand over their geometry as one
//! byte slice per draw.  The slices are packed back to back from the
//! start of a shared buffer, and each draw's span is remembered so
//! the recorded pass can bind exactly its own bytes.  Creating and
//! growing the buffers between frames stays with the embedding
//! program, which owns the device-side objects.

use vstd::prelude::*;

use crate::buffer::Buffer;

verus! {

/// The given slices, laid back to back.
pub open spec fn concat_slices(s: Seq<Vec<u8>>) -> Seq<u8>
    decreases s.len(),
{
    if s.len() == 0 {
        Seq::empty()
    } else {
        s.first()@ + concat_slices(s.drop_first())
    }
}

/// Total byte length of the given slices.
pub open spec fn total_len(s: Seq<Vec<u8>>) -> int
    decreases s.len(),
{
    if s.len() == 0 {
        0
    } else {
        s.first()@.len() + total_len(s.drop_first())
    }
}

pub proof fn lemma_total_len_nonneg(s: Seq<Vec<u8>>)
    ensures
        total_len(s) >= 0,
        concat_slices(s).len() == total_len(s),
    decreases s.len(),
{
    if s.len() > 0 {
        lemma_total_len_nonneg(s.drop_first());
    }
}

/// Appending one more slice appends its bytes and its length.
pub proof fn lemma_slices_push(s: Seq<Vec<u8>>, x: Vec<u8>)
    ensures
        concat_slices(s.push(x)) == concat_slices(s) + x@,
        total_len(s.push(x)) == total_len(s) + x@.len(),
    decreases s.len(),
{
    if s.len() == 0 {
        assert(s.push(x).first() == x);
        assert(s.push(x).drop_first() =~= Seq::<Vec<u8>>::empty());
        assert(concat_slices(s.push(x)) == x@ + concat_slices(s.push(x).drop_first()));
        assert(concat_slices(s.push(x).drop_first()) =~= Seq::<u8>::empty());
        assert(concat_slices(s) =~= Seq::<u8>::empty());
        assert(total_len(s.push(x).drop_first()) == 0);
        assert(concat_slices(s.push(x)) =~= concat_slices(s) + x@);
    } else {
        assert(s.push(x).first() == s.first());
        assert(s.push(x).drop_first() =~= s.drop_first().push(x));
        lemma_slices_push(s.drop_first(), x);
        assert(concat_slices(s.push(x)) == s.first()@ + concat_slices(s.drop_first().push(x)));
        assert(concat_slices(s) == s.first()@ + concat_slices(s.drop_first()));
        assert(total_len(s.push(x)) == s.first()@.len() + total_len(s.drop_first().push(x)));
        assert(total_len(s) == s.first()@.len() + total_len(s.drop_first()));
        assert(concat_slices(s.push(x)) =~= concat_slices(s) + x@);
    }
}

/// Prefixes never exceed the whole.
pub proof fn lemma_total_len_prefix(s: Seq<Vec<u8>>, j: int)
    requires
        0 <= j <= s.len(),
    ensures
        total_len(s.take(j)) <= total_len(s),
    decreases s.len() - j,
{
    if j < s.len() {
        lemma_slices_push(s.take(j), s[j]);
        assert(s.take(j).push(s[j]) =~= s.take(j + 1));
        lemma_total_len_prefix(s, j + 1);
    } else {
        assert(s.take(j) =~= s);
    }
}

/// A buffer carved into consecutive spans, one per draw.
pub struct SlicedBuffer {
    pub buffer: Buffer,
    /// Written spans, as half-open byte ranges.
    pub slices: Vec<(u64, u64)>,
    /// The buffer's fixed byte size.
    pub size: u64,
}

impl SlicedBuffer {
    /// The recorded size is the buffer's real capacity.
    pub open spec fn wf(&self) -> bool {
        self.size == self.buffer.capacity()
    }

    pub fn new(buffer: Buffer) -> (r: Self)
        ensures
            r.wf(),
            r.buffer == buffer,
            r.slices@ == Seq::<(u64, u64)>::empty(),
            r.size == buffer.capacity(),
    {
        let size = buffer.size() as u64;
        SlicedBuffer { buffer, slices: Vec::new(), size }
    }

    /// Forgets the recorded spans; the next frame packs from the
    /// start again.
    pub fn reset(&mut self)
        ensures
            final(self).buffer == old(self).buffer,
            final(self).size == old(self).size,
            final(self).slices@ == Seq::<(u64, u64)>::empty(),
    {
        self.slices.clear();
    }

    /// Packs the given slices back to back from the start of the
    /// buffer and records one span per slice.  The caller sized the
    /// buffer for the frame's content before packing.
    pub fn write(&mut self, slices: &Vec<Vec<u8>>)
        requires
            old(self).wf(),
            total_len(slices@) <= old(self).buffer.capacity(),
        ensures
            final(self).wf(),
            final(self).size == old(self).size,
            final(self).buffer.spec_usage() == old(self).buffer.spec_usage(),
            final(self).buffer@ == concat_slices(slices@) + old(self).buffer@.skip(
                total_len(slices@),
            ),
            final(self).slices@.len() == old(self).slices@.len() + slices@.len(),
            forall|j: int|
                0 <= j < old(self).slices@.len() ==> #[trigger] final(self).slices@[j] == old(
                    self,
                ).slices@[j],
            forall|j: int|
                0 <= j < slices@.len() ==> #[trigger] final(self).slices@[old(self).slices@.len()
                    + j] == (
                total_len(slices@.take(j)) as u64,
                total_len(slices@.take(j + 1)) as u64,
            ),
    {
        proof {
            lemma_total_len_nonneg(slices@);
        }
        let n = slices.len();
        let mut offset: u64 = 0;
        let mut i: usize = 0;
        while i < n
            invariant
                i <= n,
                n == slices@.len(),
                self.wf(),
                self.size == old(self).size,
                self.buffer.spec_usage() == old(self).buffer.spec_usage(),
                total_len(slices@) <= old(self).buffer.capacity(),
                offset == total_len(slices@.take(i as int)),
                self.buffer@ == concat_slices(slices@.take(i as int)) + old(self).buffer@.skip(
                    offset as int,
                ),
                self.slices@.len() == old(self).slices@.len() + i,
                forall|j: int|
                    0 <= j < old(self).slices@.len() ==> #[trigger] self.slices@[j] == old(
                        self,
                    ).slices@[j],
                forall|j: int|
                    0 <= j < i ==> #[trigger] self.slices@[old(self).slices@.len() + j] == (
                        total_len(slices@.take(j)) as u64,
                        total_len(slices@.take(j + 1)) as u64,
                    ),
            decreases n - i,
        {
            let sl = &slices[i];
            proof {
                lemma_slices_push(slices@.take(i as int), slices@[i as int]);
                assert(slices@.take(i as int).push(slices@[i as int]) =~= slices@.take(
                    i as int + 1,
                ));
                lemma_total_len_prefix(slices@, i as int + 1);
                lemma_total_len_nonneg(slices@.take(i as int));
                lemma_total_len_nonneg(slices@.take(i as int + 1));
            }
            let next_offset = offset + sl.len() as u64;
            self.buffer.write(offset, sl);
            self.slices.push((offset, next_offset));
            proof {
                lemma_total_len_nonneg(slices@.take(i as int));
                assert(self.buffer@ =~= concat_slices(slices@.take(i as int + 1)) + old(
                    self,
                ).buffer@.skip(next_offset as int));
            }
            offset = next_offset;
            i = i + 1;
        }
        proof {
            assert(slices@.take(n as int) =~= slices@);
        }
    }
}

} // verus!

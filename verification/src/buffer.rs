//! Fixed-capacity device buffers and the builder that configures them.
//!
//! A buffer is created once, at a fixed size, with a set of capability
//! flags composed on a builder.  Its contents are modelled as the exact
//! byte image the device holds: every host-to-device copy is a verified
//! in-place splice of that image.  The flag values match the device
//! backend's native buffer-usage bits, so the embedding program can
//! hand them through unchanged.

use vstd::prelude::*;

verus! {

pub const USAGE_COPY_SRC: u32 = 4;

pub const USAGE_COPY_DST: u32 = 8;

pub const USAGE_INDEX: u32 = 16;

pub const USAGE_VERTEX: u32 = 32;

pub const USAGE_UNIFORM: u32 = 64;

pub const USAGE_STORAGE: u32 = 128;

pub const USAGE_INDIRECT: u32 = 256;

/// A device buffer of fixed capacity, with its exact byte contents.
pub struct Buffer {
    usage: u32,
    data: Vec<u8>,
}

impl View for Buffer {
    type V = Seq<u8>;

    closed spec fn view(&self) -> Seq<u8> {
        self.data@
    }
}

impl Buffer {
    /// The capability flags the buffer was created with.
    pub closed spec fn spec_usage(&self) -> u32 {
        self.usage
    }

    /// The fixed byte capacity chosen at creation time.
    pub open spec fn capacity(&self) -> nat {
        self@.len()
    }

    pub fn usage(&self) -> (r: u32)
        ensures
            r == self.spec_usage(),
    {
        self.usage
    }

    pub fn size(&self) -> (r: usize)
        ensures
            r == self.capacity(),
    {
        self.data.len()
    }

    /// Copies `src` into the buffer image starting at `offset`.
    ///
    /// The caller must have established that the write fits; buffers
    /// never grow.
    pub fn write(&mut self, offset: u64, src: &Vec<u8>)
        requires
            offset + src@.len() <= old(self).capacity(),
        ensures
            final(self)@ == old(self)@.take(offset as int) + src@ + old(self)@.skip(
                offset + src@.len(),
            ),
            final(self).capacity() == old(self).capacity(),
            final(self).spec_usage() == old(self).spec_usage(),
    {
        let cap: usize = self.data.len();
        let base: usize = offset as usize;
        let mut i: usize = 0;
        while i < src.len()
            invariant
                i <= src@.len(),
                base == offset,
                cap == old(self).capacity(),
                offset + src@.len() <= old(self).capacity(),
                self.data@.len() == old(self)@.len(),
                self.usage == old(self).spec_usage(),
                self.data@ == old(self)@.take(base as int) + src@.take(i as int) + old(
                    self,
                )@.skip(base + i),
            decreases src@.len() - i,
        {
            self.data[base + i] = src[i];
            proof {
                assert(self.data@ =~= old(self)@.take(base as int) + src@.take(i + 1) + old(
                    self,
                )@.skip(base + i + 1));
            }
            i = i + 1;
        }
        proof {
            assert(src@.take(src@.len() as int) =~= src@);
        }
    }

    /// Reads `len` bytes of the buffer image starting at `offset`.
    pub fn read(&self, offset: u64, len: usize) -> (r: Vec<u8>)
        requires
            offset + len <= self.capacity(),
        ensures
            r@ == self@.subrange(offset as int, offset + len),
    {
        let cap: usize = self.data.len();
        let base: usize = offset as usize;
        let mut out: Vec<u8> = Vec::new();
        let mut i: usize = 0;
        while i < len
            invariant
                i <= len,
                base == offset,
                cap == self.capacity(),
                offset + len <= self.capacity(),
                out@ == self@.subrange(base as int, base + i),
            decreases len - i,
        {
            out.push(self.data[base + i]);
            proof {
                assert(out@ =~= self@.subrange(base as int, base + i + 1));
            }
            i = i + 1;
        }
        out
    }
}

/// Composes the size and capability flags of a buffer before the one
/// creation call.
pub struct Builder {
    size: u64,
    usage: u32,
}

impl Builder {
    pub closed spec fn spec_size(&self) -> u64 {
        self.size
    }

    pub closed spec fn spec_usage(&self) -> u32 {
        self.usage
    }

    pub fn new() -> (r: Self)
        ensures
            r.spec_size() == 0,
            r.spec_usage() == 0,
    {
        Builder { size: 0, usage: 0 }
    }

    pub fn size(self, size: u64) -> (r: Self)
        ensures
            r.spec_size() == size,
            r.spec_usage() == self.spec_usage(),
    {
        Builder { size, usage: self.usage }
    }

    pub fn allow_copy_dst(self) -> (r: Self)
        ensures
            r.spec_size() == self.spec_size(),
            r.spec_usage() == self.spec_usage() | USAGE_COPY_DST,
    {
        Builder { size: self.size, usage: self.usage | USAGE_COPY_DST }
    }

    pub fn use_as_vertex(self) -> (r: Self)
        ensures
            r.spec_size() == self.spec_size(),
            r.spec_usage() == self.spec_usage() | USAGE_VERTEX,
    {
        Builder { size: self.size, usage: self.usage | USAGE_VERTEX }
    }

    pub fn use_as_index(self) -> (r: Self)
        ensures
            r.spec_size() == self.spec_size(),
            r.spec_usage() == self.spec_usage() | USAGE_INDEX,
    {
        Builder { size: self.size, usage: self.usage | USAGE_INDEX }
    }

    pub fn use_as_uniform(self) -> (r: Self)
        ensures
            r.spec_size() == self.spec_size(),
            r.spec_usage() == self.spec_usage() | USAGE_UNIFORM,
    {
        Builder { size: self.size, usage: self.usage | USAGE_UNIFORM }
    }

    pub fn use_as_storage(self) -> (r: Self)
        ensures
            r.spec_size() == self.spec_size(),
            r.spec_usage() == self.spec_usage() | USAGE_STORAGE,
    {
        Builder { size: self.size, usage: self.usage | USAGE_STORAGE }
    }

    pub fn use_as_indirect(self) -> (r: Self)
        ensures
            r.spec_size() == self.spec_size(),
            r.spec_usage() == self.spec_usage() | USAGE_INDIRECT,
    {
        Builder { size: self.size, usage: self.usage | USAGE_INDIRECT }
    }

    /// Allocates the buffer: a zeroed image of the configured size.
    pub fn create(self) -> (r: Buffer)
        requires
            self.spec_size() <= usize::MAX,
        ensures
            r.spec_usage() == self.spec_usage(),
            r.capacity() == self.spec_size(),
            r@ == Seq::new(self.spec_size() as nat, |i: int| 0u8),
    {
        let n: usize = self.size as usize;
        let data: Vec<u8> = vec![0u8; n];
        proof {
            assert(data@ =~= Seq::new(self.spec_size() as nat, |i: int| 0u8));
        }
        Buffer { usage: self.usage, data }
    }
}

} // verus!

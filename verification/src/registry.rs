//! Handle-keyed store of device objects.
//!
//! Every GPU-side object is owned by this registry and reached only
//! through an opaque integer handle.  Handles are allocated from a
//! counter, so a freshly stored object never collides with an existing
//! entry, and a handle stays valid exactly as long as its entry exists.
//! Retrieval is typed against a closed set of resource kinds: asking
//! for a buffer under a handle that holds a pipeline yields nothing,
//! never a misread.

use vstd::prelude::*;

use crate::buffer::Buffer;
use crate::keymap::KeyMap;

verus! {

/// Token for a compiled shader module; the device-side object lives
/// with the embedding program under the same handle.
pub struct ShaderModule {}

/// Token for a pipeline layout held by the embedding program.
pub struct PipelineLayout {}

/// Token for a render pipeline held by the embedding program.
pub struct RenderPipeline {}

/// Token for a bind group held by the embedding program.
pub struct BindGroup {}

/// Token for a texture held by the embedding program.
pub struct Texture {}

/// The closed set of object kinds the registry can own.
pub enum Resource {
    Buffer(Buffer),
    ShaderModule(ShaderModule),
    PipelineLayout(PipelineLayout),
    RenderPipeline(RenderPipeline),
    BindGroup(BindGroup),
    Texture(Texture),
}

/// The buffer a resource holds, if it is one.
pub open spec fn as_buffer(r: Resource) -> Option<Buffer> {
    match r {
        Resource::Buffer(b) => Some(b),
        _ => None,
    }
}

/// Type-erased object store keyed by opaque handles.
pub struct Registry {
    next: u64,
    objects: KeyMap<Resource>,
}

impl View for Registry {
    type V = Map<u64, Resource>;

    closed spec fn view(&self) -> Map<u64, Resource> {
        self.objects@
    }
}

impl Registry {
    /// The next handle the registry would allocate.
    pub closed spec fn next_handle(&self) -> u64 {
        self.next
    }

    /// Every stored handle lies below the allocation counter, so the
    /// counter always yields a fresh one.
    pub closed spec fn wf(&self) -> bool {
        &&& self.objects.wf()
        &&& forall|k: u64| self.objects@.dom().contains(k) ==> k < self.next
    }

    pub fn new() -> (r: Self)
        ensures
            r.wf(),
            r@ == Map::<u64, Resource>::empty(),
            r.next_handle() == 0,
    {
        Registry { next: 0, objects: KeyMap::new() }
    }

    /// Stores an object under a fresh handle.
    pub fn store(&mut self, data: Resource) -> (id: u64)
        requires
            old(self).wf(),
            old(self).next_handle() < u64::MAX,
        ensures
            final(self).wf(),
            id == old(self).next_handle(),
            !old(self)@.dom().contains(id),
            final(self)@ == old(self)@.insert(id, data),
            final(self).next_handle() == id + 1,
    {
        let id = self.next;
        self.next = self.next + 1;
        self.objects.insert(id, data);
        id
    }

    /// Stores an object under a caller-chosen handle, overwriting any
    /// existing entry there.
    pub fn store_as(&mut self, id: u64, data: Resource)
        requires
            old(self).wf(),
            id < u64::MAX,
        ensures
            final(self).wf(),
            final(self)@ == old(self)@.insert(id, data),
            final(self).next_handle() == if id >= old(self).next_handle() {
                id + 1
            } else {
                old(self).next_handle() as int
            },
    {
        if id >= self.next {
            self.next = id + 1;
        }
        self.objects.insert(id, data);
    }

    /// Looks the handle up; absence is an ordinary, checkable outcome.
    pub fn get(&self, id: u64) -> (r: Option<&Resource>)
        requires
            self.wf(),
        ensures
            match r {
                Some(v) => self@.dom().contains(id) && *v == self@[id],
                None => !self@.dom().contains(id),
            },
    {
        self.objects.get(id)
    }

    /// Mutable lookup with the same absence semantics as `get`.
    pub fn get_mut(&mut self, id: u64) -> (r: Option<&mut Resource>)
        requires
            old(self).wf(),
        ensures
            match r {
                Some(v) => old(self)@.dom().contains(id) && *v == old(self)@[id]
                    && final(self).wf() && final(self)@ == old(self)@.insert(id, *final(v))
                    && final(self).next_handle() == old(self).next_handle(),
                None => !old(self)@.dom().contains(id) && *final(self) == *old(self),
            },
    {
        self.objects.get_mut(id)
    }

    /// Typed retrieval: the stored object, if the handle is live and
    /// the entry is a buffer.
    pub fn get_buffer(&self, id: u64) -> (r: Option<&Buffer>)
        requires
            self.wf(),
        ensures
            match r {
                Some(b) => self@.dom().contains(id) && self@[id] == Resource::Buffer(*b),
                None => !self@.dom().contains(id) || !(self@[id] is Buffer),
            },
    {
        match self.objects.get(id) {
            Some(res) => match res {
                Resource::Buffer(b) => Some(b),
                _ => None,
            },
            None => None,
        }
    }
}

} // verus!

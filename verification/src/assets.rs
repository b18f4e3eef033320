//! The asset store the batcher reads.
//!
//! Meshes and materials arrive asynchronously; an identifier whose
//! asset has not finished loading is simply absent, and the entity
//! referencing it is skipped for the frame and reconsidered on the
//! next one.

use vstd::prelude::*;

use crate::keymap::KeyMap;
use crate::material::Material;
use crate::mesh::Mesh;

verus! {

/// Mesh and material assets by identifier.
pub struct Assets {
    meshes: KeyMap<Mesh>,
    materials: KeyMap<Material>,
}

impl Assets {
    pub closed spec fn meshes(&self) -> Map<u64, Mesh> {
        self.meshes@
    }

    pub closed spec fn materials(&self) -> Map<u64, Material> {
        self.materials@
    }

    /// Stored maps are well formed and every mesh's data length
    /// agrees with its vertex count.
    pub closed spec fn wf(&self) -> bool {
        &&& self.meshes.wf()
        &&& self.materials.wf()
        &&& forall|id: u64|
            self.meshes@.dom().contains(id) ==> (#[trigger] self.meshes@[id]).wf()
    }

    pub fn new() -> (r: Self)
        ensures
            r.wf(),
            r.meshes() == Map::<u64, Mesh>::empty(),
            r.materials() == Map::<u64, Material>::empty(),
    {
        Assets { meshes: KeyMap::new(), materials: KeyMap::new() }
    }

    /// Publishes (or replaces) a mesh asset.
    pub fn set_mesh(&mut self, id: u64, mesh: Mesh)
        requires
            old(self).wf(),
            mesh.wf(),
        ensures
            final(self).wf(),
            final(self).meshes() == old(self).meshes().insert(id, mesh),
            final(self).materials() == old(self).materials(),
    {
        self.meshes.insert(id, mesh);
    }

    /// Publishes (or replaces) a material asset.
    pub fn set_material(&mut self, id: u64, material: Material)
        requires
            old(self).wf(),
        ensures
            final(self).wf(),
            final(self).materials() == old(self).materials().insert(id, material),
            final(self).meshes() == old(self).meshes(),
    {
        self.materials.insert(id, material);
    }

    /// The mesh under `id`, if it has finished loading.
    pub fn mesh(&self, id: u64) -> (r: Option<&Mesh>)
        requires
            self.wf(),
        ensures
            match r {
                Some(m) => self.meshes().dom().contains(id) && *m == self.meshes()[id],
                None => !self.meshes().dom().contains(id),
            },
    {
        self.meshes.get(id)
    }

    /// The material under `id`, if it has finished loading.
    pub fn material(&self, id: u64) -> (r: Option<&Material>)
        requires
            self.wf(),
        ensures
            match r {
                Some(m) => self.materials().dom().contains(id) && *m == self.materials()[id],
                None => !self.materials().dom().contains(id),
            },
    {
        self.materials.get(id)
    }
}

} // verus!

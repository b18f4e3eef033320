//! Mesh assets as the batcher consumes them.
//!
//! The batched solid-geometry path works on non-indexed meshes with a
//! fixed vertex layout of position, normal and texture-UV — eight
//! 32-bit values, 32 bytes per vertex.  A mesh that carries an index
//! buffer is rejected by that path, never silently mishandled.

use vstd::prelude::*;

verus! {

/// Byte size of one vertex in the solid layout: position, normal and
/// texture-UV, four bytes per component.
pub const VERTEX_SIZE: u64 = 32;

/// A mesh asset, its vertex data already packed in the solid layout.
pub struct Mesh {
    /// Content version; bumped by the asset pipeline when the data
    /// changes.
    pub version: u32,
    pub vertex_count: u32,
    /// Packed vertex data, `vertex_count` times `VERTEX_SIZE` bytes.
    pub data: Vec<u8>,
    /// Whether the mesh carries an index buffer.
    pub indexed: bool,
}

impl Mesh {
    /// The data length agrees with the vertex count.
    pub open spec fn wf(&self) -> bool {
        self.data@.len() == self.vertex_count * VERTEX_SIZE
    }

    pub fn version(&self) -> (r: u32)
        ensures
            r == self.version,
    {
        self.version
    }

    pub fn count_vertices(&self) -> (r: u32)
        ensures
            r == self.vertex_count,
    {
        self.vertex_count
    }
}

} // verus!

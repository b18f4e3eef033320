//! Instanced-draw batching of scene geometry.
//!
//! Each frame, the batcher walks the drawable entities, settles the
//! residency of their meshes in the shared vertex buffer (uploading a
//! mesh's data once per content version), assigns stable slots for
//! transforms and materials, groups instances by mesh and emits one
//! indirect draw record per distinct mesh — so the whole scene is
//! drawn by a single multi-draw-indirect call.
//!
//! The shared buffers are sized once at startup; a write that would
//! not fit is a fatal configuration error, reported, never clipped.
//! An entity whose assets have not finished loading is skipped for
//! the frame.  An indexed mesh reaching this non-indexed path is
//! rejected explicitly.

use vstd::prelude::*;

use crate::assets::Assets;
use crate::bytes::le_bytes_of_words;
use crate::entity::Entity;
use crate::entity::TRANSFORM_SIZE;
use crate::gpu::Gpu;
use crate::keymap::KeyMap;
use crate::material::MATERIAL_UNIFORM_SIZE;
use crate::material::Material;
use crate::material::material_uniform_bytes;
use crate::mesh::Mesh;
use crate::mesh::VERTEX_SIZE;
use crate::registry::BindGroup;
use crate::registry::Resource;
use crate::registry::ShaderModule;
use crate::registry::as_buffer;
use crate::registry::RenderPipeline;

verus! {

/// Byte size of one per-instance record.
pub const INSTANCE_SIZE: u64 = 16;

/// Byte size of one indirect draw record.
pub const INDIRECT_COMMAND_SIZE: u64 = 16;

/// Byte size of the camera uniform: two 4×4 matrices.
pub const CAMERA_UNIFORM_SIZE: u64 = 128;

/// Highest vertex-buffer capacity the batcher accepts: offsets must
/// stay expressible as 32-bit base-vertex indices.
pub const MAX_MESH_BUFFER_SIZE: u64 = 0x1f_ffff_ffff;

pub const DEFAULT_MESH_BUFFER_SIZE: u64 = 64 * 1024 * 1024;

pub const DEFAULT_TRANSFORM_BUFFER_SIZE: u64 = 8 * 1024 * 1024;

pub const DEFAULT_INDIRECT_BUFFER_SIZE: u64 = 8 * 1024 * 1024;

pub const DEFAULT_INSTANCES_BUFFER_SIZE: u64 = 1000 * 16;

pub const DEFAULT_MATERIALS_BUFFER_SIZE: u64 = 50 * 64;

/// Handles of the shared buffers and pipeline objects.
#[derive(Clone, Copy, PartialEq, Eq, Structural, Debug)]
pub struct Buffers {
    /// Shared vertex buffer for mesh data.
    pub mesh: u64,
    /// Per-slot transform matrices.
    pub transform: u64,
    /// Per-slot packed material uniforms.
    pub materials: u64,
    /// The solid-geometry render pipeline.
    pub solid_render_pipeline: u64,
    /// Indirect draw records.
    pub indirect: u64,
    /// Per-instance slot pairs.
    pub instances: u64,
    /// The solid-geometry shader module.
    pub shader_module: u64,
    /// Camera / instances / transforms / materials bind group.
    pub bind_group: u64,
    /// Camera uniform stand-in until a real camera exists.
    pub camera_mockup: u64,
}

/// A byte span inside a shared buffer.
#[derive(Clone, Copy, PartialEq, Eq, Structural, Debug)]
pub struct BufferLocation {
    pub offset: u64,
    pub size: u64,
}

/// Cache entry for a mesh resident in the shared vertex buffer.
#[derive(Clone, Copy, PartialEq, Eq, Structural, Debug)]
pub struct MeshLayout {
    /// Content version the entry was uploaded at.
    pub version: u32,
    pub vertex_buffer_location: BufferLocation,
    /// Unused on the non-indexed path.
    pub index_buffer_location: Option<BufferLocation>,
    /// Index of the mesh's first vertex in the shared buffer.
    pub base_vertex: u32,
    pub vertex_count: u32,
}

/// One per-instance record: the entity's transform slot and material
/// slot, plus reserved words.
#[derive(Clone, Copy, PartialEq, Eq, Structural, Debug)]
pub struct Instance {
    pub base_transform: u32,
    pub base_material: u32,
    pub reserve_0: u32,
    pub reserve_1: u32,
}

/// One indirect draw record, in the device's native field order,
/// packed with no padding.
#[derive(Clone, Copy, PartialEq, Eq, Structural, Debug)]
pub struct IndirectCommand {
    pub vertex_count: u32,
    pub instance_count: u32,
    pub base_vertex: u32,
    pub base_instance: u32,
}

/// One pending host-to-device copy.
pub struct BufferWrite {
    pub offset: u64,
    pub data: Vec<u8>,
}

/// Everything one frame asks the device to do for the solid pass:
/// the buffer copies, the grouped instance table and the indirect
/// draw records.
pub struct FramePlan {
    /// Uploads of newly resident mesh data into the vertex buffer.
    pub mesh_writes: Vec<BufferWrite>,
    /// One transform rewrite per drawable entity, at its slot.
    pub transform_writes: Vec<BufferWrite>,
    /// One material rewrite per drawable entity, at its slot.
    pub material_writes: Vec<BufferWrite>,
    /// The whole instance table, grouped by mesh.
    pub instances: Vec<Instance>,
    /// One record per distinct mesh drawn this frame.
    pub commands: Vec<IndirectCommand>,
}

/// The shared buffer a failed write was aimed at.
#[derive(Clone, Copy, PartialEq, Eq, Structural, Debug)]
pub enum RenderBuffer {
    Mesh,
    Transform,
    Materials,
    Instances,
    Indirect,
}

/// Why a frame could not be batched.
#[derive(Clone, Copy, PartialEq, Eq, Structural, Debug)]
pub enum RenderError {
    /// An indexed mesh reached the non-indexed batching path.
    MeshIndexed { mesh: u64 },
    /// A write would exceed the named fixed-capacity buffer (or a
    /// slot index would leave its 32-bit range).
    CapacityExceeded { buffer: RenderBuffer },
}

// ---------------------------------------------------------------
// The frame's meaning, as functions of the query rows, the asset
// maps and the batcher state before the frame.
// ---------------------------------------------------------------

/// A row is drawable when both its assets have finished loading.
pub open spec fn row_drawable(m: Map<u64, Mesh>, t: Map<u64, Material>, e: Entity) -> bool {
    m.dom().contains(e.mesh) && t.dom().contains(e.material)
}

/// The cache entry for `id` is current: present at the asset's
/// version.
pub open spec fn mesh_current(cache: Map<u64, MeshLayout>, m: Map<u64, Mesh>, id: u64) -> bool {
    cache.dom().contains(id) && m.dom().contains(id) && cache[id].version == m[id].version
}

/// The drawable rows, in query order.
pub open spec fn drawable_seq(rows: Seq<Entity>, m: Map<u64, Mesh>, t: Map<u64, Material>) -> Seq<
    Entity,
>
    decreases rows.len(),
{
    if rows.len() == 0 {
        Seq::empty()
    } else {
        (if row_drawable(m, t, rows.first()) {
            seq![rows.first()]
        } else {
            Seq::empty()
        }) + drawable_seq(rows.drop_first(), m, t)
    }
}

/// The first drawable row whose mesh would need an upload but is
/// indexed, if any.
pub open spec fn first_indexed(
    rows: Seq<Entity>,
    m: Map<u64, Mesh>,
    t: Map<u64, Material>,
    cache: Map<u64, MeshLayout>,
) -> Option<u64>
    decreases rows.len(),
{
    if rows.len() == 0 {
        None
    } else {
        let e = rows.first();
        if row_drawable(m, t, e) && m[e.mesh].indexed && !mesh_current(cache, m, e.mesh) {
            Some(e.mesh)
        } else {
            first_indexed(rows.drop_first(), m, t, cache)
        }
    }
}

/// Mesh identifiers of the drawable rows, first encounter only, in
/// query order, starting from the given already-seen set.
pub open spec fn frame_meshes_from(
    rows: Seq<Entity>,
    m: Map<u64, Mesh>,
    t: Map<u64, Material>,
    seen: Set<u64>,
) -> Seq<u64>
    decreases rows.len(),
{
    if rows.len() == 0 {
        Seq::empty()
    } else {
        let e = rows.first();
        if row_drawable(m, t, e) && !seen.contains(e.mesh) {
            seq![e.mesh] + frame_meshes_from(rows.drop_first(), m, t, seen.insert(e.mesh))
        } else {
            frame_meshes_from(rows.drop_first(), m, t, seen)
        }
    }
}

/// The distinct meshes drawn this frame, in first-encounter order.
pub open spec fn frame_meshes(rows: Seq<Entity>, m: Map<u64, Mesh>, t: Map<u64, Material>) -> Seq<
    u64,
> {
    frame_meshes_from(rows, m, t, Set::empty())
}

/// Mesh identifiers the frame must upload: drawable rows' meshes not
/// current in the pre-frame cache, first encounter only.
pub open spec fn uploads_from(
    rows: Seq<Entity>,
    m: Map<u64, Mesh>,
    t: Map<u64, Material>,
    cache: Map<u64, MeshLayout>,
    seen: Set<u64>,
) -> Seq<u64>
    decreases rows.len(),
{
    if rows.len() == 0 {
        Seq::empty()
    } else {
        let e = rows.first();
        if row_drawable(m, t, e) && !mesh_current(cache, m, e.mesh) && !seen.contains(e.mesh) {
            seq![e.mesh] + uploads_from(rows.drop_first(), m, t, cache, seen.insert(e.mesh))
        } else {
            uploads_from(rows.drop_first(), m, t, cache, seen)
        }
    }
}

pub open spec fn upload_ids(
    rows: Seq<Entity>,
    m: Map<u64, Mesh>,
    t: Map<u64, Material>,
    cache: Map<u64, MeshLayout>,
) -> Seq<u64> {
    uploads_from(rows, m, t, cache, Set::empty())
}

/// Total byte size of the named meshes' vertex data.
pub open spec fn total_data_size(ids: Seq<u64>, m: Map<u64, Mesh>) -> int
    decreases ids.len(),
{
    if ids.len() == 0 {
        0
    } else {
        m[ids.first()].data@.len() + total_data_size(ids.drop_first(), m)
    }
}

/// Entity identifiers of drawable rows that have no transform slot
/// yet, first encounter only.
pub open spec fn new_keys_from(
    rows: Seq<Entity>,
    m: Map<u64, Mesh>,
    t: Map<u64, Material>,
    assigned: Set<u64>,
    by_material: bool,
) -> Seq<u64>
    decreases rows.len(),
{
    if rows.len() == 0 {
        Seq::empty()
    } else {
        let e = rows.first();
        let key = if by_material {
            e.material
        } else {
            e.entity
        };
        if row_drawable(m, t, e) && !assigned.contains(key) {
            seq![key] + new_keys_from(rows.drop_first(), m, t, assigned.insert(key), by_material)
        } else {
            new_keys_from(rows.drop_first(), m, t, assigned, by_material)
        }
    }
}

/// Entities that receive fresh transform slots this frame, in order.
pub open spec fn new_transform_keys(
    rows: Seq<Entity>,
    m: Map<u64, Mesh>,
    t: Map<u64, Material>,
    table: Map<u64, u32>,
) -> Seq<u64> {
    new_keys_from(rows, m, t, table.dom(), false)
}

/// Materials that receive fresh slots this frame, in order.
pub open spec fn new_material_keys(
    rows: Seq<Entity>,
    m: Map<u64, Mesh>,
    t: Map<u64, Material>,
    table: Map<u64, u32>,
) -> Seq<u64> {
    new_keys_from(rows, m, t, table.dom(), true)
}

/// Number of drawable rows whose mesh is `mid`.
pub open spec fn count_mesh(rows: Seq<Entity>, m: Map<u64, Mesh>, t: Map<u64, Material>, mid: u64) -> int
    decreases rows.len(),
{
    if rows.len() == 0 {
        0
    } else {
        (if row_drawable(m, t, rows.first()) && rows.first().mesh == mid {
            1int
        } else {
            0int
        }) + count_mesh(rows.drop_first(), m, t, mid)
    }
}

/// The per-instance records of the drawable rows with mesh `mid`, in
/// query order, under the given slot tables.
pub open spec fn mesh_instances(
    rows: Seq<Entity>,
    m: Map<u64, Mesh>,
    t: Map<u64, Material>,
    tslots: Map<u64, u32>,
    mslots: Map<u64, u32>,
    mid: u64,
) -> Seq<Instance>
    decreases rows.len(),
{
    if rows.len() == 0 {
        Seq::empty()
    } else {
        let e = rows.first();
        (if row_drawable(m, t, e) && e.mesh == mid {
            seq![
                Instance {
                    base_transform: tslots[e.entity],
                    base_material: mslots[e.material],
                    reserve_0: 0,
                    reserve_1: 0,
                },
            ]
        } else {
            Seq::empty()
        }) + mesh_instances(rows.drop_first(), m, t, tslots, mslots, mid)
    }
}

/// The instance table: each listed mesh's instances, contiguously, in
/// mesh order.
pub open spec fn instances_concat(
    rows: Seq<Entity>,
    m: Map<u64, Mesh>,
    t: Map<u64, Material>,
    tslots: Map<u64, u32>,
    mslots: Map<u64, u32>,
    mids: Seq<u64>,
) -> Seq<Instance>
    decreases mids.len(),
{
    if mids.len() == 0 {
        Seq::empty()
    } else {
        mesh_instances(rows, m, t, tslots, mslots, mids.first()) + instances_concat(
            rows,
            m,
            t,
            tslots,
            mslots,
            mids.drop_first(),
        )
    }
}

/// Instances drawn before the `q`-th listed mesh: the sum of the
/// earlier meshes' counts.
pub open spec fn base_instance_of(
    rows: Seq<Entity>,
    m: Map<u64, Mesh>,
    t: Map<u64, Material>,
    mids: Seq<u64>,
    q: int,
) -> int
    decreases q,
{
    if q <= 0 {
        0
    } else {
        base_instance_of(rows, m, t, mids, q - 1) + count_mesh(rows, m, t, mids[q - 1])
    }
}

// ---------------------------------------------------------------
// Step lemmas: walking a row sequence from the front.
// ---------------------------------------------------------------

pub proof fn lemma_skip_step<A>(s: Seq<A>, i: int)
    requires
        0 <= i < s.len(),
    ensures
        s.skip(i).len() == s.len() - i,
        s.skip(i).first() == s[i],
        s.skip(i).drop_first() =~= s.skip(i + 1),
{
}

pub proof fn lemma_skip_all<A>(s: Seq<A>)
    ensures
        s.skip(s.len() as int) =~= Seq::<A>::empty(),
        s.skip(0) =~= s,
{
}

// ---------------------------------------------------------------
// Buffer allocation.
// ---------------------------------------------------------------

/// The handle is live and holds a buffer.
pub open spec fn live_buffer(objs: Map<u64, Resource>, h: u64) -> bool {
    objs.dom().contains(h) && objs[h] is Buffer
}

/// Capacity of the buffer stored under `h`.
pub open spec fn buffer_cap(objs: Map<u64, Resource>, h: u64) -> int {
    as_buffer(objs[h]).unwrap()@.len() as int
}

/// A freshly allocated buffer: right size, right capability flags,
/// zeroed.
pub open spec fn fresh_buffer_at(objs: Map<u64, Resource>, h: u64, size: u64, usage: u32) -> bool {
    &&& live_buffer(objs, h)
    &&& as_buffer(objs[h]).unwrap().spec_usage() == usage
    &&& as_buffer(objs[h]).unwrap()@ == Seq::new(size as nat, |i: int| 0u8)
}

/// Buffer sizes for one renderer instance; the defaults suit scene-
/// scale content.
pub struct Extension {
    pub mesh_buffer_size: u64,
    pub transform_buffer_size: u64,
    pub indirect_buffer_size: u64,
    pub instances_buffer_size: u64,
    pub materials_buffer_size: u64,
}

impl Default for Extension {
    fn default() -> (r: Self)
        ensures
            r.mesh_buffer_size == DEFAULT_MESH_BUFFER_SIZE,
            r.transform_buffer_size == DEFAULT_TRANSFORM_BUFFER_SIZE,
            r.indirect_buffer_size == DEFAULT_INDIRECT_BUFFER_SIZE,
            r.instances_buffer_size == DEFAULT_INSTANCES_BUFFER_SIZE,
            r.materials_buffer_size == DEFAULT_MATERIALS_BUFFER_SIZE,
    {
        Extension {
            mesh_buffer_size: DEFAULT_MESH_BUFFER_SIZE,
            transform_buffer_size: DEFAULT_TRANSFORM_BUFFER_SIZE,
            indirect_buffer_size: DEFAULT_INDIRECT_BUFFER_SIZE,
            instances_buffer_size: DEFAULT_INSTANCES_BUFFER_SIZE,
            materials_buffer_size: DEFAULT_MATERIALS_BUFFER_SIZE,
        }
    }
}

/// Task allocating the shared buffers and pipeline objects, once: the
/// first run creates and registers them, every later run hands back
/// the same handles untouched.
pub struct Allocator {
    mesh_buffer_size: u64,
    transform_buffer_size: u64,
    indirect_buffer_size: u64,
    instances_buffer_size: u64,
    materials_buffer_size: u64,
    buffers: Option<Buffers>,
}

impl Allocator {
    pub closed spec fn spec_buffers(&self) -> Option<Buffers> {
        self.buffers
    }

    pub closed spec fn sizes(&self) -> (u64, u64, u64, u64, u64) {
        (
            self.mesh_buffer_size,
            self.transform_buffer_size,
            self.indirect_buffer_size,
            self.instances_buffer_size,
            self.materials_buffer_size,
        )
    }

    pub fn new(
        mesh_buffer_size: u64,
        transform_buffer_size: u64,
        indirect_buffer_size: u64,
        instances_buffer_size: u64,
        materials_buffer_size: u64,
    ) -> (r: Self)
        ensures
            r.spec_buffers() is None,
            r.sizes() == (
                mesh_buffer_size,
                transform_buffer_size,
                indirect_buffer_size,
                instances_buffer_size,
                materials_buffer_size,
            ),
    {
        Allocator {
            mesh_buffer_size,
            transform_buffer_size,
            indirect_buffer_size,
            instances_buffer_size,
            materials_buffer_size,
            buffers: None,
        }
    }

    /// Allocates the shared buffers on the first run; afterwards the
    /// stored handles are returned and nothing is touched.
    pub fn run(&mut self, gpu: &mut Gpu) -> (r: Buffers)
        requires
            old(gpu).wf(),
            old(gpu).next_handle() <= u64::MAX - 9,
            old(self).sizes().0 <= usize::MAX,
            old(self).sizes().1 <= usize::MAX,
            old(self).sizes().2 <= usize::MAX,
            old(self).sizes().3 <= usize::MAX,
            old(self).sizes().4 <= usize::MAX,
        ensures
            final(gpu).wf(),
            Gpu::same_frame_state(old(gpu), final(gpu)),
            final(self).sizes() == old(self).sizes(),
            final(self).spec_buffers() == Some(r),
            match old(self).spec_buffers() {
                Some(b) => r == b && Gpu::same_storage(old(gpu), final(gpu)),
                None => {
                    let n = old(gpu).next_handle();
                    let objs = final(gpu).objects();
                    &&& r == (Buffers {
                        mesh: n,
                        transform: (n + 1) as u64,
                        materials: (n + 2) as u64,
                        indirect: (n + 3) as u64,
                        instances: (n + 4) as u64,
                        solid_render_pipeline: (n + 5) as u64,
                        bind_group: (n + 6) as u64,
                        shader_module: (n + 7) as u64,
                        camera_mockup: (n + 8) as u64,
                    })
                    &&& final(gpu).next_handle() == n + 9
                    &&& fresh_buffer_at(
                        objs,
                        r.mesh,
                        old(self).sizes().0,
                        crate::buffer::USAGE_COPY_DST | crate::buffer::USAGE_VERTEX,
                    )
                    &&& fresh_buffer_at(
                        objs,
                        r.transform,
                        old(self).sizes().1,
                        crate::buffer::USAGE_COPY_DST | crate::buffer::USAGE_STORAGE,
                    )
                    &&& fresh_buffer_at(
                        objs,
                        r.materials,
                        old(self).sizes().4,
                        crate::buffer::USAGE_COPY_DST | crate::buffer::USAGE_STORAGE,
                    )
                    &&& fresh_buffer_at(
                        objs,
                        r.indirect,
                        old(self).sizes().2,
                        crate::buffer::USAGE_COPY_DST | crate::buffer::USAGE_INDIRECT,
                    )
                    &&& fresh_buffer_at(
                        objs,
                        r.instances,
                        old(self).sizes().3,
                        crate::buffer::USAGE_COPY_DST | crate::buffer::USAGE_STORAGE,
                    )
                    &&& fresh_buffer_at(
                        objs,
                        r.camera_mockup,
                        CAMERA_UNIFORM_SIZE,
                        crate::buffer::USAGE_COPY_DST | crate::buffer::USAGE_UNIFORM,
                    )
                    &&& objs[r.solid_render_pipeline] is RenderPipeline
                    &&& objs[r.bind_group] is BindGroup
                    &&& objs[r.shader_module] is ShaderModule
                    &&& forall|k: u64|
                        old(gpu).objects().dom().contains(k) ==> objs.dom().contains(k)
                            && objs[k] == old(gpu).objects()[k]
                },
            },
    {
        match self.buffers {
            Some(b) => b,
            None => {
                proof {
                    assert((0u32 | 8) | 32 == 8u32 | 32) by (bit_vector);
                    assert((0u32 | 8) | 128 == 8u32 | 128) by (bit_vector);
                    assert((0u32 | 8) | 256 == 8u32 | 256) by (bit_vector);
                    assert((0u32 | 8) | 64 == 8u32 | 64) by (bit_vector);
                }
                let mesh_buffer = gpu.buffer().size(
                    self.mesh_buffer_size,
                ).allow_copy_dst().use_as_vertex().create();
                let transform_buffer = gpu.buffer().size(
                    self.transform_buffer_size,
                ).allow_copy_dst().use_as_storage().create();
                let materials_buffer = gpu.buffer().size(
                    self.materials_buffer_size,
                ).allow_copy_dst().use_as_storage().create();
                let indirect_buffer = gpu.buffer().size(
                    self.indirect_buffer_size,
                ).allow_copy_dst().use_as_indirect().create();
                let instances_buffer = gpu.buffer().size(
                    self.instances_buffer_size,
                ).allow_copy_dst().use_as_storage().create();
                let camera_mockup = gpu.buffer().size(
                    CAMERA_UNIFORM_SIZE,
                ).allow_copy_dst().use_as_uniform().create();

                let mesh = gpu.store(Resource::Buffer(mesh_buffer));
                let transform = gpu.store(Resource::Buffer(transform_buffer));
                let materials = gpu.store(Resource::Buffer(materials_buffer));
                let indirect = gpu.store(Resource::Buffer(indirect_buffer));
                let instances = gpu.store(Resource::Buffer(instances_buffer));
                let solid_render_pipeline = gpu.store(
                    Resource::RenderPipeline(RenderPipeline {}),
                );
                let bind_group = gpu.store(Resource::BindGroup(BindGroup {}));
                let shader_module = gpu.store(Resource::ShaderModule(ShaderModule {}));
                let camera = gpu.store(Resource::Buffer(camera_mockup));

                let buffers = Buffers {
                    mesh,
                    transform,
                    materials,
                    solid_render_pipeline,
                    indirect,
                    instances,
                    shader_module,
                    bind_group,
                    camera_mockup: camera,
                };
                self.buffers = Some(buffers);
                buffers
            },
        }
    }
}

// ---------------------------------------------------------------
// The per-frame batching task.
// ---------------------------------------------------------------

/// A slot table is a bijection onto `0 .. len`.
pub open spec fn slot_table_wf(tab: Map<u64, u32>, len: nat) -> bool {
    &&& len <= u32::MAX
    &&& forall|k: u64| tab.dom().contains(k) ==> (#[trigger] tab[k]) < len
    &&& forall|k1: u64, k2: u64|
        tab.dom().contains(k1) && tab.dom().contains(k2) && #[trigger] tab[k1] == #[trigger] tab[k2]
            ==> k1 == k2
}

/// The slot tables after assigning consecutive fresh slots, starting
/// at `base`, to the listed keys in order.
pub open spec fn slots_after(tab: Map<u64, u32>, base: int, ks: Seq<u64>) -> Map<u64, u32>
    decreases ks.len(),
{
    if ks.len() == 0 {
        tab
    } else {
        slots_after(tab.insert(ks.first(), base as u32), base + 1, ks.drop_first())
    }
}

/// The layout a mesh gets when uploaded at `offset`.
pub open spec fn upload_layout(mesh: Mesh, offset: u64) -> MeshLayout {
    MeshLayout {
        version: mesh.version,
        vertex_buffer_location: BufferLocation { offset, size: mesh.data@.len() as u64 },
        index_buffer_location: None,
        base_vertex: (offset / VERTEX_SIZE as u64) as u32,
        vertex_count: mesh.vertex_count,
    }
}

/// Vertex-buffer offset of the `j`-th uploaded mesh.
pub open spec fn upload_offset(base: u64, ids: Seq<u64>, m: Map<u64, Mesh>, j: int) -> int {
    base + total_data_size(ids.take(j), m)
}

/// The indirect record emitted for the `p`-th listed mesh.
pub open spec fn spec_command(
    rows: Seq<Entity>,
    m: Map<u64, Mesh>,
    t: Map<u64, Material>,
    cache: Map<u64, MeshLayout>,
    mids: Seq<u64>,
    p: int,
) -> IndirectCommand {
    IndirectCommand {
        vertex_count: cache[mids[p]].vertex_count,
        instance_count: count_mesh(rows, m, t, mids[p]) as u32,
        base_vertex: cache[mids[p]].base_vertex,
        base_instance: base_instance_of(rows, m, t, mids, p) as u32,
    }
}

/// Number of drawable rows whose mesh lies in `ms`.
pub open spec fn count_in(rows: Seq<Entity>, m: Map<u64, Mesh>, t: Map<u64, Material>, ms: Set<u64>) -> int
    decreases rows.len(),
{
    if rows.len() == 0 {
        0
    } else {
        (if row_drawable(m, t, rows.first()) && ms.contains(rows.first().mesh) {
            1int
        } else {
            0int
        }) + count_in(rows.drop_first(), m, t, ms)
    }
}

/// The frame's mesh uploads would overrun the vertex buffer.  A
/// frame that uploads nothing writes nothing, so it cannot overrun.
pub open spec fn spec_mesh_over(
    rows: Seq<Entity>,
    m: Map<u64, Mesh>,
    t: Map<u64, Material>,
    cache: Map<u64, MeshLayout>,
    size0: u64,
    mcap: int,
) -> bool {
    upload_ids(rows, m, t, cache).len() > 0 && size0 + total_data_size(
        upload_ids(rows, m, t, cache),
        m,
    ) > mcap
}

/// A slot table would leave its 32-bit range, or some drawable row's
/// slot record would overrun its buffer.
pub open spec fn spec_table_over(
    rows: Seq<Entity>,
    m: Map<u64, Mesh>,
    t: Map<u64, Material>,
    tab: Map<u64, u32>,
    len0: nat,
    entry: int,
    cap: int,
    by_material: bool,
) -> bool {
    let nk = new_keys_from(rows, m, t, tab.dom(), by_material);
    let ft = slots_after(tab, len0 as int, nk);
    ||| len0 + nk.len() > u32::MAX
    ||| exists|i: int|
        0 <= i < rows.len() && row_drawable(m, t, #[trigger] rows[i]) && (ft[if by_material {
            rows[i].material
        } else {
            rows[i].entity
        }] + 1) * entry > cap
}

/// The frame's instance records would overrun the instance buffer.
pub open spec fn spec_instance_over(
    rows: Seq<Entity>,
    m: Map<u64, Mesh>,
    t: Map<u64, Material>,
    icap: int,
) -> bool {
    drawable_seq(rows, m, t).len() > u32::MAX || drawable_seq(rows, m, t).len() * (
    INSTANCE_SIZE as int) > icap
}

/// The frame's indirect records would overrun the indirect buffer.
pub open spec fn spec_indirect_over(
    rows: Seq<Entity>,
    m: Map<u64, Mesh>,
    t: Map<u64, Material>,
    dcap: int,
) -> bool {
    frame_meshes(rows, m, t).len() > u32::MAX || frame_meshes(rows, m, t).len() * (
    INDIRECT_COMMAND_SIZE as int) > dcap
}

/// One host-to-device copy applied to a buffer image: the spliced
/// image if the write fits, the unchanged image otherwise.
pub open spec fn splice_bytes(img: Seq<u8>, offset: int, data: Seq<u8>) -> Seq<u8> {
    if offset + data.len() <= img.len() && offset >= 0 {
        img.take(offset) + data + img.skip(offset + data.len())
    } else {
        img
    }
}

/// A list of copies applied in order.
pub open spec fn apply_writes(img: Seq<u8>, ws: Seq<BufferWrite>) -> Seq<u8>
    decreases ws.len(),
{
    if ws.len() == 0 {
        img
    } else {
        apply_writes(splice_bytes(img, ws.first().offset as int, ws.first().data@), ws.drop_first())
    }
}

pub proof fn lemma_apply_writes_len(img: Seq<u8>, ws: Seq<BufferWrite>)
    ensures
        apply_writes(img, ws).len() == img.len(),
    decreases ws.len(),
{
    if ws.len() > 0 {
        lemma_apply_writes_len(
            splice_bytes(img, ws.first().offset as int, ws.first().data@),
            ws.drop_first(),
        );
    }
}

/// Appending one more copy applies it last.
pub proof fn lemma_apply_writes_push(img: Seq<u8>, ws: Seq<BufferWrite>, w: BufferWrite)
    ensures
        apply_writes(img, ws.push(w)) == splice_bytes(
            apply_writes(img, ws),
            w.offset as int,
            w.data@,
        ),
    decreases ws.len(),
{
    if ws.len() == 0 {
        assert(ws.push(w).first() == w);
        assert(ws.push(w).drop_first() =~= Seq::<BufferWrite>::empty());
        assert(apply_writes(img, ws.push(w)) == apply_writes(
            splice_bytes(img, w.offset as int, w.data@),
            ws.push(w).drop_first(),
        ));
    } else {
        assert(ws.push(w).first() == ws.first());
        assert(ws.push(w).drop_first() =~= ws.drop_first().push(w));
        lemma_apply_writes_push(
            splice_bytes(img, ws.first().offset as int, ws.first().data@),
            ws.drop_first(),
            w,
        );
    }
}

/// Reading a just-written span back yields the written bytes exactly.
pub proof fn lemma_write_read_round_trip(img: Seq<u8>, offset: int, data: Seq<u8>)
    requires
        0 <= offset,
        offset + data.len() <= img.len(),
    ensures
        splice_bytes(img, offset, data).subrange(offset, offset + data.len()) == data,
{
    assert(splice_bytes(img, offset, data).subrange(offset, offset + data.len()) =~= data);
}

// ---------------------------------------------------------------
// Counting and partition lemmas.
// ---------------------------------------------------------------

/// One mesh's instances are no more than all drawable rows.
pub proof fn lemma_count_mesh_le(
    rows: Seq<Entity>,
    m: Map<u64, Mesh>,
    t: Map<u64, Material>,
    mid: u64,
)
    ensures
        0 <= count_mesh(rows, m, t, mid) <= drawable_seq(rows, m, t).len(),
    decreases rows.len(),
{
    if rows.len() > 0 {
        lemma_count_mesh_le(rows.drop_first(), m, t, mid);
    }
}

/// A slot check against the entry size, through the buffer capacity's
/// quotient.
pub proof fn lemma_slot_capacity_check(s: int, entry: int, cap: int)
    requires
        entry > 0,
        s >= 0,
        cap >= 0,
    ensures
        s >= cap / entry ==> (s + 1) * entry > cap,
        s < cap / entry ==> (s + 1) * entry <= cap,
{
    vstd::arithmetic::div_mod::lemma_fundamental_div_mod(cap, entry);
    vstd::arithmetic::div_mod::lemma_mod_bound(cap, entry);
    let d = cap / entry;
    let rem = cap % entry;
    if s >= d {
        assert((s + 1) * entry > entry * d + rem) by (nonlinear_arith)
            requires
                s >= d,
                entry > 0,
                0 <= rem < entry,
        ;
    } else {
        assert((s + 1) * entry <= entry * d + rem) by (nonlinear_arith)
            requires
                s + 1 <= d,
                entry > 0,
                0 <= rem,
        ;
    }
}

/// Batch assignment never touches an unlisted key.
pub proof fn lemma_slots_after_preserves_key(tab: Map<u64, u32>, base: int, ks: Seq<u64>, key: u64)
    requires
        forall|j: int| 0 <= j < ks.len() ==> #[trigger] ks[j] != key,
    ensures
        slots_after(tab, base, ks).dom().contains(key) == tab.dom().contains(key),
        tab.dom().contains(key) ==> slots_after(tab, base, ks)[key] == tab[key],
    decreases ks.len(),
{
    if ks.len() > 0 {
        assert(ks[0] == ks.first());
        assert forall|j: int| 0 <= j < ks.drop_first().len() implies #[trigger] ks.drop_first()[j]
            != key by {
            assert(ks.drop_first()[j] == ks[j + 1]);
        }
        lemma_slots_after_preserves_key(
            tab.insert(ks.first(), base as u32),
            base + 1,
            ks.drop_first(),
            key,
        );
    }
}

/// A key already assigned keeps its slot through the rest of the
/// frame's assignments.
pub proof fn lemma_final_slot_of_assigned(
    tab: Map<u64, u32>,
    base: int,
    done: Seq<u64>,
    rest: Seq<u64>,
    key: u64,
)
    requires
        forall|j: int|
            0 <= j < rest.len() ==> !slots_after(tab, base, done).dom().contains(
                #[trigger] rest[j],
            ),
        slots_after(tab, base, done).dom().contains(key),
    ensures
        slots_after(tab, base, done + rest)[key] == slots_after(tab, base, done)[key],
        slots_after(tab, base, done + rest).dom().contains(key),
{
    lemma_slots_after_concat(tab, base, done, rest);
    assert forall|j: int| 0 <= j < rest.len() implies #[trigger] rest[j] != key by {}
    lemma_slots_after_preserves_key(slots_after(tab, base, done), base + done.len(), rest, key);
}

/// A non-empty sequence's element set splits off its head.
pub proof fn lemma_to_set_first_rest(s: Seq<u64>)
    requires
        s.len() > 0,
    ensures
        s.to_set() =~= s.drop_first().to_set().insert(s.first()),
{
    assert forall|a: u64| s.to_set().contains(a) implies s.drop_first().to_set().insert(
        s.first(),
    ).contains(a) by {
        let i = choose|i: int| 0 <= i < s.len() && s[i] == a;
        if i > 0 {
            assert(s.drop_first()[i - 1] == a);
        }
    }
    assert forall|a: u64|
        s.drop_first().to_set().insert(s.first()).contains(a) implies s.to_set().contains(a) by {
        if a == s.first() {
            assert(s[0] == a);
        } else {
            let i = choose|i: int| 0 <= i < s.drop_first().len() && s.drop_first()[i] == a;
            assert(s[i + 1] == a);
        }
    }
}

pub proof fn lemma_mesh_instances_len(
    rows: Seq<Entity>,
    m: Map<u64, Mesh>,
    t: Map<u64, Material>,
    tf: Map<u64, u32>,
    mf: Map<u64, u32>,
    mid: u64,
)
    ensures
        mesh_instances(rows, m, t, tf, mf, mid).len() == count_mesh(rows, m, t, mid),
        count_mesh(rows, m, t, mid) >= 0,
    decreases rows.len(),
{
    if rows.len() > 0 {
        lemma_mesh_instances_len(rows.drop_first(), m, t, tf, mf, mid);
    }
}

pub proof fn lemma_count_in_insert(
    rows: Seq<Entity>,
    m: Map<u64, Mesh>,
    t: Map<u64, Material>,
    ms: Set<u64>,
    x: u64,
)
    requires
        !ms.contains(x),
    ensures
        count_in(rows, m, t, ms.insert(x)) == count_in(rows, m, t, ms) + count_mesh(rows, m, t, x),
    decreases rows.len(),
{
    if rows.len() > 0 {
        lemma_count_in_insert(rows.drop_first(), m, t, ms, x);
    }
}

pub proof fn lemma_count_in_le(
    rows: Seq<Entity>,
    m: Map<u64, Mesh>,
    t: Map<u64, Material>,
    ms: Set<u64>,
)
    ensures
        0 <= count_in(rows, m, t, ms) <= drawable_seq(rows, m, t).len(),
    decreases rows.len(),
{
    if rows.len() > 0 {
        lemma_count_in_le(rows.drop_first(), m, t, ms);
    }
}

/// For distinct meshes, the running base-instance total counts the
/// drawable rows whose mesh was already listed.
pub proof fn lemma_base_instance_count_in(
    rows: Seq<Entity>,
    m: Map<u64, Mesh>,
    t: Map<u64, Material>,
    mids: Seq<u64>,
    q: int,
)
    requires
        mids.no_duplicates(),
        0 <= q <= mids.len(),
    ensures
        base_instance_of(rows, m, t, mids, q) == count_in(rows, m, t, mids.take(q).to_set()),
    decreases q,
{
    if q == 0 {
        assert(mids.take(0).to_set() =~= Set::<u64>::empty());
        assert(count_in(rows, m, t, Set::<u64>::empty()) == 0) by {
            lemma_count_in_empty(rows, m, t);
        }
    } else {
        lemma_base_instance_count_in(rows, m, t, mids, q - 1);
        assert(!mids.take(q - 1).contains(mids[q - 1]));
        assert(mids.take(q) =~= mids.take(q - 1).push(mids[q - 1]));
        mids.take(q - 1).lemma_push_to_set_commute(mids[q - 1]);
        assert(!mids.take(q - 1).to_set().contains(mids[q - 1]));
        lemma_count_in_insert(rows, m, t, mids.take(q - 1).to_set(), mids[q - 1]);
    }
}

proof fn lemma_count_in_empty(rows: Seq<Entity>, m: Map<u64, Mesh>, t: Map<u64, Material>)
    ensures
        count_in(rows, m, t, Set::<u64>::empty()) == 0,
    decreases rows.len(),
{
    if rows.len() > 0 {
        lemma_count_in_empty(rows.drop_first(), m, t);
    }
}

/// Every drawable row's mesh is either already seen or listed by the
/// frame.
pub proof fn lemma_frame_meshes_cover(
    rows: Seq<Entity>,
    m: Map<u64, Mesh>,
    t: Map<u64, Material>,
    seen: Set<u64>,
)
    ensures
        forall|i: int|
            0 <= i < rows.len() && row_drawable(m, t, #[trigger] rows[i]) ==> seen.contains(
                rows[i].mesh,
            ) || frame_meshes_from(rows, m, t, seen).contains(rows[i].mesh),
    decreases rows.len(),
{
    if rows.len() > 0 {
        let e = rows.first();
        if row_drawable(m, t, e) && !seen.contains(e.mesh) {
            lemma_frame_meshes_cover(rows.drop_first(), m, t, seen.insert(e.mesh));
            assert forall|i: int|
                0 <= i < rows.len() && row_drawable(m, t, #[trigger] rows[i]) implies seen.contains(
                rows[i].mesh,
            ) || frame_meshes_from(rows, m, t, seen).contains(rows[i].mesh) by {
                if i == 0 {
                    assert(frame_meshes_from(rows, m, t, seen)[0] == e.mesh);
                } else {
                    assert(rows.drop_first()[i - 1] == rows[i]);
                    if !seen.insert(e.mesh).contains(rows[i].mesh) {
                        let rest = frame_meshes_from(rows.drop_first(), m, t, seen.insert(e.mesh));
                        let j = choose|j: int| 0 <= j < rest.len() && rest[j] == rows[i].mesh;
                        assert(frame_meshes_from(rows, m, t, seen)[j + 1] == rows[i].mesh);
                    } else if rows[i].mesh == e.mesh {
                        assert(frame_meshes_from(rows, m, t, seen)[0] == e.mesh);
                    }
                }
            }
        } else {
            lemma_frame_meshes_cover(rows.drop_first(), m, t, seen);
            assert forall|i: int|
                0 <= i < rows.len() && row_drawable(m, t, #[trigger] rows[i]) implies seen.contains(
                rows[i].mesh,
            ) || frame_meshes_from(rows, m, t, seen).contains(rows[i].mesh) by {
                if i > 0 {
                    assert(rows.drop_first()[i - 1] == rows[i]);
                    if !seen.contains(rows[i].mesh) {
                        let rest = frame_meshes_from(rows.drop_first(), m, t, seen);
                        let j = choose|j: int| 0 <= j < rest.len() && rest[j] == rows[i].mesh;
                        assert(frame_meshes_from(rows, m, t, seen)[j] == rows[i].mesh);
                    }
                }
            }
        }
    }
}

/// When a mesh set covers every drawable row, counting inside it
/// counts every drawable row.
pub proof fn lemma_count_in_full(
    rows: Seq<Entity>,
    m: Map<u64, Mesh>,
    t: Map<u64, Material>,
    ms: Set<u64>,
)
    requires
        forall|i: int|
            0 <= i < rows.len() && row_drawable(m, t, #[trigger] rows[i]) ==> ms.contains(
                rows[i].mesh,
            ),
    ensures
        count_in(rows, m, t, ms) == drawable_seq(rows, m, t).len(),
    decreases rows.len(),
{
    if rows.len() > 0 {
        assert forall|i: int|
            0 <= i < rows.drop_first().len() && row_drawable(
                m,
                t,
                #[trigger] rows.drop_first()[i],
            ) implies ms.contains(rows.drop_first()[i].mesh) by {
            assert(rows.drop_first()[i] == rows[i + 1]);
        }
        lemma_count_in_full(rows.drop_first(), m, t, ms);
    }
}

/// The instance table of the listed meshes, taken together, holds one
/// record per drawable row whose mesh is listed.
pub proof fn lemma_instances_concat_len(
    rows: Seq<Entity>,
    m: Map<u64, Mesh>,
    t: Map<u64, Material>,
    tf: Map<u64, u32>,
    mf: Map<u64, u32>,
    mids: Seq<u64>,
)
    requires
        mids.no_duplicates(),
    ensures
        instances_concat(rows, m, t, tf, mf, mids).len() == count_in(rows, m, t, mids.to_set()),
    decreases mids.len(),
{
    if mids.len() == 0 {
        assert(mids.to_set() =~= Set::<u64>::empty());
        lemma_count_in_empty(rows, m, t);
    } else {
        let rest = mids.drop_first();
        assert(rest.no_duplicates());
        lemma_instances_concat_len(rows, m, t, tf, mf, rest);
        lemma_mesh_instances_len(rows, m, t, tf, mf, mids.first());
        assert(!rest.contains(mids.first())) by {
            assert forall|j: int| 0 <= j < rest.len() implies rest[j] != mids.first() by {
                assert(rest[j] == mids[j + 1]);
            }
        }
        assert(!rest.to_set().contains(mids.first()));
        lemma_count_in_insert(rows, m, t, rest.to_set(), mids.first());
        lemma_to_set_first_rest(mids);
    }
}

/// Appending a mesh to the listing appends its instances.
pub proof fn lemma_instances_concat_push(
    rows: Seq<Entity>,
    m: Map<u64, Mesh>,
    t: Map<u64, Material>,
    tf: Map<u64, u32>,
    mf: Map<u64, u32>,
    mids: Seq<u64>,
    x: u64,
)
    ensures
        instances_concat(rows, m, t, tf, mf, mids.push(x)) == instances_concat(
            rows,
            m,
            t,
            tf,
            mf,
            mids,
        ) + mesh_instances(rows, m, t, tf, mf, x),
    decreases mids.len(),
{
    if mids.len() == 0 {
        assert(mids.push(x).first() == x);
        assert(mids.push(x).drop_first() =~= Seq::<u64>::empty());
        assert(instances_concat(rows, m, t, tf, mf, mids.push(x)) == mesh_instances(
            rows,
            m,
            t,
            tf,
            mf,
            x,
        ) + instances_concat(rows, m, t, tf, mf, Seq::<u64>::empty()));
        assert(instances_concat(rows, m, t, tf, mf, Seq::<u64>::empty()) =~= Seq::<
            Instance,
        >::empty());
        assert(instances_concat(rows, m, t, tf, mf, mids.push(x)) =~= instances_concat(
            rows,
            m,
            t,
            tf,
            mf,
            mids,
        ) + mesh_instances(rows, m, t, tf, mf, x));
    } else {
        assert(mids.push(x).first() == mids.first());
        assert(mids.push(x).drop_first() =~= mids.drop_first().push(x));
        lemma_instances_concat_push(rows, m, t, tf, mf, mids.drop_first(), x);
        assert(instances_concat(rows, m, t, tf, mf, mids.push(x)) == mesh_instances(
            rows,
            m,
            t,
            tf,
            mf,
            mids.first(),
        ) + instances_concat(rows, m, t, tf, mf, mids.drop_first().push(x)));
        assert(instances_concat(rows, m, t, tf, mf, mids) == mesh_instances(
            rows,
            m,
            t,
            tf,
            mf,
            mids.first(),
        ) + instances_concat(rows, m, t, tf, mf, mids.drop_first()));
        assert(instances_concat(rows, m, t, tf, mf, mids.push(x)) =~= instances_concat(
            rows,
            m,
            t,
            tf,
            mf,
            mids,
        ) + mesh_instances(rows, m, t, tf, mf, x));
    }
}

proof fn lemma_uploads_not_current(
    rows: Seq<Entity>,
    m: Map<u64, Mesh>,
    t: Map<u64, Material>,
    cache: Map<u64, MeshLayout>,
    seen: Set<u64>,
)
    ensures
        forall|j: int|
            0 <= j < uploads_from(rows, m, t, cache, seen).len() ==> !mesh_current(
                cache,
                m,
                #[trigger] uploads_from(rows, m, t, cache, seen)[j],
            ),
    decreases rows.len(),
{
    if rows.len() > 0 {
        let e = rows.first();
        if row_drawable(m, t, e) && !mesh_current(cache, m, e.mesh) && !seen.contains(e.mesh) {
            lemma_uploads_not_current(rows.drop_first(), m, t, cache, seen.insert(e.mesh));
            let rest = uploads_from(rows.drop_first(), m, t, cache, seen.insert(e.mesh));
            let whole = uploads_from(rows, m, t, cache, seen);
            assert(whole =~= seq![e.mesh] + rest);
            assert forall|j: int| 0 <= j < whole.len() implies !mesh_current(
                cache,
                m,
                #[trigger] whole[j],
            ) by {
                if j > 0 {
                    assert(whole[j] == rest[j - 1]);
                }
            }
        } else {
            lemma_uploads_not_current(rows.drop_first(), m, t, cache, seen);
            assert(uploads_from(rows, m, t, cache, seen) == uploads_from(
                rows.drop_first(),
                m,
                t,
                cache,
                seen,
            ));
        }
    }
}

/// A mesh cached at its current content version is never uploaded
/// again: its cache entry, and the vertex buffer bytes under it, are
/// reused as they are.
pub proof fn lemma_cached_mesh_reused(
    rows: Seq<Entity>,
    m: Map<u64, Mesh>,
    t: Map<u64, Material>,
    cache: Map<u64, MeshLayout>,
    id: u64,
)
    requires
        mesh_current(cache, m, id),
    ensures
        !upload_ids(rows, m, t, cache).contains(id),
{
    lemma_uploads_not_current(rows, m, t, cache, Set::empty());
    if upload_ids(rows, m, t, cache).contains(id) {
        let j = choose|j: int|
            0 <= j < upload_ids(rows, m, t, cache).len() && upload_ids(rows, m, t, cache)[j] == id;
        assert(!mesh_current(cache, m, upload_ids(rows, m, t, cache)[j]));
    }
}

/// The frame's mesh listing repeats no mesh and lists none already
/// seen.
pub proof fn lemma_frame_meshes_distinct(
    rows: Seq<Entity>,
    m: Map<u64, Mesh>,
    t: Map<u64, Material>,
    seen: Set<u64>,
)
    ensures
        frame_meshes_from(rows, m, t, seen).no_duplicates(),
        forall|j: int|
            0 <= j < frame_meshes_from(rows, m, t, seen).len() ==> !seen.contains(
                #[trigger] frame_meshes_from(rows, m, t, seen)[j],
            ),
    decreases rows.len(),
{
    if rows.len() > 0 {
        let e = rows.first();
        if row_drawable(m, t, e) && !seen.contains(e.mesh) {
            lemma_frame_meshes_distinct(rows.drop_first(), m, t, seen.insert(e.mesh));
            let rest = frame_meshes_from(rows.drop_first(), m, t, seen.insert(e.mesh));
            let whole = frame_meshes_from(rows, m, t, seen);
            assert(whole =~= seq![e.mesh] + rest);
            assert forall|p: int, q: int| 0 <= p < q < whole.len() implies whole[p] != whole[q] by {
                if p == 0 {
                    assert(whole[q] == rest[q - 1]);
                    assert(!seen.insert(e.mesh).contains(rest[q - 1]));
                } else {
                    assert(whole[p] == rest[p - 1] && whole[q] == rest[q - 1]);
                }
            }
            assert forall|j: int| 0 <= j < whole.len() implies !seen.contains(
                #[trigger] whole[j],
            ) by {
                if j > 0 {
                    assert(whole[j] == rest[j - 1]);
                    assert(!seen.insert(e.mesh).contains(rest[j - 1]));
                }
            }
        } else {
            lemma_frame_meshes_distinct(rows.drop_first(), m, t, seen);
        }
    }
}

/// The emitted indirect records partition the instance table exactly:
/// each record's span starts where the previous one ended, spans are
/// non-overlapping, and together they cover one record per drawable
/// row — no more, no less.
pub proof fn lemma_commands_partition(rows: Seq<Entity>, m: Map<u64, Mesh>, t: Map<u64, Material>)
    ensures
        base_instance_of(
            rows,
            m,
            t,
            frame_meshes(rows, m, t),
            frame_meshes(rows, m, t).len() as int,
        ) == drawable_seq(rows, m, t).len(),
        forall|q: int|
            0 <= q < frame_meshes(rows, m, t).len() ==> base_instance_of(
                rows,
                m,
                t,
                frame_meshes(rows, m, t),
                q + 1,
            ) == base_instance_of(rows, m, t, frame_meshes(rows, m, t), q) + count_mesh(
                rows,
                m,
                t,
                #[trigger] frame_meshes(rows, m, t)[q],
            ),
        forall|q: int|
            0 <= q < frame_meshes(rows, m, t).len() ==> count_mesh(
                rows,
                m,
                t,
                #[trigger] frame_meshes(rows, m, t)[q],
            ) >= 0,
{
    let fms = frame_meshes(rows, m, t);
    lemma_frame_meshes_distinct(rows, m, t, Set::empty());
    lemma_base_instance_count_in(rows, m, t, fms, fms.len() as int);
    assert(fms.take(fms.len() as int) =~= fms);
    lemma_frame_meshes_cover(rows, m, t, Set::empty());
    assert forall|i: int|
        0 <= i < rows.len() && row_drawable(m, t, #[trigger] rows[i]) implies fms.to_set().contains(
        rows[i].mesh,
    ) by {
        assert(fms.contains(rows[i].mesh));
    }
    lemma_count_in_full(rows, m, t, fms.to_set());
    assert forall|q: int| 0 <= q < fms.len() implies count_mesh(rows, m, t, #[trigger] fms[q])
        >= 0 by {
        lemma_count_mesh_le(rows, m, t, fms[q]);
    }
}

/// Writing a transform matrix to its slot and reading the slot back
/// yields the matrix bit for bit.
pub proof fn lemma_transform_slot_round_trip(img: Seq<u8>, slot: int, bits: Seq<u32>)
    requires
        bits.len() == 16,
        0 <= slot,
        slot * (TRANSFORM_SIZE as int) + TRANSFORM_SIZE <= img.len(),
    ensures
        splice_bytes(img, slot * (TRANSFORM_SIZE as int), le_bytes_of_words(bits)).subrange(
            slot * (TRANSFORM_SIZE as int),
            slot * (TRANSFORM_SIZE as int) + TRANSFORM_SIZE,
        ) == le_bytes_of_words(bits),
{
    crate::bytes::lemma_le_bytes_of_words_len(bits);
    lemma_write_read_round_trip(img, slot * (TRANSFORM_SIZE as int), le_bytes_of_words(bits));
}

// ---------------------------------------------------------------
// Slot-table lemmas.
// ---------------------------------------------------------------

/// Assigning one more key extends the table at the next slot.
pub proof fn lemma_slots_after_push(tab: Map<u64, u32>, base: int, ks: Seq<u64>, x: u64)
    ensures
        slots_after(tab, base, ks.push(x)) == slots_after(tab, base, ks).insert(
            x,
            (base + ks.len()) as u32,
        ),
    decreases ks.len(),
{
    if ks.len() == 0 {
        assert(ks.push(x).first() == x);
        assert(ks.push(x).drop_first() =~= Seq::<u64>::empty());
        assert(slots_after(tab, base, ks.push(x)) == slots_after(
            tab.insert(x, base as u32),
            base + 1,
            Seq::<u64>::empty(),
        ));
        assert(slots_after(tab, base, ks) == tab);
    } else {
        let tab1 = tab.insert(ks.first(), base as u32);
        assert(ks.push(x).first() == ks.first());
        assert(ks.push(x).drop_first() =~= ks.drop_first().push(x));
        lemma_slots_after_push(tab1, base + 1, ks.drop_first(), x);
        assert(slots_after(tab, base, ks.push(x)) == slots_after(
            tab1,
            base + 1,
            ks.drop_first().push(x),
        ));
        assert(slots_after(tab, base, ks) == slots_after(tab1, base + 1, ks.drop_first()));
    }
}

/// Assigning in two batches equals assigning in one.
pub proof fn lemma_slots_after_concat(tab: Map<u64, u32>, base: int, a: Seq<u64>, b: Seq<u64>)
    ensures
        slots_after(tab, base, a + b) == slots_after(
            slots_after(tab, base, a),
            base + a.len(),
            b,
        ),
    decreases a.len(),
{
    if a.len() == 0 {
        assert(a + b =~= b);
    } else {
        assert((a + b).first() == a.first());
        assert((a + b).drop_first() =~= a.drop_first() + b);
        lemma_slots_after_concat(tab.insert(a.first(), base as u32), base + 1, a.drop_first(), b);
    }
}

/// Full characterization of batch assignment over fresh, distinct
/// keys.
pub proof fn lemma_slots_after_fresh(tab: Map<u64, u32>, base: int, ks: Seq<u64>)
    requires
        ks.no_duplicates(),
        forall|j: int| 0 <= j < ks.len() ==> !tab.dom().contains(#[trigger] ks[j]),
    ensures
        slots_after(tab, base, ks).dom() == tab.dom().union(ks.to_set()),
        forall|k: u64|
            tab.dom().contains(k) ==> slots_after(tab, base, ks)[k] == #[trigger] tab[k],
        forall|j: int|
            0 <= j < ks.len() ==> slots_after(tab, base, ks)[#[trigger] ks[j]] == (base + j) as u32,
    decreases ks.len(),
{
    if ks.len() == 0 {
        assert(slots_after(tab, base, ks).dom() =~= tab.dom().union(ks.to_set()));
    } else {
        let tab1 = tab.insert(ks.first(), base as u32);
        let rest = ks.drop_first();
        assert(rest.no_duplicates());
        assert forall|j: int| 0 <= j < rest.len() implies !tab1.dom().contains(
            #[trigger] rest[j],
        ) by {
            assert(rest[j] == ks[j + 1]);
            assert(ks[j + 1] != ks[0]);
        }
        lemma_slots_after_fresh(tab1, base + 1, rest);
        assert(slots_after(tab, base, ks) == slots_after(tab1, base + 1, rest));
        lemma_to_set_first_rest(ks);
        assert(slots_after(tab, base, ks).dom() =~= tab.dom().union(ks.to_set())) by {
            assert(tab1.dom() =~= tab.dom().insert(ks.first()));
        }
        assert(ks[0] == ks.first());
        assert forall|k: u64| tab.dom().contains(k) implies slots_after(tab, base, ks)[k]
            == #[trigger] tab[k] by {
            assert(k != ks.first());
            assert(tab1.dom().contains(k) && tab1[k] == tab[k]);
        }
        assert forall|j: int|
            0 <= j < ks.len() implies slots_after(tab, base, ks)[#[trigger] ks[j]] == (base
            + j) as u32 by {
            if j == 0 {
                assert(tab1[ks[0]] == base as u32);
                assert(!rest.contains(ks[0])) by {
                    assert forall|p: int| 0 <= p < rest.len() implies rest[p] != ks[0] by {
                        assert(rest[p] == ks[p + 1]);
                    }
                }
                assert(!rest.to_set().contains(ks[0]));
            } else {
                assert(rest[j - 1] == ks[j]);
            }
        }
    }
}

/// Keys a batch assignment emits are fresh and pairwise distinct.
pub proof fn lemma_new_keys_fresh(
    rows: Seq<Entity>,
    m: Map<u64, Mesh>,
    t: Map<u64, Material>,
    assigned: Set<u64>,
    by_material: bool,
)
    ensures
        new_keys_from(rows, m, t, assigned, by_material).no_duplicates(),
        forall|j: int|
            0 <= j < new_keys_from(rows, m, t, assigned, by_material).len()
                ==> !assigned.contains(#[trigger] new_keys_from(rows, m, t, assigned, by_material)[j]),
    decreases rows.len(),
{
    if rows.len() > 0 {
        let e = rows.first();
        let key = if by_material {
            e.material
        } else {
            e.entity
        };
        if row_drawable(m, t, e) && !assigned.contains(key) {
            lemma_new_keys_fresh(rows.drop_first(), m, t, assigned.insert(key), by_material);
            let rest = new_keys_from(rows.drop_first(), m, t, assigned.insert(key), by_material);
            let whole = new_keys_from(rows, m, t, assigned, by_material);
            assert(whole =~= seq![key] + rest);
            assert forall|p: int, q: int| 0 <= p < q < whole.len() implies whole[p] != whole[q] by {
                if p == 0 {
                    assert(whole[q] == rest[q - 1]);
                    assert(!assigned.insert(key).contains(rest[q - 1]));
                } else {
                    assert(whole[p] == rest[p - 1] && whole[q] == rest[q - 1]);
                }
            }
        } else {
            lemma_new_keys_fresh(rows.drop_first(), m, t, assigned, by_material);
        }
    }
}

// ---------------------------------------------------------------
// Vertex-data size lemmas.
// ---------------------------------------------------------------

pub proof fn lemma_total_data_size_nonneg(ids: Seq<u64>, m: Map<u64, Mesh>)
    ensures
        total_data_size(ids, m) >= 0,
    decreases ids.len(),
{
    if ids.len() > 0 {
        lemma_total_data_size_nonneg(ids.drop_first(), m);
    }
}

pub proof fn lemma_total_data_size_concat(a: Seq<u64>, b: Seq<u64>, m: Map<u64, Mesh>)
    ensures
        total_data_size(a + b, m) == total_data_size(a, m) + total_data_size(b, m),
    decreases a.len(),
{
    if a.len() == 0 {
        assert(a + b =~= b);
    } else {
        assert((a + b).first() == a.first());
        assert((a + b).drop_first() =~= a.drop_first() + b);
        lemma_total_data_size_concat(a.drop_first(), b, m);
    }
}

/// The packed words of the instance table, four per record, no
/// padding.
pub open spec fn instance_words(s: Seq<Instance>) -> Seq<u32>
    decreases s.len(),
{
    if s.len() == 0 {
        Seq::empty()
    } else {
        seq![
            s.first().base_transform,
            s.first().base_material,
            s.first().reserve_0,
            s.first().reserve_1,
        ] + instance_words(s.drop_first())
    }
}

/// The packed words of the indirect records: vertex count, instance
/// count, base vertex, base instance — the device's native order.
pub open spec fn command_words(s: Seq<IndirectCommand>) -> Seq<u32>
    decreases s.len(),
{
    if s.len() == 0 {
        Seq::empty()
    } else {
        seq![
            s.first().vertex_count,
            s.first().instance_count,
            s.first().base_vertex,
            s.first().base_instance,
        ] + command_words(s.drop_first())
    }
}

/// Packs the instance table for its one bulk copy.
pub fn pack_instances(s: &Vec<Instance>) -> (r: Vec<u8>)
    ensures
        r@ == le_bytes_of_words(instance_words(s@)),
        r@.len() == INSTANCE_SIZE * s@.len(),
{
    let mut words: Vec<u32> = Vec::new();
    proof {
        lemma_skip_all(s@);
        assert(words@ + instance_words(s@.skip(0)) =~= instance_words(s@));
    }
    let mut i: usize = 0;
    while i < s.len()
        invariant
            i <= s@.len(),
            instance_words(s@) == words@ + instance_words(s@.skip(i as int)),
            words@.len() == 4 * i,
        decreases s@.len() - i,
    {
        proof {
            lemma_skip_step(s@, i as int);
        }
        let it = s[i];
        words.push(it.base_transform);
        words.push(it.base_material);
        words.push(it.reserve_0);
        words.push(it.reserve_1);
        proof {
            assert(instance_words(s@.skip(i as int)) == seq![
                it.base_transform,
                it.base_material,
                it.reserve_0,
                it.reserve_1,
            ] + instance_words(s@.skip(i as int + 1)));
            assert(instance_words(s@) =~= words@ + instance_words(s@.skip(i as int + 1)));
        }
        i = i + 1;
    }
    proof {
        lemma_skip_all(s@);
        assert(instance_words(s@.skip(s@.len() as int)) =~= Seq::<u32>::empty());
        assert(words@ =~= instance_words(s@));
        crate::bytes::lemma_le_bytes_of_words_len(words@);
    }
    crate::bytes::words_to_le_bytes(&words)
}

/// Packs the indirect records for their one bulk copy.
pub fn pack_commands(s: &Vec<IndirectCommand>) -> (r: Vec<u8>)
    ensures
        r@ == le_bytes_of_words(command_words(s@)),
        r@.len() == INDIRECT_COMMAND_SIZE * s@.len(),
{
    let mut words: Vec<u32> = Vec::new();
    proof {
        lemma_skip_all(s@);
        assert(words@ + command_words(s@.skip(0)) =~= command_words(s@));
    }
    let mut i: usize = 0;
    while i < s.len()
        invariant
            i <= s@.len(),
            command_words(s@) == words@ + command_words(s@.skip(i as int)),
            words@.len() == 4 * i,
        decreases s@.len() - i,
    {
        proof {
            lemma_skip_step(s@, i as int);
        }
        let it = s[i];
        words.push(it.vertex_count);
        words.push(it.instance_count);
        words.push(it.base_vertex);
        words.push(it.base_instance);
        proof {
            assert(command_words(s@.skip(i as int)) == seq![
                it.vertex_count,
                it.instance_count,
                it.base_vertex,
                it.base_instance,
            ] + command_words(s@.skip(i as int + 1)));
            assert(command_words(s@) =~= words@ + command_words(s@.skip(i as int + 1)));
        }
        i = i + 1;
    }
    proof {
        lemma_skip_all(s@);
        assert(command_words(s@.skip(s@.len() as int)) =~= Seq::<u32>::empty());
        assert(words@ =~= command_words(s@));
        crate::bytes::lemma_le_bytes_of_words_len(words@);
    }
    crate::bytes::words_to_le_bytes(&words)
}

/// Applies one buffer's pending copies in order.  A copy that does
/// not fit (or a dead or non-buffer handle) is skipped, and reported
/// through the result.
fn apply_write_list(gpu: &mut Gpu, id: u64, ws: &Vec<BufferWrite>) -> (ok: bool)
    requires
        old(gpu).wf(),
    ensures
        final(gpu).wf(),
        Gpu::same_frame_state(old(gpu), final(gpu)),
        final(gpu).next_handle() == old(gpu).next_handle(),
        final(gpu).objects().dom() == old(gpu).objects().dom(),
        forall|k: u64|
            k != id && old(gpu).objects().dom().contains(k) ==> final(gpu).objects()[k] == old(
                gpu,
            ).objects()[k],
        live_buffer(old(gpu).objects(), id) ==> ({
            &&& final(gpu).objects()[id] is Buffer
            &&& as_buffer(final(gpu).objects()[id]).unwrap().spec_usage() == as_buffer(
                old(gpu).objects()[id],
            ).unwrap().spec_usage()
            &&& as_buffer(final(gpu).objects()[id]).unwrap()@ == apply_writes(
                as_buffer(old(gpu).objects()[id]).unwrap()@,
                ws@,
            )
        }),
        !live_buffer(old(gpu).objects(), id) ==> final(gpu).objects() == old(gpu).objects(),
        ok <==> (ws@.len() == 0 || (live_buffer(old(gpu).objects(), id) && forall|j: int|
            0 <= j < ws@.len() ==> (#[trigger] ws@[j]).offset + ws@[j].data@.len() <= buffer_cap(
                old(gpu).objects(),
                id,
            ))),
{
    let ghost live0 = live_buffer(old(gpu).objects(), id);
    let ghost cap0 = buffer_cap(old(gpu).objects(), id);
    let mut ok = true;
    let mut j: usize = 0;
    while j < ws.len()
        invariant
            j <= ws@.len(),
            gpu.wf(),
            Gpu::same_frame_state(old(gpu), gpu),
            gpu.next_handle() == old(gpu).next_handle(),
            gpu.objects().dom() == old(gpu).objects().dom(),
            forall|k: u64|
                k != id && old(gpu).objects().dom().contains(k) ==> gpu.objects()[k] == old(
                    gpu,
                ).objects()[k],
            live_buffer(old(gpu).objects(), id) ==> ({
                &&& gpu.objects()[id] is Buffer
                &&& as_buffer(gpu.objects()[id]).unwrap().spec_usage() == as_buffer(
                    old(gpu).objects()[id],
                ).unwrap().spec_usage()
                &&& as_buffer(gpu.objects()[id]).unwrap()@ == apply_writes(
                    as_buffer(old(gpu).objects()[id]).unwrap()@,
                    ws@.take(j as int),
                )
            }),
            !live_buffer(old(gpu).objects(), id) ==> gpu.objects() == old(gpu).objects(),
            live0 == live_buffer(old(gpu).objects(), id),
            cap0 == buffer_cap(old(gpu).objects(), id),
            ok ==> (j > 0 ==> live0),
            ok ==> forall|p: int|
                0 <= p < j ==> (#[trigger] ws@[p]).offset + ws@[p].data@.len() <= cap0,
            !ok ==> ws@.len() > 0 && !(live0 && forall|p: int|
                0 <= p < ws@.len() ==> (#[trigger] ws@[p]).offset + ws@[p].data@.len() <= cap0),
        decreases ws@.len() - j,
    {
        let w = &ws[j];
        proof {
            if live_buffer(old(gpu).objects(), id) {
                lemma_apply_writes_len(as_buffer(old(gpu).objects()[id]).unwrap()@, ws@.take(j as int));
            }
        }
        let r = gpu.write_buffer_by_id(id, w.offset, &w.data);
        proof {
            assert(ws@.take(j as int).push(ws@[j as int]) =~= ws@.take(j as int + 1));
            if live_buffer(old(gpu).objects(), id) {
                lemma_apply_writes_push(
                    as_buffer(old(gpu).objects()[id]).unwrap()@,
                    ws@.take(j as int),
                    ws@[j as int],
                );
            }
        }
        ok = ok && r;
        j = j + 1;
    }
    proof {
        assert(ws@.take(ws@.len() as int) =~= ws@);
        assert(j == ws@.len());
    }
    ok
}

/// Sends a batched frame to the device: the mesh uploads, the
/// unconditional transform and material rewrites, and the two bulk
/// copies of the instance table and the indirect records.
///
/// The five shared buffers must be distinct handles (the allocator
/// creates them that way).  Returns whether every copy was applied;
/// a plan produced against the same buffers always applies in full.
pub fn apply_plan(plan: &FramePlan, buffers: &Buffers, gpu: &mut Gpu) -> (ok: bool)
    requires
        old(gpu).wf(),
        buffers.mesh != buffers.transform,
        buffers.mesh != buffers.materials,
        buffers.mesh != buffers.instances,
        buffers.mesh != buffers.indirect,
        buffers.transform != buffers.materials,
        buffers.transform != buffers.instances,
        buffers.transform != buffers.indirect,
        buffers.materials != buffers.instances,
        buffers.materials != buffers.indirect,
        buffers.instances != buffers.indirect,
    ensures
        final(gpu).wf(),
        Gpu::same_frame_state(old(gpu), final(gpu)),
        final(gpu).next_handle() == old(gpu).next_handle(),
        final(gpu).objects().dom() == old(gpu).objects().dom(),
        forall|k: u64|
            old(gpu).objects().dom().contains(k) && k != buffers.mesh && k != buffers.transform
                && k != buffers.materials && k != buffers.instances && k != buffers.indirect
                ==> final(gpu).objects()[k] == old(gpu).objects()[k],
        live_buffer(old(gpu).objects(), buffers.mesh) ==> as_buffer(
            final(gpu).objects()[buffers.mesh],
        ).unwrap()@ == apply_writes(
            as_buffer(old(gpu).objects()[buffers.mesh]).unwrap()@,
            plan.mesh_writes@,
        ),
        live_buffer(old(gpu).objects(), buffers.transform) ==> as_buffer(
            final(gpu).objects()[buffers.transform],
        ).unwrap()@ == apply_writes(
            as_buffer(old(gpu).objects()[buffers.transform]).unwrap()@,
            plan.transform_writes@,
        ),
        live_buffer(old(gpu).objects(), buffers.materials) ==> as_buffer(
            final(gpu).objects()[buffers.materials],
        ).unwrap()@ == apply_writes(
            as_buffer(old(gpu).objects()[buffers.materials]).unwrap()@,
            plan.material_writes@,
        ),
        live_buffer(old(gpu).objects(), buffers.instances) ==> as_buffer(
            final(gpu).objects()[buffers.instances],
        ).unwrap()@ == splice_bytes(
            as_buffer(old(gpu).objects()[buffers.instances]).unwrap()@,
            0,
            le_bytes_of_words(instance_words(plan.instances@)),
        ),
        live_buffer(old(gpu).objects(), buffers.indirect) ==> as_buffer(
            final(gpu).objects()[buffers.indirect],
        ).unwrap()@ == splice_bytes(
            as_buffer(old(gpu).objects()[buffers.indirect]).unwrap()@,
            0,
            le_bytes_of_words(command_words(plan.commands@)),
        ),
        ok <==> ({
            let objs = old(gpu).objects();
            &&& (plan.mesh_writes@.len() == 0 || (live_buffer(objs, buffers.mesh) && forall|j: int|
                0 <= j < plan.mesh_writes@.len() ==> (#[trigger] plan.mesh_writes@[j]).offset
                    + plan.mesh_writes@[j].data@.len() <= buffer_cap(objs, buffers.mesh)))
            &&& (plan.transform_writes@.len() == 0 || (live_buffer(objs, buffers.transform)
                && forall|j: int|
                0 <= j < plan.transform_writes@.len() ==> (
                #[trigger] plan.transform_writes@[j]).offset
                    + plan.transform_writes@[j].data@.len() <= buffer_cap(objs, buffers.transform)))
            &&& (plan.material_writes@.len() == 0 || (live_buffer(objs, buffers.materials)
                && forall|j: int|
                0 <= j < plan.material_writes@.len() ==> (
                #[trigger] plan.material_writes@[j]).offset
                    + plan.material_writes@[j].data@.len() <= buffer_cap(objs, buffers.materials)))
            &&& live_buffer(objs, buffers.instances)
            &&& INSTANCE_SIZE * plan.instances@.len() <= buffer_cap(objs, buffers.instances)
            &&& live_buffer(objs, buffers.indirect)
            &&& INDIRECT_COMMAND_SIZE * plan.commands@.len() <= buffer_cap(objs, buffers.indirect)
        }),
{
    let ok_mesh = apply_write_list(gpu, buffers.mesh, &plan.mesh_writes);
    let ghost o1 = gpu.objects();
    let ok_transform = apply_write_list(gpu, buffers.transform, &plan.transform_writes);
    let ghost o2 = gpu.objects();
    let ok_materials = apply_write_list(gpu, buffers.materials, &plan.material_writes);
    let ghost o3 = gpu.objects();
    let instance_bytes = pack_instances(&plan.instances);
    let ok_instances = gpu.write_buffer_by_id(buffers.instances, 0, &instance_bytes);
    let ghost o4 = gpu.objects();
    let command_bytes = pack_commands(&plan.commands);
    let ok_indirect = gpu.write_buffer_by_id(buffers.indirect, 0, &command_bytes);
    proof {
        let objs = old(gpu).objects();
        assert(o1.dom().contains(buffers.transform) == objs.dom().contains(buffers.transform));
        if objs.dom().contains(buffers.transform) {
            assert(o1[buffers.transform] == objs[buffers.transform]);
        }
        assert(o2.dom().contains(buffers.materials) == objs.dom().contains(buffers.materials));
        if objs.dom().contains(buffers.materials) {
            assert(o2[buffers.materials] == objs[buffers.materials]);
        }
        assert(o3.dom().contains(buffers.instances) == objs.dom().contains(buffers.instances));
        if objs.dom().contains(buffers.instances) {
            assert(o3[buffers.instances] == objs[buffers.instances]);
        }
        assert(o4.dom().contains(buffers.indirect) == objs.dom().contains(buffers.indirect));
        if objs.dom().contains(buffers.indirect) {
            assert(o4[buffers.indirect] == objs[buffers.indirect]);
        }
    }
    ok_mesh && ok_transform && ok_materials && ok_instances && ok_indirect
}

/// The batcher's persistent state: the mesh residency cache, the
/// vertex-buffer tail and the two slot tables.  Slots are never
/// reclaimed while the batcher lives.
pub struct Render {
    meshes: KeyMap<MeshLayout>,
    meshes_size: u64,
    transform_bases: KeyMap<u32>,
    material_bases: KeyMap<u32>,
}

impl Render {
    pub closed spec fn mesh_layouts(&self) -> Map<u64, MeshLayout> {
        self.meshes@
    }

    pub closed spec fn spec_meshes_size(&self) -> u64 {
        self.meshes_size
    }

    pub closed spec fn tslots(&self) -> Map<u64, u32> {
        self.transform_bases@
    }

    pub closed spec fn mslots(&self) -> Map<u64, u32> {
        self.material_bases@
    }

    pub closed spec fn tslot_count(&self) -> nat {
        self.transform_bases.spec_len()
    }

    pub closed spec fn mslot_count(&self) -> nat {
        self.material_bases.spec_len()
    }

    pub closed spec fn wf(&self) -> bool {
        &&& self.meshes.wf()
        &&& self.transform_bases.wf()
        &&& self.material_bases.wf()
        &&& self.meshes_size <= MAX_MESH_BUFFER_SIZE
        &&& slot_table_wf(self.transform_bases@, self.transform_bases.spec_len())
        &&& slot_table_wf(self.material_bases@, self.material_bases.spec_len())
    }

    pub fn new() -> (r: Self)
        ensures
            r.wf(),
            r.mesh_layouts() == Map::<u64, MeshLayout>::empty(),
            r.spec_meshes_size() == 0,
            r.tslots() == Map::<u64, u32>::empty(),
            r.mslots() == Map::<u64, u32>::empty(),
            r.tslot_count() == 0,
            r.mslot_count() == 0,
    {
        Render {
            meshes: KeyMap::new(),
            meshes_size: 0,
            transform_bases: KeyMap::new(),
            material_bases: KeyMap::new(),
        }
    }

    /// Batches one frame.
    ///
    /// Walks the drawable entities in query order; for each, settles
    /// mesh residency (uploading vertex data once per content
    /// version), assigns or reuses transform and material slots,
    /// rewrites both uniforms unconditionally, and accumulates the
    /// entity into its mesh's draw group.  Returns the frame's buffer
    /// writes, the instance table grouped by mesh, and one indirect
    /// draw record per distinct mesh in first-encounter order.
    ///
    /// Rows whose mesh or material asset is absent are skipped.  An
    /// indexed mesh that would need an upload is rejected.  A write
    /// that would exceed a shared buffer's fixed capacity (or a slot
    /// index leaving its 32-bit range) is a fatal configuration
    /// error; on any error the batcher state is left as it was.
    #[verifier::rlimit(100)]
    pub fn run(
        &mut self,
        world: &Vec<Entity>,
        assets: &Assets,
        buffers: &Buffers,
        gpu: &Gpu,
    ) -> (r: Result<FramePlan, RenderError>)
        requires
            old(self).wf(),
            assets.wf(),
            gpu.wf(),
            forall|i: int| 0 <= i < world@.len() ==> (#[trigger] world@[i]).wf(),
            live_buffer(gpu.objects(), buffers.mesh),
            live_buffer(gpu.objects(), buffers.transform),
            live_buffer(gpu.objects(), buffers.materials),
            live_buffer(gpu.objects(), buffers.instances),
            live_buffer(gpu.objects(), buffers.indirect),
            buffer_cap(gpu.objects(), buffers.mesh) <= MAX_MESH_BUFFER_SIZE,
        ensures
            final(self).wf(),
            r is Ok <==> ({
                let rows = world@;
                let m = assets.meshes();
                let t = assets.materials();
                let cache0 = old(self).mesh_layouts();
                &&& first_indexed(rows, m, t, cache0) is None
                &&& !spec_mesh_over(rows, m, t, cache0, old(self).spec_meshes_size(), buffer_cap(gpu.objects(), buffers.mesh))
                &&& !spec_table_over(rows, m, t, old(self).tslots(), old(self).tslot_count(), TRANSFORM_SIZE as int, buffer_cap(gpu.objects(), buffers.transform), false)
                &&& !spec_table_over(rows, m, t, old(self).mslots(), old(self).mslot_count(), MATERIAL_UNIFORM_SIZE as int, buffer_cap(gpu.objects(), buffers.materials), true)
                &&& !spec_instance_over(rows, m, t, buffer_cap(gpu.objects(), buffers.instances))
                &&& !spec_indirect_over(rows, m, t, buffer_cap(gpu.objects(), buffers.indirect))
            }),
            ({
                let rows = world@;
                let m = assets.meshes();
                let t = assets.materials();
                let cache0 = old(self).mesh_layouts();
                let size0 = old(self).spec_meshes_size();
                let t0 = old(self).tslots();
                let tc0 = old(self).tslot_count();
                let m0 = old(self).mslots();
                let mc0 = old(self).mslot_count();
                let mcap = buffer_cap(gpu.objects(), buffers.mesh);
                let tcap = buffer_cap(gpu.objects(), buffers.transform);
                let ccap = buffer_cap(gpu.objects(), buffers.materials);
                let icap = buffer_cap(gpu.objects(), buffers.instances);
                let dcap = buffer_cap(gpu.objects(), buffers.indirect);
                let ups = upload_ids(rows, m, t, cache0);
                let fms = frame_meshes(rows, m, t);
                let ntk = new_keys_from(rows, m, t, t0.dom(), false);
                let nmk = new_keys_from(rows, m, t, m0.dom(), true);
                let dseq = drawable_seq(rows, m, t);
                match r {
                    Ok(plan) => {
                        &&& final(self).spec_meshes_size() == size0 + total_data_size(ups, m)
                        &&& final(self).mesh_layouts().dom() == cache0.dom().union(ups.to_set())
                        &&& forall|id: u64|
                            cache0.dom().contains(id) && !ups.contains(id)
                                ==> #[trigger] final(self).mesh_layouts()[id] == cache0[id]
                        &&& forall|j: int|
                            0 <= j < ups.len() ==> #[trigger] final(self).mesh_layouts()[ups[j]]
                                == upload_layout(m[ups[j]], upload_offset(size0, ups, m, j) as u64)
                        &&& final(self).tslots() == slots_after(t0, tc0 as int, ntk)
                        &&& final(self).tslot_count() == tc0 + ntk.len()
                        &&& final(self).mslots() == slots_after(m0, mc0 as int, nmk)
                        &&& final(self).mslot_count() == mc0 + nmk.len()
                        &&& plan.mesh_writes@.len() == ups.len()
                        &&& forall|j: int|
                            0 <= j < ups.len() ==> (#[trigger] plan.mesh_writes@[j]).offset
                                == upload_offset(size0, ups, m, j) && plan.mesh_writes@[j].data@
                                == m[ups[j]].data@ && plan.mesh_writes@[j].offset
                                + plan.mesh_writes@[j].data@.len() <= mcap
                        &&& plan.transform_writes@.len() == dseq.len()
                        &&& forall|j: int|
                            0 <= j < dseq.len() ==> (#[trigger] plan.transform_writes@[j]).offset
                                == final(self).tslots()[dseq[j].entity] * TRANSFORM_SIZE
                                && plan.transform_writes@[j].data@ == le_bytes_of_words(
                                dseq[j].transform.bits@,
                            ) && plan.transform_writes@[j].offset + TRANSFORM_SIZE <= tcap
                        &&& plan.material_writes@.len() == dseq.len()
                        &&& forall|j: int|
                            0 <= j < dseq.len() ==> (#[trigger] plan.material_writes@[j]).offset
                                == final(self).mslots()[dseq[j].material] * MATERIAL_UNIFORM_SIZE
                                && plan.material_writes@[j].data@ == material_uniform_bytes(
                                t[dseq[j].material],
                            ) && plan.material_writes@[j].offset + MATERIAL_UNIFORM_SIZE <= ccap
                        &&& plan.instances@ == instances_concat(
                            rows,
                            m,
                            t,
                            final(self).tslots(),
                            final(self).mslots(),
                            fms,
                        )
                        &&& plan.instances@.len() == dseq.len()
                        &&& plan.instances@.len() * INSTANCE_SIZE <= icap
                        &&& plan.commands@.len() == fms.len()
                        &&& plan.commands@.len() * INDIRECT_COMMAND_SIZE <= dcap
                        &&& forall|q: int|
                            0 <= q < fms.len() ==> #[trigger] plan.commands@[q] == spec_command(
                                rows,
                                m,
                                t,
                                final(self).mesh_layouts(),
                                fms,
                                q,
                            )
                    },
                    Err(e) => {
                        &&& final(self).mesh_layouts() == cache0
                        &&& final(self).spec_meshes_size() == size0
                        &&& final(self).tslots() == t0
                        &&& final(self).tslot_count() == tc0
                        &&& final(self).mslots() == m0
                        &&& final(self).mslot_count() == mc0
                        &&& match e {
                            RenderError::MeshIndexed { mesh } => first_indexed(rows, m, t, cache0)
                                == Some(mesh),
                            RenderError::CapacityExceeded { buffer } => {
                                &&& first_indexed(rows, m, t, cache0) is None
                                &&& match buffer {
                                    RenderBuffer::Mesh => spec_mesh_over(rows, m, t, cache0, size0, mcap),
                                    RenderBuffer::Transform => spec_table_over(rows, m, t, t0, tc0, TRANSFORM_SIZE as int, tcap, false),
                                    RenderBuffer::Materials => spec_table_over(rows, m, t, m0, mc0, MATERIAL_UNIFORM_SIZE as int, ccap, true),
                                    RenderBuffer::Instances => spec_instance_over(rows, m, t, icap),
                                    RenderBuffer::Indirect => spec_indirect_over(rows, m, t, dcap),
                                }
                            },
                        }
                    },
                }
            }),
    {
        let n = world.len();
        let ghost rows = world@;
        let ghost m = assets.meshes();
        let ghost t = assets.materials();
        let ghost cache0 = self.mesh_layouts();
        let ghost size0 = self.spec_meshes_size();
        let ghost t0 = self.tslots();
        let ghost tc0 = self.tslot_count();
        let ghost m0 = self.mslots();
        let ghost mc0 = self.mslot_count();

        // Reject indexed meshes that would need an upload, before
        // touching any state.
        proof {
            lemma_skip_all(rows);
        }
        let mut i: usize = 0;
        while i < n
            invariant
                i <= n,
                n == rows.len(),
                rows == world@,
                m == assets.meshes(),
                t == assets.materials(),
                cache0 == self.mesh_layouts(),
                assets.wf(),
                self.wf(),
                first_indexed(rows, m, t, cache0) == first_indexed(
                    rows.skip(i as int),
                    m,
                    t,
                    cache0,
                ),
            decreases n - i,
        {
            proof {
                lemma_skip_step(rows, i as int);
            }
            let e = &world[i];
            let mesh_opt = assets.mesh(e.mesh);
            let mat_ready = assets.material(e.material).is_some();
            let hit: bool = match mesh_opt {
                Some(mesh_asset) => {
                    if mat_ready && mesh_asset.indexed {
                        match self.meshes.get(e.mesh) {
                            Some(lay) => lay.version != mesh_asset.version,
                            None => true,
                        }
                    } else {
                        false
                    }
                },
                None => false,
            };
            if hit {
                proof {
                    assert(first_indexed(rows.skip(i as int), m, t, cache0) == Some(e.mesh));
                }
                return Err(RenderError::MeshIndexed { mesh: e.mesh });
            }
            proof {
                assert(first_indexed(rows.skip(i as int), m, t, cache0) == first_indexed(
                    rows.skip(i as int + 1),
                    m,
                    t,
                    cache0,
                ));
            }
            i = i + 1;
        }
        proof {
            lemma_skip_all(rows);
            assert(rows.skip(n as int).len() == 0);
        }

        // Read the fixed capacities.
        let mcap: u64 = match gpu.get_buffer(buffers.mesh) {
            Some(b) => b.size() as u64,
            None => 0,
        };
        let tcap: u64 = match gpu.get_buffer(buffers.transform) {
            Some(b) => b.size() as u64,
            None => 0,
        };
        let ccap: u64 = match gpu.get_buffer(buffers.materials) {
            Some(b) => b.size() as u64,
            None => 0,
        };
        let icap: u64 = match gpu.get_buffer(buffers.instances) {
            Some(b) => b.size() as u64,
            None => 0,
        };
        let dcap: u64 = match gpu.get_buffer(buffers.indirect) {
            Some(b) => b.size() as u64,
            None => 0,
        };
        proof {
            assert(mcap == buffer_cap(gpu.objects(), buffers.mesh));
            assert(tcap == buffer_cap(gpu.objects(), buffers.transform));
            assert(ccap == buffer_cap(gpu.objects(), buffers.materials));
            assert(icap == buffer_cap(gpu.objects(), buffers.instances));
            assert(dcap == buffer_cap(gpu.objects(), buffers.indirect));
        }

        let ghost ups = upload_ids(rows, m, t, cache0);
        let ghost fms = frame_meshes(rows, m, t);
        let ghost ntk = new_keys_from(rows, m, t, t0.dom(), false);
        let ghost nmk = new_keys_from(rows, m, t, m0.dom(), true);
        let ghost dseq = drawable_seq(rows, m, t);

        let saved = self.snapshot();
        let mut mesh_writes: Vec<BufferWrite> = Vec::new();
        let mut transform_writes: Vec<BufferWrite> = Vec::new();
        let mut material_writes: Vec<BufferWrite> = Vec::new();
        let mut entry_order: Vec<u64> = Vec::new();
        let mut frame_seen: KeyMap<u32> = KeyMap::new();
        let mut icount: u64 = 0;
        let ghost mut upd: Seq<u64> = Seq::empty();
        let ghost mut ntkd: Seq<u64> = Seq::empty();
        let ghost mut nmkd: Seq<u64> = Seq::empty();
        let ghost mut dsd: Seq<Entity> = Seq::empty();

        proof {
            lemma_skip_all(rows);
            assert(Seq::<u64>::empty().to_set() =~= Set::<u64>::empty());
            assert(upd + uploads_from(rows.skip(0), m, t, cache0, upd.to_set()) =~= ups);
            assert(entry_order@ + frame_meshes_from(rows.skip(0), m, t, entry_order@.to_set())
                =~= fms);
            assert(slots_after(t0, tc0 as int, ntkd) == t0);
            assert(slots_after(m0, mc0 as int, nmkd) == m0);
            assert(ntkd + new_keys_from(rows.skip(0), m, t, t0.dom(), false) =~= ntk);
            assert(nmkd + new_keys_from(rows.skip(0), m, t, m0.dom(), true) =~= nmk);
            assert(dsd + drawable_seq(rows.skip(0), m, t) =~= dseq);
        }
        let mut i: usize = 0;
        while i < n
            invariant
                i <= n,
                n == rows.len(),
                rows == world@,
                m == assets.meshes(),
                t == assets.materials(),
                cache0 == old(self).mesh_layouts(),
                size0 == old(self).spec_meshes_size(),
                t0 == old(self).tslots(),
                tc0 == old(self).tslot_count(),
                m0 == old(self).mslots(),
                mc0 == old(self).mslot_count(),
                assets.wf(),
                self.wf(),
                gpu.wf(),
                forall|k: int| 0 <= k < rows.len() ==> (#[trigger] rows[k]).wf(),
                first_indexed(rows, m, t, cache0) is None,
                ups == upload_ids(rows, m, t, cache0),
                fms == frame_meshes(rows, m, t),
                ntk == new_keys_from(rows, m, t, t0.dom(), false),
                nmk == new_keys_from(rows, m, t, m0.dom(), true),
                dseq == drawable_seq(rows, m, t),
                mcap == buffer_cap(gpu.objects(), buffers.mesh),
                tcap == buffer_cap(gpu.objects(), buffers.transform),
                ccap == buffer_cap(gpu.objects(), buffers.materials),
                icap == buffer_cap(gpu.objects(), buffers.instances),
                dcap == buffer_cap(gpu.objects(), buffers.indirect),
                mcap <= MAX_MESH_BUFFER_SIZE,
                // the snapshot still holds the pre-frame state
                saved.wf(),
                saved.mesh_layouts() == cache0,
                saved.spec_meshes_size() == size0,
                saved.tslots() == t0,
                saved.tslot_count() == tc0,
                saved.mslots() == m0,
                saved.mslot_count() == mc0,
                // mesh cache
                self.mesh_layouts().dom() == cache0.dom().union(upd.to_set()),
                forall|id: u64|
                    cache0.dom().contains(id) && !upd.contains(id)
                        ==> #[trigger] self.mesh_layouts()[id] == cache0[id],
                forall|j: int|
                    0 <= j < upd.len() ==> mesh_current(self.mesh_layouts(), m, #[trigger] upd[j]),
                forall|j: int|
                    0 <= j < upd.len() ==> #[trigger] self.mesh_layouts()[upd[j]]
                        == upload_layout(m[upd[j]], upload_offset(size0, upd, m, j) as u64),
                ups == upd + uploads_from(rows.skip(i as int), m, t, cache0, upd.to_set()),
                self.spec_meshes_size() == size0 + total_data_size(upd, m),
                upd.len() > 0 ==> self.spec_meshes_size() <= mcap,
                mesh_writes@.len() == upd.len(),
                forall|j: int|
                    0 <= j < upd.len() ==> (#[trigger] mesh_writes@[j]).offset == upload_offset(
                        size0,
                        upd,
                        m,
                        j,
                    ) && mesh_writes@[j].data@ == m[upd[j]].data@ && mesh_writes@[j].offset
                        + mesh_writes@[j].data@.len() <= self.spec_meshes_size(),
                // per-frame mesh listing
                fms == entry_order@ + frame_meshes_from(
                    rows.skip(i as int),
                    m,
                    t,
                    entry_order@.to_set(),
                ),
                entry_order@.no_duplicates(),
                forall|j: int|
                    0 <= j < entry_order@.len() ==> self.mesh_layouts().dom().contains(
                        #[trigger] entry_order@[j],
                    ),
                frame_seen.wf(),
                frame_seen@.dom() == entry_order@.to_set(),
                entry_order@.len() * INDIRECT_COMMAND_SIZE <= dcap,
                entry_order@.len() <= u32::MAX,
                // slot tables
                self.tslots() == slots_after(t0, tc0 as int, ntkd),
                self.tslot_count() == tc0 + ntkd.len(),
                ntk == ntkd + new_keys_from(rows.skip(i as int), m, t, self.tslots().dom(), false),
                self.mslots() == slots_after(m0, mc0 as int, nmkd),
                self.mslot_count() == mc0 + nmkd.len(),
                nmk == nmkd + new_keys_from(rows.skip(i as int), m, t, self.mslots().dom(), true),
                // every processed drawable row has slots within bounds
                forall|k: int|
                    0 <= k < i && row_drawable(m, t, #[trigger] rows[k]) ==> {
                        &&& self.tslots().dom().contains(rows[k].entity)
                        &&& (self.tslots()[rows[k].entity] + 1) * TRANSFORM_SIZE <= tcap
                        &&& self.mslots().dom().contains(rows[k].material)
                        &&& (self.mslots()[rows[k].material] + 1) * MATERIAL_UNIFORM_SIZE <= ccap
                    },
                // drawable prefix and per-entity writes
                dseq == dsd + drawable_seq(rows.skip(i as int), m, t),
                dsd.len() == icount,
                icount * INSTANCE_SIZE <= icap,
                icount <= u32::MAX,
                transform_writes@.len() == dsd.len(),
                forall|j: int|
                    0 <= j < dsd.len() ==> {
                        &&& row_drawable(m, t, #[trigger] dsd[j])
                        &&& self.tslots().dom().contains(dsd[j].entity)
                        &&& transform_writes@[j].offset == self.tslots()[dsd[j].entity]
                            * TRANSFORM_SIZE
                        &&& transform_writes@[j].data@ == le_bytes_of_words(dsd[j].transform.bits@)
                        &&& transform_writes@[j].offset + TRANSFORM_SIZE <= tcap
                    },
                material_writes@.len() == dsd.len(),
                forall|j: int|
                    0 <= j < dsd.len() ==> {
                        &&& self.mslots().dom().contains(#[trigger] dsd[j].material)
                        &&& material_writes@[j].offset == self.mslots()[dsd[j].material]
                            * MATERIAL_UNIFORM_SIZE
                        &&& material_writes@[j].data@ == material_uniform_bytes(t[dsd[j].material])
                        &&& material_writes@[j].offset + MATERIAL_UNIFORM_SIZE <= ccap
                    },
            decreases n - i,
        {
            proof {
                lemma_skip_step(rows, i as int);
            }
            let e = &world[i];
            let mesh_opt = assets.mesh(e.mesh);
            let mat_opt = assets.material(e.material);
            match (mesh_opt, mat_opt) {
                (Some(mesh_asset), Some(material_asset)) => {
                    assert(row_drawable(m, t, rows[i as int]));
                    // -------- mesh residency
                    let current = match self.meshes.get(e.mesh) {
                        Some(lay) => lay.version == mesh_asset.version,
                        None => false,
                    };
                    proof {
                        if upd.to_set().contains(e.mesh) {
                            let j = choose|j: int| 0 <= j < upd.len() && upd[j] == e.mesh;
                            assert(mesh_current(self.mesh_layouts(), m, upd[j]));
                            assert(current);
                        } else if mesh_current(cache0, m, e.mesh) {
                            assert(self.mesh_layouts()[e.mesh] == cache0[e.mesh]);
                            assert(current);
                        } else {
                            if self.mesh_layouts().dom().contains(e.mesh) {
                                assert(cache0.dom().contains(e.mesh));
                                assert(self.mesh_layouts()[e.mesh] == cache0[e.mesh]);
                            }
                            assert(!current);
                        }
                    }
                    if !current {
                        let dsize = mesh_asset.data.len();
                        let ghost upd0 = upd;
                        proof {
                            assert(uploads_from(rows.skip(i as int), m, t, cache0, upd0.to_set())
                                == seq![e.mesh] + uploads_from(
                                rows.skip(i as int + 1),
                                m,
                                t,
                                cache0,
                                upd0.to_set().insert(e.mesh),
                            ));
                            let rest0 = uploads_from(
                                rows.skip(i as int + 1),
                                m,
                                t,
                                cache0,
                                upd0.to_set().insert(e.mesh),
                            );
                            let cat = seq![e.mesh] + rest0;
                            assert(cat.first() == e.mesh);
                            assert(cat.drop_first() =~= rest0);
                            assert(total_data_size(cat, m) == m[e.mesh].data@.len()
                                + total_data_size(rest0, m));
                            lemma_total_data_size_nonneg(rest0, m);
                            lemma_total_data_size_concat(upd0, cat, m);
                            assert(total_data_size(ups, m) == total_data_size(upd0, m)
                                + total_data_size(cat, m));
                            assert(total_data_size(ups, m) >= total_data_size(upd0, m)
                                + dsize as int);
                            assert(ups.len() > 0);
                        }
                        if dsize as u64 > mcap || self.meshes_size > mcap - dsize as u64 {
                            proof {
                                assert(size0 + total_data_size(ups, m) > mcap);
                                assert(spec_mesh_over(rows, m, t, cache0, size0, mcap as int));
                            }
                            *self = saved;
                            return Err(
                                RenderError::CapacityExceeded { buffer: RenderBuffer::Mesh },
                            );
                        }
                        let offset = self.meshes_size;
                        mesh_writes.push(
                            BufferWrite { offset, data: crate::bytes::clone_bytes(&mesh_asset.data) },
                        );
                        assert(offset / VERTEX_SIZE < 0x1_0000_0000) by {
                            assert(offset <= MAX_MESH_BUFFER_SIZE);
                        }
                        let base_vertex = (offset / VERTEX_SIZE) as u32;
                        self.meshes.insert(
                            e.mesh,
                            MeshLayout {
                                version: mesh_asset.version,
                                vertex_buffer_location: BufferLocation {
                                    offset,
                                    size: dsize as u64,
                                },
                                index_buffer_location: None,
                                base_vertex,
                                vertex_count: mesh_asset.vertex_count,
                            },
                        );
                        self.meshes_size = offset + dsize as u64;
                        proof {
                            upd = upd.push(e.mesh);
                            upd0.lemma_push_to_set_commute(e.mesh);
                            assert(ups =~= upd + uploads_from(
                                rows.skip(i as int + 1),
                                m,
                                t,
                                cache0,
                                upd.to_set(),
                            ));
                            assert(upd.take(upd.len() - 1) =~= upd0);
                            assert(upd[upd.len() - 1] == e.mesh);
                            lemma_total_data_size_concat(upd0, seq![e.mesh], m);
                            assert(upd0 + seq![e.mesh] =~= upd);
                            assert(total_data_size(seq![e.mesh], m) == m[e.mesh].data@.len()) by {
                                let single = seq![e.mesh];
                                assert(single.len() == 1);
                                assert(single.first() == e.mesh);
                                assert(single.drop_first() =~= Seq::<u64>::empty());
                                assert(total_data_size(single.drop_first(), m) == 0);
                                assert(total_data_size(single, m) == m[e.mesh].data@.len()
                                    + total_data_size(single.drop_first(), m));
                            }
                            assert(total_data_size(upd, m) == total_data_size(upd0, m)
                                + dsize as int);
                            // earlier entries keep their layouts and offsets
                            assert forall|j: int| 0 <= j < upd.len() - 1 implies upd.take(j)
                                =~= upd0.take(j) by {}
                            assert forall|j: int|
                                0 <= j < upd.len() implies #[trigger] self.mesh_layouts()[upd[j]]
                                == upload_layout(
                                m[upd[j]],
                                upload_offset(size0, upd, m, j) as u64,
                            ) by {
                                if j < upd.len() - 1 {
                                    assert(upd[j] == upd0[j]);
                                    assert(upd[j] != e.mesh) by {
                                        assert(upd0.to_set().contains(upd0[j]));
                                    }
                                    assert(total_data_size(upd.take(j), m) == total_data_size(
                                        upd0.take(j),
                                        m,
                                    ));
                                }
                            }
                        }
                    } else {
                        proof {
                            assert(uploads_from(rows.skip(i as int), m, t, cache0, upd.to_set())
                                == uploads_from(
                                rows.skip(i as int + 1),
                                m,
                                t,
                                cache0,
                                upd.to_set(),
                            ));
                        }
                    }
                    // -------- per-frame mesh listing
                    let ghost eo0 = entry_order@;
                    if !frame_seen.contains_key(e.mesh) {
                        if entry_order.len() as u64 >= dcap / INDIRECT_COMMAND_SIZE
                            || entry_order.len() as u64 >= 0xffff_ffffu64 {
                            proof {
                                assert(frame_meshes_from(rows.skip(i as int), m, t, eo0.to_set())
                                    == seq![e.mesh] + frame_meshes_from(
                                    rows.skip(i as int + 1),
                                    m,
                                    t,
                                    eo0.to_set().insert(e.mesh),
                                ));
                                assert(fms.len() >= eo0.len() + 1);
                                lemma_slot_capacity_check(
                                    eo0.len() as int,
                                    INDIRECT_COMMAND_SIZE as int,
                                    dcap as int,
                                );
                                if entry_order@.len() as u64 >= dcap / INDIRECT_COMMAND_SIZE {
                                    assert((eo0.len() + 1) * (INDIRECT_COMMAND_SIZE as int) > dcap);
                                    assert(fms.len() * (INDIRECT_COMMAND_SIZE as int) >= (eo0.len()
                                        + 1) * (INDIRECT_COMMAND_SIZE as int));
                                } else {
                                    assert(fms.len() > u32::MAX);
                                }
                                assert(spec_indirect_over(rows, m, t, dcap as int));
                            }
                            *self = saved;
                            return Err(
                                RenderError::CapacityExceeded { buffer: RenderBuffer::Indirect },
                            );
                        }
                        proof {
                            lemma_slot_capacity_check(
                                eo0.len() as int,
                                INDIRECT_COMMAND_SIZE as int,
                                dcap as int,
                            );
                            assert((eo0.len() + 1) * (INDIRECT_COMMAND_SIZE as int) <= dcap);
                        }
                        entry_order.push(e.mesh);
                        frame_seen.insert(e.mesh, 0);
                        proof {
                            assert(frame_meshes_from(rows.skip(i as int), m, t, eo0.to_set())
                                == seq![e.mesh] + frame_meshes_from(
                                rows.skip(i as int + 1),
                                m,
                                t,
                                eo0.to_set().insert(e.mesh),
                            ));
                            eo0.lemma_push_to_set_commute(e.mesh);
                            assert(fms =~= entry_order@ + frame_meshes_from(
                                rows.skip(i as int + 1),
                                m,
                                t,
                                entry_order@.to_set(),
                            ));
                            assert(entry_order@.no_duplicates()) by {
                                assert(forall|p: int|
                                    0 <= p < eo0.len() ==> #[trigger] eo0[p] != e.mesh);
                            }
                        }
                    } else {
                        proof {
                            assert(frame_meshes_from(rows.skip(i as int), m, t, eo0.to_set())
                                == frame_meshes_from(
                                rows.skip(i as int + 1),
                                m,
                                t,
                                eo0.to_set(),
                            ));
                        }
                    }
                    // -------- transform slot
                    let ghost tslots0 = self.tslots();
                    let found = self.transform_bases.get(e.entity);
                    let tslot: u32 = match found {
                        Some(s) => {
                            let s = *s;
                            proof {
                                assert(new_keys_from(
                                    rows.skip(i as int),
                                    m,
                                    t,
                                    tslots0.dom(),
                                    false,
                                ) == new_keys_from(
                                    rows.skip(i as int + 1),
                                    m,
                                    t,
                                    tslots0.dom(),
                                    false,
                                ));
                            }
                            s
                        },
                        None => {
                            let len = self.transform_bases.len();
                            proof {
                                assert(new_keys_from(rows.skip(i as int), m, t, tslots0.dom(), false)
                                    == seq![e.entity] + new_keys_from(
                                    rows.skip(i as int + 1),
                                    m,
                                    t,
                                    tslots0.dom().insert(e.entity),
                                    false,
                                ));
                                assert(ntk.len() >= ntkd.len() + 1);
                            }
                            if len as u64 >= 0xffff_ffffu64 {
                                proof {
                                    assert(tc0 + ntk.len() > u32::MAX);
                                    assert(spec_table_over(
                                        rows,
                                        m,
                                        t,
                                        t0,
                                        tc0,
                                        TRANSFORM_SIZE as int,
                                        tcap as int,
                                        false,
                                    ));
                                }
                                *self = saved;
                                return Err(
                                    RenderError::CapacityExceeded {
                                        buffer: RenderBuffer::Transform,
                                    },
                                );
                            }
                            let s = len as u32;
                            let ghost ntkd0 = ntkd;
                            self.transform_bases.insert(e.entity, s);
                            proof {
                                ntkd = ntkd0.push(e.entity);
                                lemma_slots_after_push(t0, tc0 as int, ntkd0, e.entity);
                                assert(self.tslots() == slots_after(t0, tc0 as int, ntkd));
                                assert(self.tslots().dom() == tslots0.dom().insert(e.entity));
                                assert(ntk =~= ntkd + new_keys_from(
                                    rows.skip(i as int + 1),
                                    m,
                                    t,
                                    self.tslots().dom(),
                                    false,
                                ));
                                // table well-formedness is kept
                                assert forall|k: u64| self.tslots().dom().contains(k) implies (
                                #[trigger] self.tslots()[k]) < tc0 + ntkd.len() by {
                                    if k != e.entity {
                                        assert(tslots0[k] < tc0 + ntkd0.len());
                                    }
                                }
                                assert forall|k1: u64, k2: u64|
                                    self.tslots().dom().contains(k1) && self.tslots().dom().contains(
                                        k2,
                                    ) && #[trigger] self.tslots()[k1] == #[trigger] self.tslots()[k2]
                                    implies k1 == k2 by {
                                    if k1 == e.entity && k2 != e.entity {
                                        assert(tslots0[k2] < tc0 + ntkd0.len());
                                    }
                                    if k2 == e.entity && k1 != e.entity {
                                        assert(tslots0[k1] < tc0 + ntkd0.len());
                                    }
                                }
                                assert(slot_table_wf(
                                    self.tslots(),
                                    self.transform_bases.spec_len(),
                                ));
                            }
                            s
                        },
                    };
                    proof {
                        lemma_slot_capacity_check(
                            tslot as int,
                            TRANSFORM_SIZE as int,
                            tcap as int,
                        );
                        let cur = self.tslots();
                        let rest = new_keys_from(rows.skip(i as int + 1), m, t, cur.dom(), false);
                        lemma_new_keys_fresh(rows.skip(i as int + 1), m, t, cur.dom(), false);
                        assert(cur.dom().contains(e.entity));
                        assert(cur[e.entity] == tslot);
                        assert(ntkd + rest =~= ntk);
                        lemma_final_slot_of_assigned(t0, tc0 as int, ntkd, rest, e.entity);
                        assert(slots_after(t0, tc0 as int, ntk)[e.entity] == tslot);
                    }
                    if tslot as u64 >= tcap / TRANSFORM_SIZE {
                        proof {
                            assert((tslot + 1) * (TRANSFORM_SIZE as int) > tcap);
                            assert(row_drawable(m, t, rows[i as int]) && rows[i as int].entity
                                == e.entity);
                            assert(spec_table_over(
                                rows,
                                m,
                                t,
                                t0,
                                tc0,
                                TRANSFORM_SIZE as int,
                                tcap as int,
                                false,
                            ));
                        }
                        *self = saved;
                        return Err(
                            RenderError::CapacityExceeded { buffer: RenderBuffer::Transform },
                        );
                    }
                    proof {
                        assert((tslot + 1) * (TRANSFORM_SIZE as int) <= tcap);
                    }
                    transform_writes.push(
                        BufferWrite {
                            offset: tslot as u64 * TRANSFORM_SIZE,
                            data: e.transform.pack(),
                        },
                    );
                    // -------- material slot
                    let ghost mslots0 = self.mslots();
                    let mfound = self.material_bases.get(e.material);
                    let mslot: u32 = match mfound {
                        Some(s) => {
                            let s = *s;
                            proof {
                                assert(new_keys_from(rows.skip(i as int), m, t, mslots0.dom(), true)
                                    == new_keys_from(
                                    rows.skip(i as int + 1),
                                    m,
                                    t,
                                    mslots0.dom(),
                                    true,
                                ));
                            }
                            s
                        },
                        None => {
                            let len = self.material_bases.len();
                            proof {
                                assert(new_keys_from(rows.skip(i as int), m, t, mslots0.dom(), true)
                                    == seq![e.material] + new_keys_from(
                                    rows.skip(i as int + 1),
                                    m,
                                    t,
                                    mslots0.dom().insert(e.material),
                                    true,
                                ));
                                assert(nmk.len() >= nmkd.len() + 1);
                            }
                            if len as u64 >= 0xffff_ffffu64 {
                                proof {
                                    assert(mc0 + nmk.len() > u32::MAX);
                                    assert(spec_table_over(
                                        rows,
                                        m,
                                        t,
                                        m0,
                                        mc0,
                                        MATERIAL_UNIFORM_SIZE as int,
                                        ccap as int,
                                        true,
                                    ));
                                }
                                *self = saved;
                                return Err(
                                    RenderError::CapacityExceeded {
                                        buffer: RenderBuffer::Materials,
                                    },
                                );
                            }
                            let s = len as u32;
                            let ghost nmkd0 = nmkd;
                            self.material_bases.insert(e.material, s);
                            proof {
                                nmkd = nmkd0.push(e.material);
                                lemma_slots_after_push(m0, mc0 as int, nmkd0, e.material);
                                assert(self.mslots() == slots_after(m0, mc0 as int, nmkd));
                                assert(self.mslots().dom() == mslots0.dom().insert(e.material));
                                assert(nmk =~= nmkd + new_keys_from(
                                    rows.skip(i as int + 1),
                                    m,
                                    t,
                                    self.mslots().dom(),
                                    true,
                                ));
                                assert forall|k: u64| self.mslots().dom().contains(k) implies (
                                #[trigger] self.mslots()[k]) < mc0 + nmkd.len() by {
                                    if k != e.material {
                                        assert(mslots0[k] < mc0 + nmkd0.len());
                                    }
                                }
                                assert forall|k1: u64, k2: u64|
                                    self.mslots().dom().contains(k1) && self.mslots().dom().contains(
                                        k2,
                                    ) && #[trigger] self.mslots()[k1] == #[trigger] self.mslots()[k2]
                                    implies k1 == k2 by {
                                    if k1 == e.material && k2 != e.material {
                                        assert(mslots0[k2] < mc0 + nmkd0.len());
                                    }
                                    if k2 == e.material && k1 != e.material {
                                        assert(mslots0[k1] < mc0 + nmkd0.len());
                                    }
                                }
                                assert(slot_table_wf(
                                    self.mslots(),
                                    self.material_bases.spec_len(),
                                ));
                            }
                            s
                        },
                    };
                    proof {
                        lemma_slot_capacity_check(
                            mslot as int,
                            MATERIAL_UNIFORM_SIZE as int,
                            ccap as int,
                        );
                        let cur = self.mslots();
                        let rest = new_keys_from(rows.skip(i as int + 1), m, t, cur.dom(), true);
                        lemma_new_keys_fresh(rows.skip(i as int + 1), m, t, cur.dom(), true);
                        assert(cur.dom().contains(e.material));
                        assert(cur[e.material] == mslot);
                        assert(nmkd + rest =~= nmk);
                        lemma_final_slot_of_assigned(m0, mc0 as int, nmkd, rest, e.material);
                        assert(slots_after(m0, mc0 as int, nmk)[e.material] == mslot);
                    }
                    if mslot as u64 >= ccap / MATERIAL_UNIFORM_SIZE {
                        proof {
                            assert((mslot + 1) * (MATERIAL_UNIFORM_SIZE as int) > ccap);
                            assert(row_drawable(m, t, rows[i as int]) && rows[i as int].material
                                == e.material);
                            assert(spec_table_over(
                                rows,
                                m,
                                t,
                                m0,
                                mc0,
                                MATERIAL_UNIFORM_SIZE as int,
                                ccap as int,
                                true,
                            ));
                        }
                        *self = saved;
                        return Err(
                            RenderError::CapacityExceeded { buffer: RenderBuffer::Materials },
                        );
                    }
                    proof {
                        assert((mslot + 1) * (MATERIAL_UNIFORM_SIZE as int) <= ccap);
                    }
                    material_writes.push(
                        BufferWrite {
                            offset: mslot as u64 * MATERIAL_UNIFORM_SIZE,
                            data: crate::material::pack_material_uniform(material_asset),
                        },
                    );
                    // -------- instance accounting
                    proof {
                        assert(drawable_seq(rows.skip(i as int), m, t) == seq![rows[i as int]]
                            + drawable_seq(rows.skip(i as int + 1), m, t));
                        assert(dseq.len() >= dsd.len() + 1);
                    }
                    if icount >= icap / INSTANCE_SIZE || icount >= 0xffff_ffffu64 {
                        proof {
                            lemma_slot_capacity_check(icount as int, INSTANCE_SIZE as int, icap as int);
                            if icount >= icap / INSTANCE_SIZE {
                                assert((icount + 1) * (INSTANCE_SIZE as int) > icap);
                                assert(dseq.len() * (INSTANCE_SIZE as int) >= (icount + 1) * (
                                INSTANCE_SIZE as int));
                            } else {
                                assert(dseq.len() > u32::MAX);
                            }
                            assert(spec_instance_over(rows, m, t, icap as int));
                        }
                        *self = saved;
                        return Err(
                            RenderError::CapacityExceeded { buffer: RenderBuffer::Instances },
                        );
                    }
                    proof {
                        lemma_slot_capacity_check(icount as int, INSTANCE_SIZE as int, icap as int);
                        assert((icount + 1) * (INSTANCE_SIZE as int) <= icap);
                    }
                    icount = icount + 1;
                    proof {
                        dsd = dsd.push(*e);
                        assert(dseq =~= dsd + drawable_seq(rows.skip(i as int + 1), m, t));
                    }
                },
                _ => {
                    proof {
                        assert(!row_drawable(m, t, rows[i as int]));
                        assert(uploads_from(rows.skip(i as int), m, t, cache0, upd.to_set())
                            == uploads_from(rows.skip(i as int + 1), m, t, cache0, upd.to_set()));
                        assert(frame_meshes_from(rows.skip(i as int), m, t, entry_order@.to_set())
                            == frame_meshes_from(
                            rows.skip(i as int + 1),
                            m,
                            t,
                            entry_order@.to_set(),
                        ));
                        assert(new_keys_from(rows.skip(i as int), m, t, self.tslots().dom(), false)
                            == new_keys_from(
                            rows.skip(i as int + 1),
                            m,
                            t,
                            self.tslots().dom(),
                            false,
                        ));
                        assert(new_keys_from(rows.skip(i as int), m, t, self.mslots().dom(), true)
                            == new_keys_from(
                            rows.skip(i as int + 1),
                            m,
                            t,
                            self.mslots().dom(),
                            true,
                        ));
                        assert(drawable_seq(rows.skip(i as int), m, t) == drawable_seq(
                            rows.skip(i as int + 1),
                            m,
                            t,
                        ));
                    }
                },
            }
            i = i + 1;
        }
        proof {
            lemma_skip_all(rows);
            assert(upd =~= ups);
            assert(entry_order@ =~= fms);
            assert(ntkd =~= ntk);
            assert(nmkd =~= nmk);
            assert(dsd =~= dseq);
        }

        // Group instances by mesh and emit the indirect records.
        let ghost tf = self.tslots();
        let ghost mf = self.mslots();
        let mut instances: Vec<Instance> = Vec::new();
        let mut commands: Vec<IndirectCommand> = Vec::new();
        let mut q: usize = 0;
        while q < entry_order.len()
            invariant
                q <= entry_order@.len(),
                n == rows.len(),
                rows == world@,
                m == assets.meshes(),
                t == assets.materials(),
                assets.wf(),
                self.wf(),
                tf == self.tslots(),
                mf == self.mslots(),
                fms == entry_order@,
                dseq == drawable_seq(rows, m, t),
                entry_order@.no_duplicates(),
                dseq.len() <= u32::MAX,
                forall|k: int|
                    0 <= k < rows.len() && row_drawable(m, t, #[trigger] rows[k]) ==> {
                        &&& tf.dom().contains(rows[k].entity)
                        &&& mf.dom().contains(rows[k].material)
                    },
                forall|j: int|
                    0 <= j < entry_order@.len() ==> self.mesh_layouts().dom().contains(
                        #[trigger] entry_order@[j],
                    ),
                commands@.len() == q,
                instances@ == instances_concat(rows, m, t, tf, mf, entry_order@.take(q as int)),
                instances@.len() == base_instance_of(rows, m, t, fms, q as int),
                instances@.len() <= dseq.len(),
                forall|p: int|
                    0 <= p < q ==> #[trigger] commands@[p] == spec_command(
                        rows,
                        m,
                        t,
                        self.mesh_layouts(),
                        fms,
                        p,
                    ),
            decreases entry_order@.len() - q,
        {
            let mid = entry_order[q];
            let base = instances.len();
            let ghost pre = instances@;
            let ghost mut mi: Seq<Instance> = Seq::empty();
            proof {
                lemma_skip_all(rows);
                assert(mi + mesh_instances(rows.skip(0), m, t, tf, mf, entry_order@[q as int])
                    =~= mesh_instances(rows, m, t, tf, mf, entry_order@[q as int]));
            }
            let mut k: usize = 0;
            while k < n
                invariant
                    k <= n,
                    n == rows.len(),
                    rows == world@,
                    m == assets.meshes(),
                    t == assets.materials(),
                    assets.wf(),
                    self.wf(),
                    tf == self.tslots(),
                    mf == self.mslots(),
                    mid == entry_order@[q as int],
                    q < entry_order@.len(),
                    forall|kk: int|
                        0 <= kk < rows.len() && row_drawable(m, t, #[trigger] rows[kk]) ==> {
                            &&& tf.dom().contains(rows[kk].entity)
                            &&& mf.dom().contains(rows[kk].material)
                        },
                    base == pre.len(),
                    instances@ == pre + mi,
                    mesh_instances(rows, m, t, tf, mf, mid) == mi + mesh_instances(
                        rows.skip(k as int),
                        m,
                        t,
                        tf,
                        mf,
                        mid,
                    ),
                decreases n - k,
            {
                proof {
                    lemma_skip_step(rows, k as int);
                }
                let e = &world[k];
                if e.mesh == mid {
                    let mesh_ready = assets.mesh(e.mesh).is_some();
                    let mat_ready = assets.material(e.material).is_some();
                    if mesh_ready && mat_ready {
                        assert(row_drawable(m, t, rows[k as int]));
                        let ts: u32 = match self.transform_bases.get(e.entity) {
                            Some(s) => *s,
                            None => 0,
                        };
                        let ms: u32 = match self.material_bases.get(e.material) {
                            Some(s) => *s,
                            None => 0,
                        };
                        instances.push(
                            Instance {
                                base_transform: ts,
                                base_material: ms,
                                reserve_0: 0,
                                reserve_1: 0,
                            },
                        );
                        proof {
                            mi = mi.push(
                                Instance {
                                    base_transform: tf[rows[k as int].entity],
                                    base_material: mf[rows[k as int].material],
                                    reserve_0: 0,
                                    reserve_1: 0,
                                },
                            );
                            assert(instances@ =~= pre + mi);
                            assert(mesh_instances(rows.skip(k as int), m, t, tf, mf, mid)
                                == seq![
                                Instance {
                                    base_transform: tf[rows[k as int].entity],
                                    base_material: mf[rows[k as int].material],
                                    reserve_0: 0,
                                    reserve_1: 0,
                                },
                            ] + mesh_instances(rows.skip(k as int + 1), m, t, tf, mf, mid));
                            assert(mesh_instances(rows, m, t, tf, mf, mid) =~= mi + mesh_instances(
                                rows.skip(k as int + 1),
                                m,
                                t,
                                tf,
                                mf,
                                mid,
                            ));
                        }
                    } else {
                        proof {
                            assert(!row_drawable(m, t, rows[k as int]));
                            assert(mesh_instances(rows.skip(k as int), m, t, tf, mf, mid)
                                == mesh_instances(rows.skip(k as int + 1), m, t, tf, mf, mid));
                        }
                    }
                } else {
                    proof {
                        assert(mesh_instances(rows.skip(k as int), m, t, tf, mf, mid)
                            == mesh_instances(rows.skip(k as int + 1), m, t, tf, mf, mid));
                    }
                }
                k = k + 1;
            }
            proof {
                lemma_skip_all(rows);
                assert(mi =~= mesh_instances(rows, m, t, tf, mf, mid));
                lemma_mesh_instances_len(rows, m, t, tf, mf, mid);
                lemma_count_mesh_le(rows, m, t, mid);
            }
            let count = instances.len() - base;
            let layout = match self.meshes.get(mid) {
                Some(l) => *l,
                None => {
                    proof {
                        assert(false);
                    }
                    MeshLayout {
                        version: 0,
                        vertex_buffer_location: BufferLocation { offset: 0, size: 0 },
                        index_buffer_location: None,
                        base_vertex: 0,
                        vertex_count: 0,
                    }
                },
            };
            commands.push(
                IndirectCommand {
                    vertex_count: layout.vertex_count,
                    instance_count: count as u32,
                    base_vertex: layout.base_vertex,
                    base_instance: base as u32,
                },
            );
            proof {
                lemma_instances_concat_push(rows, m, t, tf, mf, entry_order@.take(q as int), mid);
                assert(entry_order@.take(q as int).push(mid) =~= entry_order@.take(q as int + 1));
                assert(instances@ =~= instances_concat(
                    rows,
                    m,
                    t,
                    tf,
                    mf,
                    entry_order@.take(q as int + 1),
                ));
                // the running total stays within the drawable count
                lemma_base_instance_count_in(rows, m, t, fms, q as int + 1);
                lemma_count_in_le(rows, m, t, fms.take(q as int + 1).to_set());
                assert(commands@[q as int] == spec_command(
                    rows,
                    m,
                    t,
                    self.mesh_layouts(),
                    fms,
                    q as int,
                ));
            }
            q = q + 1;
        }
        proof {
            assert(entry_order@.take(entry_order@.len() as int) =~= entry_order@);
            // the listed meshes cover every drawable row
            lemma_frame_meshes_cover(rows, m, t, Set::empty());
            assert forall|ii: int|
                0 <= ii < rows.len() && row_drawable(m, t, #[trigger] rows[ii]) implies fms.to_set().contains(
                rows[ii].mesh,
            ) by {
                assert(fms.contains(rows[ii].mesh));
            }
            lemma_instances_concat_len(rows, m, t, tf, mf, fms);
            lemma_count_in_full(rows, m, t, fms.to_set());
        }
        Ok(
            FramePlan {
                mesh_writes,
                transform_writes,
                material_writes,
                instances,
                commands,
            },
        )
    }

    /// A fresh value holding the same state.
    fn snapshot(&self) -> (r: Self)
        requires
            self.wf(),
        ensures
            r.wf(),
            r.mesh_layouts() == self.mesh_layouts(),
            r.spec_meshes_size() == self.spec_meshes_size(),
            r.tslots() == self.tslots(),
            r.mslots() == self.mslots(),
            r.tslot_count() == self.tslot_count(),
            r.mslot_count() == self.mslot_count(),
    {
        Render {
            meshes: self.meshes.duplicate(),
            meshes_size: self.meshes_size,
            transform_bases: self.transform_bases.duplicate(),
            material_bases: self.material_bases.duplicate(),
        }
    }
}

} // verus!

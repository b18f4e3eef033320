use dotrix_render::assets::Assets;
use dotrix_render::entity::{Entity, Transform};
use dotrix_render::gpu::{Descriptor, Gpu};
use dotrix_render::material::{Color, Material};
use dotrix_render::mesh::Mesh;
use dotrix_render::pbr::{
    apply_plan, Allocator, Buffers, Render, RenderBuffer, RenderError,
};

const MESH_A: u64 = 10;
const MESH_B: u64 = 11;
const MAT_RED: u64 = 20;
const MAT_BLUE: u64 = 21;

fn test_gpu() -> Gpu {
    let descriptor = Descriptor {
        fps_request: 60_000,
        surface_width: 640,
        surface_height: 480,
        sample_count: 1,
    };
    Gpu::new(&descriptor, 0)
}

fn small_buffers(gpu: &mut Gpu) -> Buffers {
    Allocator::new(4096, 4096, 4096, 4096, 4096).run(gpu)
}

fn mesh(version: u32, fill: u8) -> Mesh {
    Mesh { version, vertex_count: 1, data: vec![fill; 32], indexed: false }
}

fn material(r: u32) -> Material {
    Material {
        albedo: Color { r, g: 2, b: 3, a: 4 },
        ambient_occlusion: 5,
        metallic: 6,
        roughness: 7,
    }
}

fn matrix(seed: u32) -> Transform {
    Transform { bits: (0..16u32).map(|i| seed + i).collect() }
}

fn entity(id: u64, mesh: u64, mat: u64, seed: u32) -> Entity {
    Entity { entity: id, mesh, material: mat, transform: matrix(seed) }
}

fn test_assets() -> Assets {
    let mut assets = Assets::new();
    assets.set_mesh(MESH_A, mesh(1, 0xaa));
    assets.set_mesh(MESH_B, mesh(1, 0xbb));
    assets.set_material(MAT_RED, material(100));
    assets.set_material(MAT_BLUE, material(200));
    assets
}

#[test]
fn three_entities_two_meshes_two_materials() {
    let mut gpu = test_gpu();
    let buffers = small_buffers(&mut gpu);
    let assets = test_assets();
    let world = vec![
        entity(1, MESH_A, MAT_RED, 1000),
        entity(2, MESH_A, MAT_BLUE, 2000),
        entity(3, MESH_B, MAT_RED, 3000),
    ];
    let mut render = Render::new();
    let plan = render.run(&world, &assets, &buffers, &gpu).unwrap();

    // Exactly one indirect record per distinct mesh, in encounter
    // order; counts partition the three instances.
    assert_eq!(plan.commands.len(), 2);
    assert_eq!(plan.commands[0].instance_count, 2);
    assert_eq!(plan.commands[0].base_instance, 0);
    assert_eq!(plan.commands[0].base_vertex, 0);
    assert_eq!(plan.commands[0].vertex_count, 1);
    assert_eq!(plan.commands[1].instance_count, 1);
    assert_eq!(plan.commands[1].base_instance, 2);
    assert_eq!(plan.commands[1].base_vertex, 1);
    let total: u32 = plan.commands.iter().map(|c| c.instance_count).sum();
    assert_eq!(total, 3);

    // The instance table is grouped by mesh, slots in encounter
    // order.
    let pairs: Vec<(u32, u32)> =
        plan.instances.iter().map(|i| (i.base_transform, i.base_material)).collect();
    assert_eq!(pairs, vec![(0, 0), (1, 1), (2, 0)]);

    // Both meshes upload once, contiguously.
    assert_eq!(plan.mesh_writes.len(), 2);
    assert_eq!(plan.mesh_writes[0].offset, 0);
    assert_eq!(plan.mesh_writes[0].data, vec![0xaa; 32]);
    assert_eq!(plan.mesh_writes[1].offset, 32);
    assert_eq!(plan.mesh_writes[1].data, vec![0xbb; 32]);

    // Three material rewrites, but only two distinct slots.
    assert_eq!(plan.material_writes.len(), 3);
    let mut offsets: Vec<u64> = plan.material_writes.iter().map(|w| w.offset).collect();
    offsets.sort();
    offsets.dedup();
    assert_eq!(offsets, vec![0, 64]);

    // One transform rewrite per entity at its own slot.
    let toffsets: Vec<u64> = plan.transform_writes.iter().map(|w| w.offset).collect();
    assert_eq!(toffsets, vec![0, 64, 128]);
}

#[test]
fn cached_mesh_uploads_once_per_version() {
    let mut gpu = test_gpu();
    let buffers = small_buffers(&mut gpu);
    let assets = test_assets();
    let world = vec![entity(1, MESH_A, MAT_RED, 0)];
    let mut render = Render::new();

    let first = render.run(&world, &assets, &buffers, &gpu).unwrap();
    assert_eq!(first.mesh_writes.len(), 1);

    // Same identity at the same version: the cached layout is reused
    // and no second device write is issued.
    let second = render.run(&world, &assets, &buffers, &gpu).unwrap();
    assert!(second.mesh_writes.is_empty());
    assert_eq!(second.commands[0].base_vertex, first.commands[0].base_vertex);
    assert_eq!(second.commands[0].vertex_count, first.commands[0].vertex_count);

    // A version bump re-uploads at the tail of the vertex buffer.
    let mut assets = test_assets();
    assets.set_mesh(MESH_A, mesh(2, 0xcc));
    let third = render.run(&world, &assets, &buffers, &gpu).unwrap();
    assert_eq!(third.mesh_writes.len(), 1);
    assert_eq!(third.mesh_writes[0].offset, 32);
    assert_eq!(third.commands[0].base_vertex, 1);
}

#[test]
fn unready_assets_skip_the_entity() {
    let mut gpu = test_gpu();
    let buffers = small_buffers(&mut gpu);
    let assets = test_assets();
    let world = vec![
        entity(1, MESH_A, MAT_RED, 0),
        entity(2, 999, MAT_RED, 0),
        entity(3, MESH_B, 999, 0),
    ];
    let mut render = Render::new();
    let plan = render.run(&world, &assets, &buffers, &gpu).unwrap();
    assert_eq!(plan.commands.len(), 1);
    assert_eq!(plan.commands[0].instance_count, 1);
    assert_eq!(plan.instances.len(), 1);
}

#[test]
fn indexed_mesh_is_rejected_explicitly() {
    let mut gpu = test_gpu();
    let buffers = small_buffers(&mut gpu);
    let mut assets = test_assets();
    let indexed = Mesh { version: 1, vertex_count: 1, data: vec![0; 32], indexed: true };
    assets.set_mesh(MESH_B, indexed);
    let world = vec![entity(1, MESH_A, MAT_RED, 0), entity(2, MESH_B, MAT_RED, 0)];
    let mut render = Render::new();
    let r = render.run(&world, &assets, &buffers, &gpu);
    assert_eq!(r.err(), Some(RenderError::MeshIndexed { mesh: MESH_B }));
    // The failed frame left no state behind: the next valid frame
    // still uploads both meshes it can.
    let world = vec![entity(1, MESH_A, MAT_RED, 0)];
    let plan = render.run(&world, &assets, &buffers, &gpu).unwrap();
    assert_eq!(plan.mesh_writes.len(), 1);
    assert_eq!(plan.mesh_writes[0].offset, 0);
}

#[test]
fn capacity_overflow_is_fatal_and_reported() {
    let mut gpu = test_gpu();
    // Room for exactly one instance record.
    let buffers = Allocator::new(4096, 4096, 4096, 16, 4096).run(&mut gpu);
    let assets = test_assets();
    let world = vec![entity(1, MESH_A, MAT_RED, 0), entity(2, MESH_A, MAT_BLUE, 0)];
    let mut render = Render::new();
    let r = render.run(&world, &assets, &buffers, &gpu);
    assert_eq!(
        r.err(),
        Some(RenderError::CapacityExceeded { buffer: RenderBuffer::Instances })
    );

    let mut gpu = test_gpu();
    // Room for only one 32-byte mesh.
    let buffers = Allocator::new(32, 4096, 4096, 4096, 4096).run(&mut gpu);
    let world = vec![entity(1, MESH_A, MAT_RED, 0), entity(3, MESH_B, MAT_RED, 0)];
    let mut render = Render::new();
    let r = render.run(&world, &assets, &buffers, &gpu);
    assert_eq!(r.err(), Some(RenderError::CapacityExceeded { buffer: RenderBuffer::Mesh }));

    let mut gpu = test_gpu();
    // Room for one transform slot only.
    let buffers = Allocator::new(4096, 64, 4096, 4096, 4096).run(&mut gpu);
    let world = vec![entity(1, MESH_A, MAT_RED, 0), entity(2, MESH_A, MAT_RED, 0)];
    let mut render = Render::new();
    let r = render.run(&world, &assets, &buffers, &gpu);
    assert_eq!(
        r.err(),
        Some(RenderError::CapacityExceeded { buffer: RenderBuffer::Transform })
    );

    let mut gpu = test_gpu();
    // Room for one material slot only.
    let buffers = Allocator::new(4096, 4096, 4096, 4096, 64).run(&mut gpu);
    let world = vec![entity(1, MESH_A, MAT_RED, 0), entity(2, MESH_A, MAT_BLUE, 0)];
    let mut render = Render::new();
    let r = render.run(&world, &assets, &buffers, &gpu);
    assert_eq!(
        r.err(),
        Some(RenderError::CapacityExceeded { buffer: RenderBuffer::Materials })
    );

    let mut gpu = test_gpu();
    // Room for one indirect record only.
    let buffers = Allocator::new(4096, 4096, 16, 4096, 4096).run(&mut gpu);
    let world = vec![entity(1, MESH_A, MAT_RED, 0), entity(2, MESH_B, MAT_RED, 0)];
    let mut render = Render::new();
    let r = render.run(&world, &assets, &buffers, &gpu);
    assert_eq!(
        r.err(),
        Some(RenderError::CapacityExceeded { buffer: RenderBuffer::Indirect })
    );
}

#[test]
fn applied_transforms_read_back_bit_for_bit() {
    let mut gpu = test_gpu();
    let buffers = small_buffers(&mut gpu);
    let assets = test_assets();
    let world = vec![entity(1, MESH_A, MAT_RED, 1000), entity(2, MESH_B, MAT_BLUE, 2000)];
    let mut render = Render::new();
    let plan = render.run(&world, &assets, &buffers, &gpu).unwrap();

    let ok = apply_plan(&plan, &buffers, &mut gpu);
    assert!(ok);

    // Round trip: the slot bytes equal the packed matrix exactly.
    let transform_buffer = gpu.get_buffer(buffers.transform).unwrap();
    assert_eq!(transform_buffer.read(0, 64), matrix(1000).pack());
    assert_eq!(transform_buffer.read(64, 64), matrix(2000).pack());

    // The vertex buffer holds both meshes back to back.
    let mesh_buffer = gpu.get_buffer(buffers.mesh).unwrap();
    assert_eq!(mesh_buffer.read(0, 32), vec![0xaa; 32]);
    assert_eq!(mesh_buffer.read(32, 32), vec![0xbb; 32]);

    // The indirect buffer holds the packed records, native field
    // order, no padding.
    let indirect_buffer = gpu.get_buffer(buffers.indirect).unwrap();
    let first = indirect_buffer.read(0, 16);
    let words: Vec<u32> = first
        .chunks(4)
        .map(|c| u32::from_le_bytes([c[0], c[1], c[2], c[3]]))
        .collect();
    assert_eq!(words, vec![1, 1, 0, 0]);
    let second = indirect_buffer.read(16, 16);
    let words: Vec<u32> = second
        .chunks(4)
        .map(|c| u32::from_le_bytes([c[0], c[1], c[2], c[3]]))
        .collect();
    assert_eq!(words, vec![1, 1, 1, 1]);
}

#[test]
fn slots_are_stable_across_frames() {
    let mut gpu = test_gpu();
    let buffers = small_buffers(&mut gpu);
    let assets = test_assets();
    let mut render = Render::new();

    // First frame: the lone entity takes transform slot 0, its
    // material slot 0.
    let world = vec![entity(7, MESH_A, MAT_BLUE, 0)];
    let plan = render.run(&world, &assets, &buffers, &gpu).unwrap();
    assert_eq!(plan.transform_writes[0].offset, 0);
    assert_eq!(plan.material_writes[0].offset, 0);

    // Next frame sees a new entity first; the old one keeps its slot
    // and the new one takes the next free one.
    let world = vec![entity(8, MESH_A, MAT_RED, 0), entity(7, MESH_A, MAT_BLUE, 0)];
    let plan = render.run(&world, &assets, &buffers, &gpu).unwrap();
    let pairs: Vec<(u32, u32)> =
        plan.instances.iter().map(|i| (i.base_transform, i.base_material)).collect();
    assert_eq!(pairs, vec![(1, 1), (0, 0)]);
}

#[test]
fn allocator_runs_once() {
    let mut gpu = test_gpu();
    let mut allocator = Allocator::new(4096, 4096, 4096, 4096, 4096);
    let first = allocator.run(&mut gpu);
    let second = allocator.run(&mut gpu);
    assert_eq!(first, second);
    // Nine distinct objects were registered.
    let handles = vec![
        first.mesh,
        first.transform,
        first.materials,
        first.indirect,
        first.instances,
        first.solid_render_pipeline,
        first.bind_group,
        first.shader_module,
        first.camera_mockup,
    ];
    let mut unique = handles.clone();
    unique.sort();
    unique.dedup();
    assert_eq!(unique.len(), handles.len());
    assert!(gpu.get_buffer(first.mesh).is_some());
    assert_eq!(gpu.get_buffer(first.mesh).unwrap().size(), 4096);
    assert!(gpu.get_buffer(first.solid_render_pipeline).is_none());
}

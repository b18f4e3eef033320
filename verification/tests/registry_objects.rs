use dotrix_render::buffer::{Builder, USAGE_COPY_DST, USAGE_VERTEX};
use dotrix_render::gpu::{Descriptor, Gpu};
use dotrix_render::ui::SlicedBuffer;
use dotrix_render::registry::{Resource, ShaderModule};

fn test_gpu() -> Gpu {
    let descriptor = Descriptor {
        fps_request: 60_000,
        surface_width: 640,
        surface_height: 480,
        sample_count: 1,
    };
    Gpu::new(&descriptor, 0)
}

#[test]
fn builder_composes_size_and_usage() {
    let buffer = Builder::new().size(256).allow_copy_dst().use_as_vertex().create();
    assert_eq!(buffer.size(), 256);
    assert_eq!(buffer.usage(), USAGE_COPY_DST | USAGE_VERTEX);
}

#[test]
fn store_allocates_fresh_handles() {
    let mut gpu = test_gpu();
    let a = gpu.store(Resource::ShaderModule(ShaderModule {}));
    let b = gpu.store(Resource::Buffer(gpu.buffer().size(16).create()));
    assert_ne!(a, b);
    assert!(gpu.get(a).is_some());
    assert!(gpu.get(b).is_some());
    assert!(gpu.get(b + 1).is_none());
}

#[test]
fn typed_retrieval_rejects_other_kinds() {
    let mut gpu = test_gpu();
    let module = gpu.store(Resource::ShaderModule(ShaderModule {}));
    let buffer = gpu.store(Resource::Buffer(gpu.buffer().size(16).create()));
    assert!(gpu.get_buffer(module).is_none());
    assert!(gpu.get_buffer(buffer).is_some());
    assert!(gpu.get_buffer(buffer + 7).is_none());
}

#[test]
fn store_as_overwrites_in_place() {
    let mut gpu = test_gpu();
    let id = gpu.store(Resource::ShaderModule(ShaderModule {}));
    gpu.store_as(id, Resource::Buffer(gpu.buffer().size(8).create()));
    assert!(gpu.get_buffer(id).is_some());
    // A caller-chosen handle works too, and stays distinct from
    // freshly allocated ones.
    gpu.store_as(100, Resource::ShaderModule(ShaderModule {}));
    let fresh = gpu.store(Resource::ShaderModule(ShaderModule {}));
    assert!(fresh > 100);
}

#[test]
fn direct_buffer_writes_are_byte_exact() {
    let mut gpu = test_gpu();
    let id = gpu.store(Resource::Buffer(gpu.buffer().size(8).allow_copy_dst().create()));
    let written = gpu.write_buffer_by_id(id, 2, &vec![9, 8, 7]);
    assert!(written);
    let buffer = gpu.get_buffer(id).unwrap();
    assert_eq!(buffer.read(0, 8), vec![0, 0, 9, 8, 7, 0, 0, 0]);
    // A write that does not fit is refused and changes nothing.
    let written = gpu.write_buffer_by_id(id, 6, &vec![1, 2, 3]);
    assert!(!written);
    assert_eq!(gpu.get_buffer(id).unwrap().read(0, 8), vec![0, 0, 9, 8, 7, 0, 0, 0]);
}

#[test]
fn sliced_buffer_packs_back_to_back() {
    let buffer = Builder::new().size(16).allow_copy_dst().use_as_vertex().create();
    let mut sliced = SlicedBuffer::new(buffer);
    sliced.write(&vec![vec![1, 2, 3], vec![4, 5], vec![6]]);
    assert_eq!(sliced.slices, vec![(0, 3), (3, 5), (5, 6)]);
    assert_eq!(sliced.buffer.read(0, 8), vec![1, 2, 3, 4, 5, 6, 0, 0]);
    sliced.reset();
    assert!(sliced.slices.is_empty());
    sliced.write(&vec![vec![9, 9]]);
    assert_eq!(sliced.slices, vec![(0, 2)]);
    assert_eq!(sliced.buffer.read(0, 4), vec![9, 9, 3, 4]);
}

use dotrix_render::commands::{sort_by_priority, Commands, SubmitCommands, PresentFrame};
use dotrix_render::frame::{
    acquire_step, begin_acquire, finish_present, AcquireAction, AcquireOutcome, CreateFrame,
    FramePhase, ResizeSurface,
};
use dotrix_render::gpu::{
    check_device_capabilities, required_features, Descriptor, DeviceCapabilities, Gpu, InitError,
    PresentMode, SurfaceSize, Frame, FEATURE_INDIRECT_FIRST_INSTANCE, FEATURE_MULTI_DRAW_INDIRECT,
    REQUIRED_SHADER_MODEL,
};

fn test_gpu() -> Gpu {
    // One frame per second, so the five-second window holds five
    // samples.
    let descriptor = Descriptor {
        fps_request: 1000,
        surface_width: 640,
        surface_height: 480,
        sample_count: 1,
    };
    Gpu::new(&descriptor, 37)
}

#[test]
fn fps_window_fills_then_evicts_fifo() {
    let mut gpu = test_gpu();
    let mut frame = CreateFrame::default();
    let second: u64 = 1_000_000_000;

    // First frame: synthetic one-frame delta (one second at 1 fps).
    let prep = frame.run(&mut gpu, 0);
    assert_eq!(prep.delta, second);
    assert_eq!(gpu.frames_logged(), 1);
    assert_eq!(gpu.fps(), 1000);

    // Four more one-second frames fill the window exactly.
    for i in 1..5u64 {
        frame.run(&mut gpu, i * second);
        assert_eq!(gpu.frames_logged(), i as usize + 1);
    }
    assert_eq!(gpu.frames_logged(), 5);
    assert_eq!(gpu.fps(), 1000);

    // A sixth sample must evict exactly the oldest: the window holds
    // [1s, 1s, 1s, 1s, 6s], so the rate halves.
    frame.run(&mut gpu, 10 * second);
    assert_eq!(gpu.frames_logged(), 5);
    assert_eq!(gpu.fps(), 500);
}

#[test]
fn degenerate_resize_is_a_no_op() {
    let mut gpu = test_gpu();
    let before = gpu.surface_config();
    gpu.resize_request(0, 720);
    let prep = CreateFrame::default().run(&mut gpu, 0);
    assert!(!prep.reconfigure);
    assert_eq!(gpu.surface_config(), before);

    gpu.resize_request(1280, 0);
    let prep = CreateFrame::default().run(&mut gpu, 1);
    assert!(!prep.reconfigure);
    assert_eq!(gpu.surface_config(), before);
}

#[test]
fn resize_requests_coalesce_to_the_latest() {
    let mut gpu = test_gpu();
    let mut resize = ResizeSurface::default();
    resize.run(SurfaceSize { width: 100, height: 200 }, &mut gpu);
    resize.run(SurfaceSize { width: 300, height: 400 }, &mut gpu);
    let prep = CreateFrame::default().run(&mut gpu, 0);
    assert!(prep.reconfigure);
    let conf = gpu.surface_config();
    assert_eq!((conf.width, conf.height), (300, 400));
    assert_eq!(conf.format, 37);
    assert_eq!(conf.present_mode, PresentMode::Mailbox);

    // Applied once: the next frame sees no pending request.
    let prep = CreateFrame::default().run(&mut gpu, 1);
    assert!(!prep.reconfigure);
}

#[test]
fn acquisition_retries_once_then_aborts() {
    let phase = begin_acquire(FramePhase::Idle);
    assert_eq!(phase, FramePhase::Acquiring { retried: false });

    let (phase, action) = acquire_step(phase, AcquireOutcome::Lost);
    assert_eq!(action, AcquireAction::ReconfigureAndRetry);
    assert_eq!(phase, FramePhase::Acquiring { retried: true });

    let (phase, action) = acquire_step(phase, AcquireOutcome::Lost);
    assert_eq!(action, AcquireAction::Abort);
    assert_eq!(phase, FramePhase::Idle);

    let phase = begin_acquire(FramePhase::Idle);
    let (phase, action) = acquire_step(phase, AcquireOutcome::Acquired);
    assert_eq!(action, AcquireAction::Accept);
    assert_eq!(phase, FramePhase::Ready);
    assert_eq!(finish_present(phase), FramePhase::Idle);
}

#[test]
fn capability_negotiation_is_exact() {
    let ok = DeviceCapabilities {
        features: FEATURE_MULTI_DRAW_INDIRECT | FEATURE_INDIRECT_FIRST_INSTANCE,
        shader_model: REQUIRED_SHADER_MODEL,
    };
    assert!(check_device_capabilities(&ok).is_ok());

    let missing = DeviceCapabilities { features: FEATURE_MULTI_DRAW_INDIRECT, shader_model: 5 };
    assert_eq!(
        check_device_capabilities(&missing),
        Err(InitError::MissingFeatures { missing: FEATURE_INDIRECT_FIRST_INSTANCE })
    );

    let low = DeviceCapabilities { features: required_features(), shader_model: 4 };
    assert_eq!(check_device_capabilities(&low), Err(InitError::ShaderModelTooLow { supported: 4 }));
}

#[test]
fn batches_submit_by_priority_stable() {
    // Producer completion order [30, 10, 20]; the device must see
    // [10, 20, 30].
    let batches = vec![
        Commands { priority: 30, inner: 0 },
        Commands { priority: 10, inner: 1 },
        Commands { priority: 20, inner: 2 },
    ];
    let sorted = sort_by_priority(batches);
    let priorities: Vec<u32> = sorted.iter().map(|c| c.priority).collect();
    assert_eq!(priorities, vec![10, 20, 30]);

    // Ties keep producer order.
    let batches = vec![
        Commands { priority: 10, inner: 0 },
        Commands { priority: 5, inner: 1 },
        Commands { priority: 10, inner: 2 },
        Commands { priority: 5, inner: 3 },
    ];
    let sorted = SubmitCommands::default().run(batches);
    let order: Vec<(u32, u64)> = sorted.iter().map(|c| (c.priority, c.inner)).collect();
    assert_eq!(order, vec![(5, 1), (5, 3), (10, 0), (10, 2)]);
}

#[test]
fn present_consumes_frame_after_submission() {
    let frame = Frame { delta: 16_000_000, instant: 123 };
    let token = SubmitCommands::default();
    let report = PresentFrame::default().run(frame, token);
    assert_eq!(report.duration, 16_000_000);
}

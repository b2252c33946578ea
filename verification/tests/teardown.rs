use hello_triangle::adapter::AdapterInfo;
use hello_triangle::adapter::QueueFamilyInfo;
use hello_triangle::ops::BackendOp;
use hello_triangle::ops::ResourceKind;
use hello_triangle::presenter::FrameEvent;
use hello_triangle::presenter::HalState;
use hello_triangle::presenter::init_hal;

fn good_adapter() -> AdapterInfo {
    AdapterInfo {
        queue_families: vec![QueueFamilyInfo {
            max_queues: 1,
            supports_graphics: true,
            supports_surface: true,
        }],
    }
}

fn closed_state(image_count: usize, frames_in_flight: usize, ticks: usize) -> HalState {
    let adapters = vec![good_adapter()];
    let mut st =
        init_hal(&adapters, &None, image_count, frames_in_flight).expect("setup must succeed");
    let mut events: Vec<FrameEvent> =
        (0..ticks).map(|t| FrameEvent::Tick { acquired_image: t % image_count }).collect();
    events.push(FrameEvent::CloseRequested);
    st.main_loop(&events);
    st
}

fn destroyed_kinds(log: &[BackendOp]) -> Vec<ResourceKind> {
    let mut out = Vec::new();
    for op in log {
        if let BackendOp::Destroy { kind } = op {
            out.push(*kind);
        }
    }
    out
}

#[test]
fn teardown_destroys_in_reverse_dependency_order() {
    // Two frame slots and a three-image swapchain.
    let st = closed_state(3, 2, 5);
    let log = st.clean_up();
    let kinds = destroyed_kinds(&log);
    let expected = vec![
        ResourceKind::Fence,
        ResourceKind::Fence,
        ResourceKind::Semaphore,
        ResourceKind::Semaphore,
        ResourceKind::Semaphore,
        ResourceKind::Semaphore,
        ResourceKind::CommandPool,
        ResourceKind::Framebuffer,
        ResourceKind::Framebuffer,
        ResourceKind::Framebuffer,
        ResourceKind::GraphicsPipeline,
        ResourceKind::DescriptorSetLayout,
        ResourceKind::PipelineLayout,
        ResourceKind::RenderPass,
        ResourceKind::ImageView,
        ResourceKind::ImageView,
        ResourceKind::ImageView,
        ResourceKind::Swapchain,
        ResourceKind::Surface,
        ResourceKind::Device,
        ResourceKind::Instance,
    ];
    assert_eq!(kinds, expected);
}

#[test]
fn teardown_counts_scale_with_configuration() {
    // One slot, one image: one fence, two semaphores, one of each other kind.
    let st = closed_state(1, 1, 2);
    let log = st.clean_up();
    let kinds = destroyed_kinds(&log);
    assert_eq!(kinds.len(), 3 * 1 + 2 * 1 + 9);
    assert_eq!(kinds.iter().filter(|k| **k == ResourceKind::Fence).count(), 1);
    assert_eq!(kinds.iter().filter(|k| **k == ResourceKind::Semaphore).count(), 2);
    assert_eq!(kinds.iter().filter(|k| **k == ResourceKind::Framebuffer).count(), 1);
    assert_eq!(kinds.iter().filter(|k| **k == ResourceKind::ImageView).count(), 1);
    assert_eq!(kinds.iter().filter(|k| **k == ResourceKind::Instance).count(), 1);
}

#[test]
fn idle_wait_precedes_every_destroy() {
    let st = closed_state(3, 2, 4);
    let log = st.clean_up();
    let first_destroy = log
        .iter()
        .position(|op| matches!(op, BackendOp::Destroy { .. }))
        .expect("teardown must destroy something");
    let idle_at = log
        .iter()
        .position(|op| matches!(op, BackendOp::WaitIdle))
        .expect("a device-idle wait must have been issued");
    assert!(idle_at < first_destroy);
    // No submission comes after the idle wait.
    assert!(log[idle_at..].iter().all(|op| !matches!(op, BackendOp::Submit { .. })));
}

#[test]
fn teardown_follows_the_full_recorded_run() {
    // The record of a whole run ends with the teardown and holds no
    // destroy call of an owned resource before it.
    let st = closed_state(2, 2, 3);
    let setup_and_run_len = st.backend.log.len();
    let log = st.clean_up();
    assert_eq!(log.len(), setup_and_run_len + 3 * 2 + 2 * 2 + 9);
    assert!(log[..setup_and_run_len]
        .iter()
        .all(|op| !matches!(op, BackendOp::Destroy { .. })));
    assert!(log[setup_and_run_len..]
        .iter()
        .all(|op| matches!(op, BackendOp::Destroy { .. })));
    assert_eq!(log.last(), Some(&BackendOp::Destroy { kind: ResourceKind::Instance }));
}

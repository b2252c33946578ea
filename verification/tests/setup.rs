use hello_triangle::adapter::AdapterInfo;
use hello_triangle::adapter::QueueFamilyInfo;
use hello_triangle::adapter::find_device_family;
use hello_triangle::adapter::find_queue_families;
use hello_triangle::adapter::is_adapter_suitable;
use hello_triangle::adapter::pick_adapter;
use hello_triangle::ops::BackendOp;
use hello_triangle::ops::SemaphoreRole;
use hello_triangle::ops::ShaderStage;
use hello_triangle::presenter::init_hal;
use hello_triangle::swapchain::SurfaceFormat;
use hello_triangle::swapchain::select_swapchain_format;
use hello_triangle::take;

fn family(max_queues: usize, graphics: bool, surface: bool) -> QueueFamilyInfo {
    QueueFamilyInfo { max_queues, supports_graphics: graphics, supports_surface: surface }
}

#[test]
fn queue_family_scan_takes_first_graphics_family() {
    let adapter = AdapterInfo {
        queue_families: vec![
            family(1, false, true),
            family(0, true, true),
            family(2, true, false),
            family(1, true, true),
        ],
    };
    let ids = find_queue_families(&adapter);
    assert_eq!(ids.graphics_family, Some(2));
    assert!(ids.is_complete());
    assert!(is_adapter_suitable(&adapter));
}

#[test]
fn adapter_without_graphics_family_is_unsuitable() {
    let adapter = AdapterInfo {
        queue_families: vec![family(1, false, true), family(0, true, true)],
    };
    let ids = find_queue_families(&adapter);
    assert_eq!(ids.graphics_family, None);
    assert!(!ids.is_complete());
    assert!(!is_adapter_suitable(&adapter));
}

#[test]
fn adapter_pick_skips_unsuitable_adapters() {
    let adapters = vec![
        AdapterInfo { queue_families: vec![family(1, false, false)] },
        AdapterInfo { queue_families: vec![family(1, true, true)] },
    ];
    assert_eq!(pick_adapter(&adapters), Some(1));
    assert_eq!(pick_adapter(&Vec::new()), None);
}

#[test]
fn device_family_needs_surface_support_too() {
    let adapter = AdapterInfo {
        queue_families: vec![family(1, true, false), family(1, true, true)],
    };
    assert_eq!(find_device_family(&adapter), Some(1));
    let graphics_only = AdapterInfo { queue_families: vec![family(1, true, false)] };
    assert_eq!(find_device_family(&graphics_only), None);
}

#[test]
fn format_selection_prefers_srgb() {
    let formats = Some(vec![
        SurfaceFormat { code: 7, srgb: false },
        SurfaceFormat { code: 8, srgb: true },
        SurfaceFormat { code: 9, srgb: true },
    ]);
    assert_eq!(select_swapchain_format(&formats), SurfaceFormat { code: 8, srgb: true });
}

#[test]
fn format_selection_falls_back_to_first_reported() {
    let formats = Some(vec![
        SurfaceFormat { code: 4, srgb: false },
        SurfaceFormat { code: 5, srgb: false },
    ]);
    assert_eq!(select_swapchain_format(&formats), SurfaceFormat { code: 4, srgb: false });
}

#[test]
fn format_selection_defaults_when_surface_has_no_preference() {
    assert_eq!(select_swapchain_format(&None), SurfaceFormat { code: 0, srgb: true });
}

#[test]
fn setup_records_the_creation_order() {
    let adapters = vec![AdapterInfo {
        queue_families: vec![family(1, false, true), family(1, true, true)],
    }];
    let st = init_hal(&adapters, &None, 2, 2).expect("setup must succeed");
    let expected = vec![
        BackendOp::CreateInstance,
        BackendOp::CreateSurface,
        BackendOp::CreateDevice { queue_family: 1 },
        BackendOp::CreateSwapchain { image_count: 2 },
        BackendOp::CreateImageView { image: 0 },
        BackendOp::CreateImageView { image: 1 },
        BackendOp::CreateRenderPass,
        BackendOp::CreateShaderModule { stage: ShaderStage::Vertex },
        BackendOp::CreateShaderModule { stage: ShaderStage::Fragment },
        BackendOp::CreateDescriptorSetLayout,
        BackendOp::CreatePipelineLayout,
        BackendOp::CreateGraphicsPipeline,
        BackendOp::DestroyShaderModule { stage: ShaderStage::Vertex },
        BackendOp::DestroyShaderModule { stage: ShaderStage::Fragment },
        BackendOp::CreateFramebuffer { image: 0 },
        BackendOp::CreateFramebuffer { image: 1 },
        BackendOp::CreateCommandPool,
        BackendOp::RecordCommandBuffer { image: 0 },
        BackendOp::RecordCommandBuffer { image: 1 },
        BackendOp::CreateSemaphore { role: SemaphoreRole::ImageAvailable, slot: 0 },
        BackendOp::CreateSemaphore { role: SemaphoreRole::RenderFinished, slot: 0 },
        BackendOp::CreateFence { slot: 0, signaled: true },
        BackendOp::CreateSemaphore { role: SemaphoreRole::ImageAvailable, slot: 1 },
        BackendOp::CreateSemaphore { role: SemaphoreRole::RenderFinished, slot: 1 },
        BackendOp::CreateFence { slot: 1, signaled: true },
    ];
    assert_eq!(st.backend.log, expected);
    assert_eq!(st.current_frame, 0);
    assert_eq!(st.frames_in_flight, 2);
    assert_eq!(st.image_count, 2);
    assert!(!st.closed);
}

#[test]
fn every_fence_is_created_signaled() {
    let adapters = vec![AdapterInfo { queue_families: vec![family(1, true, true)] }];
    let st = init_hal(&adapters, &None, 3, 2).expect("setup must succeed");
    let fences: Vec<bool> = st
        .backend
        .log
        .iter()
        .filter_map(|op| match op {
            BackendOp::CreateFence { signaled, .. } => Some(*signaled),
            _ => None,
        })
        .collect();
    assert_eq!(fences.len(), 2);
    assert!(fences.iter().all(|s| *s));
}

#[test]
fn setup_fails_without_a_suitable_adapter() {
    let adapters = vec![AdapterInfo { queue_families: vec![family(1, false, true)] }];
    assert!(init_hal(&adapters, &None, 2, 2).is_none());
    assert!(init_hal(&Vec::new(), &None, 2, 2).is_none());
}

#[test]
fn setup_fails_when_no_family_can_present() {
    // Suitable for graphics, but no family can present to the surface.
    let adapters = vec![AdapterInfo { queue_families: vec![family(1, true, false)] }];
    assert!(init_hal(&adapters, &None, 2, 2).is_none());
}

#[test]
fn setup_uses_the_reported_formats() {
    let adapters = vec![AdapterInfo { queue_families: vec![family(1, true, true)] }];
    let formats = Some(vec![
        SurfaceFormat { code: 3, srgb: false },
        SurfaceFormat { code: 6, srgb: true },
    ]);
    let st = init_hal(&adapters, &formats, 2, 2).expect("setup must succeed");
    assert_eq!(st.format, SurfaceFormat { code: 6, srgb: true });
}

#[test]
fn take_moves_the_value_out() {
    let mut slot = Some(41usize);
    let value = take(&mut slot);
    assert_eq!(value, 41);
    assert_eq!(slot, None);

    let mut text = Some(String::from("swapchain"));
    let owned = take(&mut text);
    assert_eq!(owned, "swapchain");
    assert!(text.is_none());
}

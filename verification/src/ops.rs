//! The vocabulary of backend calls.
//!
//! Every operation the core asks of the graphics backend is one value of
//! [`BackendOp`]. The recorder in [`crate::backend`] keeps these in the
//! order they were issued, so contracts can pin down the exact call
//! sequence.

use vstd::prelude::*;

verus! {

/// The kinds of resources the core owns and must destroy at teardown.
#[derive(Clone, Copy, PartialEq, Eq, Structural, Debug)]
pub enum ResourceKind {
    Fence,
    Semaphore,
    CommandPool,
    Framebuffer,
    GraphicsPipeline,
    DescriptorSetLayout,
    PipelineLayout,
    RenderPass,
    ImageView,
    Swapchain,
    Surface,
    Device,
    Instance,
}

/// Which of the two per-slot semaphores an operation refers to.
#[derive(Clone, Copy, PartialEq, Eq, Structural, Debug)]
pub enum SemaphoreRole {
    /// Signalled by the presentation engine when a swapchain image is free.
    ImageAvailable,
    /// Signalled when the submitted command buffer has completed.
    RenderFinished,
}

/// The programmable stages whose shader modules are built during setup.
#[derive(Clone, Copy, PartialEq, Eq, Structural, Debug)]
pub enum ShaderStage {
    Vertex,
    Fragment,
}

/// One call into the graphics backend.
///
/// Creation calls carry the index of the resource within its own index
/// space: synchronization primitives are indexed by frame slot, while
/// image views, framebuffers and command buffers are indexed by swapchain
/// image. Keeping those two index spaces apart is the point of the
/// presenter's contracts.
#[derive(Clone, Copy, PartialEq, Eq, Structural, Debug)]
pub enum BackendOp {
    CreateInstance,
    CreateSurface,
    CreateDevice { queue_family: usize },
    CreateSwapchain { image_count: usize },
    CreateImageView { image: usize },
    CreateRenderPass,
    CreateShaderModule { stage: ShaderStage },
    /// Shader modules are transient setup objects, released as soon as
    /// the pipeline has been built.
    DestroyShaderModule { stage: ShaderStage },
    CreateDescriptorSetLayout,
    CreatePipelineLayout,
    CreateGraphicsPipeline,
    CreateFramebuffer { image: usize },
    CreateCommandPool,
    RecordCommandBuffer { image: usize },
    CreateSemaphore { role: SemaphoreRole, slot: usize },
    CreateFence { slot: usize, signaled: bool },
    WaitForFence { slot: usize },
    ResetFence { slot: usize },
    AcquireImage { image_available_slot: usize, image: usize },
    Submit {
        command_buffer: usize,
        wait_image_available_slot: usize,
        signal_render_finished_slot: usize,
        fence_slot: usize,
    },
    Present { image: usize, wait_render_finished_slot: usize },
    WaitIdle,
    /// Destruction of one of the thirteen owned resources.
    Destroy { kind: ResourceKind },
}

} // verus!

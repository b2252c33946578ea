//! The recording backend.
//!
//! The graphics backend is a collaborator: it supplies opaque handles and
//! performs the calls the core decides on. What the core is responsible
//! for — and what is verified here — is *which* calls are made, *in which
//! order*, and *with which indices*. [`Backend`] therefore keeps the exact
//! sequence of calls issued so far; every setup stage appends its calls
//! and its contract pins the appended ops down.

use vstd::prelude::*;

use crate::adapter::AdapterInfo;
use crate::adapter::family_device_ok;
use crate::adapter::first_device_family;
use crate::ops::BackendOp;
use crate::ops::SemaphoreRole;
use crate::ops::ShaderStage;
use crate::swapchain::SurfaceFormat;
use crate::swapchain::default_format;
use crate::swapchain::first_srgb_format;
use crate::swapchain::select_swapchain_format;
use crate::sync::all_inert;
use crate::sync::inert_op;

verus! {

/// The backend as the core sees it: the ordered record of every call
/// issued to it.
pub struct Backend {
    pub log: Vec<BackendOp>,
}

/// The calls that build one image view per swapchain image, in image order.
pub open spec fn image_view_ops(m: int) -> Seq<BackendOp> {
    Seq::new(m as nat, |i: int| (BackendOp::CreateImageView { image: i as usize }))
}

/// The calls that build one framebuffer per swapchain image, in image order.
pub open spec fn framebuffer_ops(m: int) -> Seq<BackendOp> {
    Seq::new(m as nat, |i: int| (BackendOp::CreateFramebuffer { image: i as usize }))
}

/// The calls that record one command buffer per swapchain image, in image
/// order.
pub open spec fn command_buffer_ops(m: int) -> Seq<BackendOp> {
    Seq::new(m as nat, |i: int| (BackendOp::RecordCommandBuffer { image: i as usize }))
}

/// The calls that build the graphics pipeline: the two shader modules, the
/// descriptor set layout, the pipeline layout, the pipeline itself, and
/// the release of the now-unneeded shader modules.
pub open spec fn pipeline_ops() -> Seq<BackendOp> {
    seq![
        (BackendOp::CreateShaderModule { stage: ShaderStage::Vertex }),
        (BackendOp::CreateShaderModule { stage: ShaderStage::Fragment }),
        BackendOp::CreateDescriptorSetLayout,
        BackendOp::CreatePipelineLayout,
        BackendOp::CreateGraphicsPipeline,
        (BackendOp::DestroyShaderModule { stage: ShaderStage::Vertex }),
        (BackendOp::DestroyShaderModule { stage: ShaderStage::Fragment }),
    ]
}

/// The call at position `i` of the synchronization-object factory: each
/// frame slot gets an image-available semaphore, a render-finished
/// semaphore, and a fence created in the signaled state.
pub open spec fn sync_object_op_at(i: int) -> BackendOp {
    if i % 3 == 0 {
        BackendOp::CreateSemaphore { role: SemaphoreRole::ImageAvailable, slot: (i / 3) as usize }
    } else if i % 3 == 1 {
        BackendOp::CreateSemaphore { role: SemaphoreRole::RenderFinished, slot: (i / 3) as usize }
    } else {
        BackendOp::CreateFence { slot: (i / 3) as usize, signaled: true }
    }
}

/// The calls of the synchronization-object factory for `n` frame slots.
pub open spec fn sync_objects_ops(n: int) -> Seq<BackendOp> {
    Seq::new((3 * n) as nat, |i: int| sync_object_op_at(i))
}

/// Synchronization-object factory contract: every fence it creates is
/// created signaled, so the presenter's first wait on a fresh slot cannot
/// deadlock, and each slot's triple is index-aligned.
pub proof fn lemma_sync_objects_shape(n: int)
    requires
        0 <= n,
    ensures
        forall|i: int|
            0 <= i < 3 * n ==> ((#[trigger] sync_objects_ops(n)[i])
                matches BackendOp::CreateFence { signaled, .. } ==> signaled),
        forall|s: int|
            0 <= s < n ==> #[trigger] sync_objects_ops(n)[3 * s] == (BackendOp::CreateSemaphore {
                role: SemaphoreRole::ImageAvailable,
                slot: s as usize,
            }),
        forall|s: int|
            0 <= s < n ==> #[trigger] sync_objects_ops(n)[3 * s + 1]
                == (BackendOp::CreateSemaphore {
                role: SemaphoreRole::RenderFinished,
                slot: s as usize,
            }),
        forall|s: int|
            0 <= s < n ==> #[trigger] sync_objects_ops(n)[3 * s + 2] == (BackendOp::CreateFence {
                slot: s as usize,
                signaled: true,
            }),
{
    assert forall|s: int| 0 <= s < n implies #[trigger] sync_objects_ops(n)[3 * s]
        == (BackendOp::CreateSemaphore {
        role: SemaphoreRole::ImageAvailable,
        slot: s as usize,
    }) by {
        assert((3 * s) % 3 == 0 && (3 * s) / 3 == s) by (nonlinear_arith);
    }
    assert forall|s: int| 0 <= s < n implies #[trigger] sync_objects_ops(n)[3 * s + 1]
        == (BackendOp::CreateSemaphore {
        role: SemaphoreRole::RenderFinished,
        slot: s as usize,
    }) by {
        assert((3 * s + 1) % 3 == 1 && (3 * s + 1) / 3 == s) by (nonlinear_arith);
    }
    assert forall|s: int| 0 <= s < n implies #[trigger] sync_objects_ops(n)[3 * s + 2]
        == (BackendOp::CreateFence { slot: s as usize, signaled: true }) by {
        assert((3 * s + 2) % 3 == 2 && (3 * s + 2) / 3 == s) by (nonlinear_arith);
    }
}

/// The full setup sequence for a device opened on `queue_family`, a
/// swapchain of `image_count` images, and `frames_in_flight` frame slots:
/// instance, surface, device, swapchain, image views, render pass,
/// graphics pipeline, framebuffers, command pool, command buffers, and
/// the synchronization objects, in that order.
pub open spec fn init_ops(
    queue_family: usize,
    image_count: usize,
    frames_in_flight: usize,
) -> Seq<BackendOp> {
    seq![
        BackendOp::CreateInstance,
        BackendOp::CreateSurface,
        (BackendOp::CreateDevice { queue_family }),
        (BackendOp::CreateSwapchain { image_count }),
    ] + image_view_ops(image_count as int) + seq![BackendOp::CreateRenderPass] + pipeline_ops()
        + framebuffer_ops(image_count as int) + seq![BackendOp::CreateCommandPool]
        + command_buffer_ops(image_count as int) + sync_objects_ops(frames_in_flight as int)
}

/// First setup step: create the backend instance. Every later call is
/// recorded against the returned backend.
pub fn create_instance() -> (b: Backend)
    ensures
        b.log@ == seq![BackendOp::CreateInstance],
        all_inert(b.log@),
{
    let mut log: Vec<BackendOp> = Vec::new();
    log.push(BackendOp::CreateInstance);
    proof {
        assert(log@ =~= seq![BackendOp::CreateInstance]);
    }
    Backend { log }
}

impl Backend {
    /// Appends `ext` inertly: helper fact for the all-setup-calls record.
    proof fn lemma_inert_extension(pre: Seq<BackendOp>, ext: Seq<BackendOp>)
        requires
            forall|j: int| 0 <= j < ext.len() ==> inert_op(#[trigger] ext[j]),
        ensures
            all_inert(pre) ==> all_inert(pre + ext),
    {
        if all_inert(pre) {
            assert forall|k: int| 0 <= k < (pre + ext).len() implies inert_op(
                #[trigger] (pre + ext)[k],
            ) by {
                if k < pre.len() {
                    assert((pre + ext)[k] == pre[k]);
                    assert(inert_op(pre[k]));
                } else {
                    assert((pre + ext)[k] == ext[k - pre.len()]);
                }
            }
        }
    }

    /// Creates the window surface on the instance.
    pub fn create_surface(&mut self)
        ensures
            final(self).log@ == old(self).log@ + seq![BackendOp::CreateSurface],
            all_inert(old(self).log@) ==> all_inert(final(self).log@),
    {
        let ghost pre = self.log@;
        self.log.push(BackendOp::CreateSurface);
        proof {
            assert(self.log@ =~= pre + seq![BackendOp::CreateSurface]);
            Backend::lemma_inert_extension(pre, seq![BackendOp::CreateSurface]);
        }
    }

    /// Opens the device on the first queue family of the adapter that is
    /// graphics-capable and can present to the surface, returning that
    /// family's index; makes no call when no family qualifies.
    pub fn create_device_with_graphics_queues(&mut self, adapter: &AdapterInfo) -> (r: Option<
        usize,
    >)
        ensures
            r matches Some(j) ==> {
                &&& first_device_family(adapter.queue_families@, j as int)
                &&& final(self).log@ == old(self).log@
                    + seq![(BackendOp::CreateDevice { queue_family: j })]
            },
            r is None ==> {
                &&& forall|k: int|
                    0 <= k < adapter.queue_families@.len() ==> !family_device_ok(
                        adapter.queue_families@[k],
                    )
                &&& final(self).log@ == old(self).log@
            },
            all_inert(old(self).log@) ==> all_inert(final(self).log@),
    {
        let ghost pre = self.log@;
        let family = crate::adapter::find_device_family(adapter);
        match family {
            Option::Some(j) => {
                self.log.push(BackendOp::CreateDevice { queue_family: j });
                proof {
                    assert(self.log@ =~= pre + seq![(BackendOp::CreateDevice {
                        queue_family: j,
                    })]);
                    Backend::lemma_inert_extension(
                        pre,
                        seq![(BackendOp::CreateDevice { queue_family: j })],
                    );
                }
                Some(j)
            },
            Option::None => None,
        }
    }

    /// Picks the surface format and creates the swapchain with the given
    /// number of presentable images.
    pub fn create_swap_chain(
        &mut self,
        formats: &Option<Vec<SurfaceFormat>>,
        image_count: usize,
    ) -> (f: SurfaceFormat)
        requires
            (*formats) matches Some(fs) ==> fs@.len() > 0,
        ensures
            final(self).log@ == old(self).log@ + seq![(BackendOp::CreateSwapchain { image_count })],
            all_inert(old(self).log@) ==> all_inert(final(self).log@),
            (*formats) matches Some(fs) ==> {
                &&& (exists|j: int| 0 <= j < fs@.len() && fs@[j].srgb) ==> (exists|j: int|
                    first_srgb_format(fs@, j) && f == fs@[j])
                &&& !(exists|j: int| 0 <= j < fs@.len() && fs@[j].srgb) ==> f == fs@[0]
            },
            (*formats) is None ==> f == default_format(),
    {
        let ghost pre = self.log@;
        let format = select_swapchain_format(formats);
        self.log.push(BackendOp::CreateSwapchain { image_count });
        proof {
            assert(self.log@ =~= pre + seq![(BackendOp::CreateSwapchain { image_count })]);
            Backend::lemma_inert_extension(
                pre,
                seq![(BackendOp::CreateSwapchain { image_count })],
            );
        }
        format
    }

    /// Creates one image view per swapchain image, in image order.
    pub fn create_image_views(&mut self, image_count: usize)
        ensures
            final(self).log@ == old(self).log@ + image_view_ops(image_count as int),
            all_inert(old(self).log@) ==> all_inert(final(self).log@),
    {
        let ghost pre = self.log@;
        let mut i: usize = 0;
        while i < image_count
            invariant
                i <= image_count,
                self.log@ == pre + image_view_ops(i as int),
            decreases image_count - i,
        {
            self.log.push(BackendOp::CreateImageView { image: i });
            proof {
                assert(image_view_ops(i as int).push(BackendOp::CreateImageView { image: i })
                    =~= image_view_ops(i as int + 1));
                assert(self.log@ =~= pre + image_view_ops(i as int + 1));
            }
            i = i + 1;
        }
        proof {
            assert forall|j: int| 0 <= j < image_view_ops(image_count as int).len() implies
                inert_op(#[trigger] image_view_ops(image_count as int)[j]) by {}
            Backend::lemma_inert_extension(pre, image_view_ops(image_count as int));
        }
    }

    /// Creates the render pass with its single color attachment.
    pub fn create_render_pass(&mut self)
        ensures
            final(self).log@ == old(self).log@ + seq![BackendOp::CreateRenderPass],
            all_inert(old(self).log@) ==> all_inert(final(self).log@),
    {
        let ghost pre = self.log@;
        self.log.push(BackendOp::CreateRenderPass);
        proof {
            assert(self.log@ =~= pre + seq![BackendOp::CreateRenderPass]);
            Backend::lemma_inert_extension(pre, seq![BackendOp::CreateRenderPass]);
        }
    }

    /// Builds the graphics pipeline: shader modules first, then the
    /// descriptor set layout, pipeline layout and pipeline, and finally
    /// the release of the transient shader modules.
    pub fn create_graphics_pipeline(&mut self)
        ensures
            final(self).log@ == old(self).log@ + pipeline_ops(),
            all_inert(old(self).log@) ==> all_inert(final(self).log@),
    {
        let ghost pre = self.log@;
        self.log.push(BackendOp::CreateShaderModule { stage: ShaderStage::Vertex });
        self.log.push(BackendOp::CreateShaderModule { stage: ShaderStage::Fragment });
        self.log.push(BackendOp::CreateDescriptorSetLayout);
        self.log.push(BackendOp::CreatePipelineLayout);
        self.log.push(BackendOp::CreateGraphicsPipeline);
        self.log.push(BackendOp::DestroyShaderModule { stage: ShaderStage::Vertex });
        self.log.push(BackendOp::DestroyShaderModule { stage: ShaderStage::Fragment });
        proof {
            assert(self.log@ =~= pre + pipeline_ops());
            assert forall|j: int| 0 <= j < pipeline_ops().len() implies inert_op(
                #[trigger] pipeline_ops()[j],
            ) by {}
            Backend::lemma_inert_extension(pre, pipeline_ops());
        }
    }

    /// Creates one framebuffer per swapchain image, in image order.
    pub fn create_framebuffers(&mut self, image_count: usize)
        ensures
            final(self).log@ == old(self).log@ + framebuffer_ops(image_count as int),
            all_inert(old(self).log@) ==> all_inert(final(self).log@),
    {
        let ghost pre = self.log@;
        let mut i: usize = 0;
        while i < image_count
            invariant
                i <= image_count,
                self.log@ == pre + framebuffer_ops(i as int),
            decreases image_count - i,
        {
            self.log.push(BackendOp::CreateFramebuffer { image: i });
            proof {
                assert(framebuffer_ops(i as int).push(BackendOp::CreateFramebuffer { image: i })
                    =~= framebuffer_ops(i as int + 1));
                assert(self.log@ =~= pre + framebuffer_ops(i as int + 1));
            }
            i = i + 1;
        }
        proof {
            assert forall|j: int| 0 <= j < framebuffer_ops(image_count as int).len() implies
                inert_op(#[trigger] framebuffer_ops(image_count as int)[j]) by {}
            Backend::lemma_inert_extension(pre, framebuffer_ops(image_count as int));
        }
    }

    /// Creates the command pool on the chosen queue family.
    pub fn create_command_pool(&mut self)
        ensures
            final(self).log@ == old(self).log@ + seq![BackendOp::CreateCommandPool],
            all_inert(old(self).log@) ==> all_inert(final(self).log@),
    {
        let ghost pre = self.log@;
        self.log.push(BackendOp::CreateCommandPool);
        proof {
            assert(self.log@ =~= pre + seq![BackendOp::CreateCommandPool]);
            Backend::lemma_inert_extension(pre, seq![BackendOp::CreateCommandPool]);
        }
    }

    /// Records one command buffer per swapchain image, in image order; the
    /// buffers are immutable afterwards.
    pub fn create_command_buffers(&mut self, image_count: usize)
        ensures
            final(self).log@ == old(self).log@ + command_buffer_ops(image_count as int),
            all_inert(old(self).log@) ==> all_inert(final(self).log@),
    {
        let ghost pre = self.log@;
        let mut i: usize = 0;
        while i < image_count
            invariant
                i <= image_count,
                self.log@ == pre + command_buffer_ops(i as int),
            decreases image_count - i,
        {
            self.log.push(BackendOp::RecordCommandBuffer { image: i });
            proof {
                assert(command_buffer_ops(i as int).push(
                    BackendOp::RecordCommandBuffer { image: i },
                ) =~= command_buffer_ops(i as int + 1));
                assert(self.log@ =~= pre + command_buffer_ops(i as int + 1));
            }
            i = i + 1;
        }
        proof {
            assert forall|j: int| 0 <= j < command_buffer_ops(image_count as int).len() implies
                inert_op(#[trigger] command_buffer_ops(image_count as int)[j]) by {}
            Backend::lemma_inert_extension(pre, command_buffer_ops(image_count as int));
        }
    }

    /// Synchronization-object factory: for each of the `frames_in_flight`
    /// slots, an image-available semaphore, a render-finished semaphore,
    /// and a fence created signaled — so the first wait on the slot does
    /// not deadlock before any work was submitted.
    pub fn create_sync_objects(&mut self, frames_in_flight: usize)
        ensures
            final(self).log@ == old(self).log@ + sync_objects_ops(frames_in_flight as int),
            all_inert(old(self).log@) ==> all_inert(final(self).log@),
    {
        let ghost pre = self.log@;
        let mut i: usize = 0;
        while i < frames_in_flight
            invariant
                i <= frames_in_flight,
                self.log@ == pre + sync_objects_ops(i as int),
            decreases frames_in_flight - i,
        {
            self.log.push(
                BackendOp::CreateSemaphore { role: SemaphoreRole::ImageAvailable, slot: i },
            );
            self.log.push(
                BackendOp::CreateSemaphore { role: SemaphoreRole::RenderFinished, slot: i },
            );
            self.log.push(BackendOp::CreateFence { slot: i, signaled: true });
            proof {
                let k: int = i as int;
                assert((3 * k) % 3 == 0 && (3 * k) / 3 == k) by (nonlinear_arith);
                assert((3 * k + 1) % 3 == 1 && (3 * k + 1) / 3 == k) by (nonlinear_arith);
                assert((3 * k + 2) % 3 == 2 && (3 * k + 2) / 3 == k) by (nonlinear_arith);
                assert(sync_objects_ops(k).push(
                    BackendOp::CreateSemaphore {
                        role: SemaphoreRole::ImageAvailable,
                        slot: i,
                    },
                ).push(
                    BackendOp::CreateSemaphore {
                        role: SemaphoreRole::RenderFinished,
                        slot: i,
                    },
                ).push(BackendOp::CreateFence { slot: i, signaled: true }) =~= sync_objects_ops(
                    k + 1,
                ));
                assert(self.log@ =~= pre + sync_objects_ops(k + 1));
            }
            i = i + 1;
        }
        proof {
            assert forall|j: int| 0 <= j < sync_objects_ops(frames_in_flight as int).len() implies
                inert_op(#[trigger] sync_objects_ops(frames_in_flight as int)[j]) by {}
            Backend::lemma_inert_extension(pre, sync_objects_ops(frames_in_flight as int));
        }
    }
}

} // verus!

//! The teardown sequencer.
//!
//! After the device has gone idle, the thirteen owned resource kinds are
//! destroyed in strict reverse-dependency order: fences, semaphores,
//! command pool, framebuffers, graphics pipeline, descriptor set layouts,
//! pipeline layout, render pass, image views, swapchain, surface, device,
//! instance. Destroying a resource before one that depends on it would be
//! undefined behaviour at the native level, so the order is pinned down
//! here as an exact sequence of destroy calls.

use vstd::prelude::*;

use crate::ops::BackendOp;
use crate::ops::ResourceKind;

verus! {

/// Position of a resource kind in the reverse-dependency teardown order.
pub open spec fn teardown_rank(k: ResourceKind) -> int {
    match k {
        ResourceKind::Fence => 0,
        ResourceKind::Semaphore => 1,
        ResourceKind::CommandPool => 2,
        ResourceKind::Framebuffer => 3,
        ResourceKind::GraphicsPipeline => 4,
        ResourceKind::DescriptorSetLayout => 5,
        ResourceKind::PipelineLayout => 6,
        ResourceKind::RenderPass => 7,
        ResourceKind::ImageView => 8,
        ResourceKind::Swapchain => 9,
        ResourceKind::Surface => 10,
        ResourceKind::Device => 11,
        ResourceKind::Instance => 12,
    }
}

/// Number of destroy calls for `n` frame slots and `m` swapchain images:
/// `n` fences, `2n` semaphores, `m` framebuffers, `m` image views, and one
/// each of the nine remaining kinds.
pub open spec fn teardown_len(n: int, m: int) -> int {
    3 * n + 2 * m + 9
}

/// The resource kind destroyed at position `i` of the teardown sequence.
pub open spec fn teardown_kind_at(i: int, n: int, m: int) -> ResourceKind {
    if i < n {
        ResourceKind::Fence
    } else if i < 3 * n {
        ResourceKind::Semaphore
    } else if i == 3 * n {
        ResourceKind::CommandPool
    } else if i < 3 * n + 1 + m {
        ResourceKind::Framebuffer
    } else if i == 3 * n + 1 + m {
        ResourceKind::GraphicsPipeline
    } else if i == 3 * n + 2 + m {
        ResourceKind::DescriptorSetLayout
    } else if i == 3 * n + 3 + m {
        ResourceKind::PipelineLayout
    } else if i == 3 * n + 4 + m {
        ResourceKind::RenderPass
    } else if i < 3 * n + 5 + 2 * m {
        ResourceKind::ImageView
    } else if i == 3 * n + 5 + 2 * m {
        ResourceKind::Swapchain
    } else if i == 3 * n + 6 + 2 * m {
        ResourceKind::Surface
    } else if i == 3 * n + 7 + 2 * m {
        ResourceKind::Device
    } else {
        ResourceKind::Instance
    }
}

/// The full teardown sequence for `n` frame slots and `m` swapchain images.
pub open spec fn teardown_ops(n: int, m: int) -> Seq<BackendOp> {
    Seq::new(
        teardown_len(n, m) as nat,
        |i: int| BackendOp::Destroy { kind: teardown_kind_at(i, n, m) },
    )
}

/// One homogeneous run of destroy calls for a single resource kind.
pub open spec fn repeat_destroy(kind: ResourceKind, count: int) -> Seq<BackendOp> {
    Seq::new(count as nat, |i: int| (BackendOp::Destroy { kind }))
}

/// Appends `count` destroy calls for one resource kind to the call record.
pub fn push_destroys(log: &mut Vec<BackendOp>, kind: ResourceKind, count: usize)
    ensures
        final(log)@ == old(log)@ + repeat_destroy(kind, count as int),
{
    let ghost pre = log@;
    let mut i: usize = 0;
    while i < count
        invariant
            i <= count,
            log@ == pre + repeat_destroy(kind, i as int),
        decreases count - i,
    {
        log.push(BackendOp::Destroy { kind });
        proof {
            assert(repeat_destroy(kind, i as int).push(BackendOp::Destroy { kind })
                =~= repeat_destroy(kind, i as int + 1));
            assert(log@ =~= pre + repeat_destroy(kind, i as int + 1));
        }
        i = i + 1;
    }
}

/// Teardown order: within the teardown sequence, destroy calls come in
/// reverse-dependency order of their resource kinds — a kind is never
/// destroyed after a kind that depends on it.
pub proof fn lemma_teardown_order(n: int, m: int)
    requires
        1 <= n,
        1 <= m,
    ensures
        forall|i: int, j: int|
            0 <= i <= j < teardown_len(n, m) ==> teardown_rank(
                #[trigger] teardown_kind_at(i, n, m),
            ) <= teardown_rank(#[trigger] teardown_kind_at(j, n, m)),
{
}

/// Resource kind `k` is destroyed somewhere in the teardown sequence.
pub open spec fn kind_destroyed(k: ResourceKind, n: int, m: int) -> bool {
    exists|i: int| 0 <= i < teardown_len(n, m) && #[trigger] teardown_kind_at(i, n, m) == k
}

/// Teardown completeness: the teardown sequence is made of destroy calls
/// alone, and each of the thirteen owned resource kinds appears in it.
pub proof fn lemma_teardown_complete(n: int, m: int)
    requires
        1 <= n,
        1 <= m,
    ensures
        forall|i: int|
            0 <= i < teardown_len(n, m) ==> (#[trigger] teardown_ops(n, m)[i]) is Destroy,
        forall|k: ResourceKind| #[trigger] kind_destroyed(k, n, m),
{
    assert forall|k: ResourceKind| #[trigger] kind_destroyed(k, n, m) by {
        assert(teardown_kind_at(0, n, m) == ResourceKind::Fence);
        assert(teardown_kind_at(n, n, m) == ResourceKind::Semaphore);
        assert(teardown_kind_at(3 * n, n, m) == ResourceKind::CommandPool);
        assert(teardown_kind_at(3 * n + 1, n, m) == ResourceKind::Framebuffer);
        assert(teardown_kind_at(3 * n + 1 + m, n, m) == ResourceKind::GraphicsPipeline);
        assert(teardown_kind_at(3 * n + 2 + m, n, m) == ResourceKind::DescriptorSetLayout);
        assert(teardown_kind_at(3 * n + 3 + m, n, m) == ResourceKind::PipelineLayout);
        assert(teardown_kind_at(3 * n + 4 + m, n, m) == ResourceKind::RenderPass);
        assert(teardown_kind_at(3 * n + 5 + m, n, m) == ResourceKind::ImageView);
        assert(teardown_kind_at(3 * n + 5 + 2 * m, n, m) == ResourceKind::Swapchain);
        assert(teardown_kind_at(3 * n + 6 + 2 * m, n, m) == ResourceKind::Surface);
        assert(teardown_kind_at(3 * n + 7 + 2 * m, n, m) == ResourceKind::Device);
        assert(teardown_kind_at(3 * n + 8 + 2 * m, n, m) == ResourceKind::Instance);
    }
}

} // verus!

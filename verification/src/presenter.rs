//! The frame presenter.
//!
//! [`HalState`] holds everything the presentation loop owns: the recording
//! backend, the number of frame slots and swapchain images, the current
//! frame slot, the phase of every slot's fence, and whether a close
//! request has been honoured with a device-idle wait.
//!
//! One tick ([`HalState::draw_frame`]) performs, in order: wait on the
//! slot's fence, reset it, acquire an image (signalling the slot's
//! image-available semaphore), submit the command buffer *of the acquired
//! image* (waiting on the slot's image-available semaphore, signalling the
//! slot's render-finished semaphore, fenced by the slot's fence), and
//! present the acquired image (waiting on the slot's render-finished
//! semaphore); the frame slot then advances round-robin.

use vstd::prelude::*;

use crate::adapter::AdapterInfo;
use crate::adapter::adapter_suitable;
use crate::adapter::family_device_ok;
use crate::adapter::first_device_family;
use crate::adapter::first_suitable_adapter;
use crate::adapter::pick_adapter;
use crate::adapter::viable_setup;
use crate::backend::init_ops;
use crate::ops::BackendOp;
use crate::ops::ResourceKind;
use crate::swapchain::SurfaceFormat;
use crate::swapchain::default_format;
use crate::swapchain::first_srgb_format;
use crate::sync::SlotPhase;
use crate::sync::all_inert;
use crate::sync::fence_discipline;
use crate::sync::lemma_all_inert;
use crate::sync::lemma_bounded_in_flight;
use crate::sync::lemma_log_push;
use crate::sync::no_destroys;
use crate::sync::outstanding;
use crate::sync::slot_phase;
use crate::sync::step_phase;
use crate::teardown::push_destroys;
use crate::teardown::teardown_ops;

verus! {

/// The calls of one presenter tick on frame slot `slot` that acquired
/// swapchain image `image`.
pub open spec fn tick_ops(slot: usize, image: usize) -> Seq<BackendOp> {
    seq![
        (BackendOp::WaitForFence { slot }),
        (BackendOp::ResetFence { slot }),
        (BackendOp::AcquireImage { image_available_slot: slot, image }),
        (BackendOp::Submit {
            command_buffer: image,
            wait_image_available_slot: slot,
            signal_render_finished_slot: slot,
            fence_slot: slot,
        }),
        (BackendOp::Present { image, wait_render_finished_slot: slot }),
    ]
}

/// One happening of the event loop: a close request, or a tick for which
/// the presentation engine handed back `acquired_image` from the acquire
/// call.
#[derive(Clone, Copy, PartialEq, Eq, Structural, Debug)]
pub enum FrameEvent {
    CloseRequested,
    Tick { acquired_image: usize },
}

/// The frame slot after `frame`, round-robin over `n` slots.
pub open spec fn next_frame(frame: int, n: int) -> int {
    (frame + 1) % n
}

/// The calls the presentation loop makes for the given events, starting
/// at frame slot `frame` with `n` slots: one tick per event until the
/// first close request, which is honoured with a device-idle wait and
/// stops the loop; later events are not processed.
pub open spec fn loop_ops(events: Seq<FrameEvent>, frame: int, n: int) -> Seq<BackendOp>
    decreases events.len(),
{
    if events.len() == 0 {
        Seq::empty()
    } else {
        match events[0] {
            FrameEvent::CloseRequested => seq![BackendOp::WaitIdle],
            FrameEvent::Tick { acquired_image } => tick_ops(frame as usize, acquired_image)
                + loop_ops(events.skip(1), next_frame(frame, n), n),
        }
    }
}

/// How many ticks the loop runs: the number of events before the first
/// close request.
pub open spec fn ticks_run(events: Seq<FrameEvent>) -> int
    decreases events.len(),
{
    if events.len() == 0 {
        0
    } else if events[0] is CloseRequested {
        0
    } else {
        1 + ticks_run(events.skip(1))
    }
}

/// Whether the events hold a close request.
pub open spec fn contains_close(events: Seq<FrameEvent>) -> bool {
    exists|k: int| 0 <= k < events.len() && (#[trigger] events[k]) is CloseRequested
}

/// Stepping a round-robin counter commutes with the modulus.
proof fn lemma_mod_succ(a: int, n: int)
    requires
        0 <= a,
        1 <= n,
    ensures
        (a % n + 1) % n == (a + 1) % n,
{
    vstd::arithmetic::div_mod::lemma_add_mod_noop(a, 1, n);
    if n > 1 {
        vstd::arithmetic::div_mod::lemma_small_mod(1nat, n as nat);
    }
}

/// The five calls of a tick, appended one at a time, make `tick_ops`.
proof fn lemma_tick_ops_assembled(log: Seq<BackendOp>, slot: usize, image: usize)
    ensures
        log + seq![(BackendOp::WaitForFence { slot })] + seq![(BackendOp::ResetFence { slot })]
            + seq![(BackendOp::AcquireImage { image_available_slot: slot, image })]
            + seq![(BackendOp::Submit {
            command_buffer: image,
            wait_image_available_slot: slot,
            signal_render_finished_slot: slot,
            fence_slot: slot,
        })] + seq![(BackendOp::Present { image, wait_render_finished_slot: slot })] == log
            + tick_ops(slot, image),
{
    assert(log + seq![(BackendOp::WaitForFence { slot })] + seq![(BackendOp::ResetFence { slot })]
        + seq![(BackendOp::AcquireImage { image_available_slot: slot, image })]
        + seq![(BackendOp::Submit {
        command_buffer: image,
        wait_image_available_slot: slot,
        signal_render_finished_slot: slot,
        fence_slot: slot,
    })] + seq![(BackendOp::Present { image, wait_render_finished_slot: slot })] =~= log + tick_ops(
        slot,
        image,
    ));
}

/// The setup calls, appended stage by stage, make `init_ops`.
proof fn lemma_init_ops_assembled(queue_family: usize, image_count: usize, frames_in_flight: usize)
    ensures
        seq![BackendOp::CreateInstance] + seq![BackendOp::CreateSurface]
            + seq![(BackendOp::CreateDevice { queue_family })]
            + seq![(BackendOp::CreateSwapchain { image_count })] + crate::backend::image_view_ops(
            image_count as int,
        ) + seq![BackendOp::CreateRenderPass] + crate::backend::pipeline_ops()
            + crate::backend::framebuffer_ops(image_count as int)
            + seq![BackendOp::CreateCommandPool] + crate::backend::command_buffer_ops(
            image_count as int,
        ) + crate::backend::sync_objects_ops(frames_in_flight as int) == init_ops(
            queue_family,
            image_count,
            frames_in_flight,
        ),
{
    assert(seq![BackendOp::CreateInstance] + seq![BackendOp::CreateSurface]
        + seq![(BackendOp::CreateDevice { queue_family })]
        + seq![(BackendOp::CreateSwapchain { image_count })] + crate::backend::image_view_ops(
        image_count as int,
    ) + seq![BackendOp::CreateRenderPass] + crate::backend::pipeline_ops()
        + crate::backend::framebuffer_ops(image_count as int) + seq![BackendOp::CreateCommandPool]
        + crate::backend::command_buffer_ops(image_count as int)
        + crate::backend::sync_objects_ops(frames_in_flight as int) =~= init_ops(
        queue_family,
        image_count,
        frames_in_flight,
    ));
}

/// The state of the presentation loop.
pub struct HalState {
    /// The recording backend: every call issued so far, in order.
    pub backend: crate::backend::Backend,
    /// Number of frame slots (frames allowed in flight at once).
    pub frames_in_flight: usize,
    /// Number of presentable swapchain images.
    pub image_count: usize,
    /// The frame slot the next tick will use.
    pub current_frame: usize,
    /// The phase of each slot's fence, index-aligned with the slots.
    pub slots: Vec<SlotPhase>,
    /// The surface format the swapchain was built with.
    pub format: SurfaceFormat,
    /// Whether a close request has been honoured with a device-idle wait.
    pub closed: bool,
}

impl HalState {
    /// The recorded slot phases agree with the fold of the call log.
    pub open spec fn slots_match(self) -> bool {
        forall|s: int|
            0 <= s < self.slots@.len() ==> (#[trigger] self.slots@[s]) == slot_phase(
                self.backend.log@,
                s,
            )
    }

    /// Well-formedness of the presenter state.
    pub open spec fn wf(self) -> bool {
        &&& 1 <= self.frames_in_flight
        &&& 1 <= self.image_count
        &&& self.slots@.len() == self.frames_in_flight
        &&& self.current_frame < self.frames_in_flight
        &&& fence_discipline(self.backend.log@, self.frames_in_flight as int)
        &&& self.slots_match()
        &&& no_destroys(self.backend.log@)
        &&& (self.closed ==> self.backend.log@.len() > 0 && self.backend.log@.last() is WaitIdle)
    }

    /// Between ticks every slot is either idle or in flight — never in the
    /// middle of a wait/reset/submit sequence.
    pub open spec fn steady(self) -> bool {
        forall|s: int|
            0 <= s < self.slots@.len() ==> ((#[trigger] self.slots@[s]) is Ready
                || self.slots@[s] is InFlight)
    }

    /// The configuration fields no presenter operation changes.
    pub open spec fn same_config(self, other: HalState) -> bool {
        &&& other.frames_in_flight == self.frames_in_flight
        &&& other.image_count == self.image_count
        &&& other.format == self.format
    }

    /// Blocks until the slot's fence is signaled. The contract excludes
    /// waiting on a fence that is reset with no submission attached —
    /// such a wait would block forever.
    pub fn wait_for_fence(&mut self, slot: usize)
        requires
            old(self).wf(),
            !old(self).closed,
            slot < old(self).frames_in_flight,
            old(self).slots@[slot as int] is Ready || old(self).slots@[slot as int] is InFlight,
        ensures
            final(self).wf(),
            old(self).same_config(*final(self)),
            !final(self).closed,
            final(self).current_frame == old(self).current_frame,
            final(self).backend.log@ == old(self).backend.log@
                + seq![(BackendOp::WaitForFence { slot })],
            final(self).slots@ == old(self).slots@.update(slot as int, SlotPhase::Waited),
    {
        let op = BackendOp::WaitForFence { slot };
        proof {
            lemma_log_push(self.backend.log@, op, self.frames_in_flight as int);
        }
        self.backend.log.push(op);
        self.slots[slot] = SlotPhase::Waited;
        proof {
            assert(self.backend.log@ =~= old(self).backend.log@ + seq![op]);
            assert forall|s: int| 0 <= s < self.slots@.len() implies (#[trigger] self.slots@[s])
                == slot_phase(self.backend.log@, s) by {
                assert(slot_phase(self.backend.log@, s) == step_phase(
                    slot_phase(old(self).backend.log@, s),
                    op,
                    s,
                ));
                assert(old(self).slots@[s] == slot_phase(old(self).backend.log@, s));
            }
        }
    }

    /// Resets the slot's fence to unsignaled, right after its wait
    /// returned and before any new submission references it.
    pub fn reset_fence(&mut self, slot: usize)
        requires
            old(self).wf(),
            !old(self).closed,
            slot < old(self).frames_in_flight,
            old(self).slots@[slot as int] is Waited,
        ensures
            final(self).wf(),
            old(self).same_config(*final(self)),
            !final(self).closed,
            final(self).current_frame == old(self).current_frame,
            final(self).backend.log@ == old(self).backend.log@
                + seq![(BackendOp::ResetFence { slot })],
            final(self).slots@ == old(self).slots@.update(slot as int, SlotPhase::Cleared),
    {
        let op = BackendOp::ResetFence { slot };
        proof {
            lemma_log_push(self.backend.log@, op, self.frames_in_flight as int);
        }
        self.backend.log.push(op);
        self.slots[slot] = SlotPhase::Cleared;
        proof {
            assert(self.backend.log@ =~= old(self).backend.log@ + seq![op]);
            assert forall|s: int| 0 <= s < self.slots@.len() implies (#[trigger] self.slots@[s])
                == slot_phase(self.backend.log@, s) by {
                assert(slot_phase(self.backend.log@, s) == step_phase(
                    slot_phase(old(self).backend.log@, s),
                    op,
                    s,
                ));
                assert(old(self).slots@[s] == slot_phase(old(self).backend.log@, s));
            }
        }
    }

    /// Asks the presentation engine for the next image, passing the
    /// slot's image-available semaphore to be signalled; `image` is the
    /// index the engine handed back.
    pub fn acquire_image(&mut self, slot: usize, image: usize)
        requires
            old(self).wf(),
            !old(self).closed,
            slot < old(self).frames_in_flight,
            image < old(self).image_count,
        ensures
            final(self).wf(),
            old(self).same_config(*final(self)),
            !final(self).closed,
            final(self).current_frame == old(self).current_frame,
            final(self).backend.log@ == old(self).backend.log@
                + seq![(BackendOp::AcquireImage { image_available_slot: slot, image })],
            final(self).slots@ == old(self).slots@,
    {
        let op = BackendOp::AcquireImage { image_available_slot: slot, image };
        proof {
            lemma_log_push(self.backend.log@, op, self.frames_in_flight as int);
        }
        self.backend.log.push(op);
        proof {
            assert(self.backend.log@ =~= old(self).backend.log@ + seq![op]);
            assert forall|s: int| 0 <= s < self.slots@.len() implies (#[trigger] self.slots@[s])
                == slot_phase(self.backend.log@, s) by {
                assert(slot_phase(self.backend.log@, s) == step_phase(
                    slot_phase(old(self).backend.log@, s),
                    op,
                    s,
                ));
                assert(old(self).slots@[s] == slot_phase(old(self).backend.log@, s));
            }
        }
    }

    /// Submits the command buffer at `command_buffer` — the index of the
    /// acquired image, not the frame slot — waiting on the slot's
    /// image-available semaphore, signalling the slot's render-finished
    /// semaphore, and fencing the submission with the slot's fence, which
    /// must have been reset.
    pub fn submit(&mut self, command_buffer: usize, slot: usize)
        requires
            old(self).wf(),
            !old(self).closed,
            slot < old(self).frames_in_flight,
            command_buffer < old(self).image_count,
            old(self).slots@[slot as int] is Cleared,
        ensures
            final(self).wf(),
            old(self).same_config(*final(self)),
            !final(self).closed,
            final(self).current_frame == old(self).current_frame,
            final(self).backend.log@ == old(self).backend.log@
                + seq![(BackendOp::Submit {
                command_buffer,
                wait_image_available_slot: slot,
                signal_render_finished_slot: slot,
                fence_slot: slot,
            })],
            final(self).slots@ == old(self).slots@.update(slot as int, SlotPhase::InFlight),
    {
        let op = BackendOp::Submit {
            command_buffer,
            wait_image_available_slot: slot,
            signal_render_finished_slot: slot,
            fence_slot: slot,
        };
        proof {
            lemma_log_push(self.backend.log@, op, self.frames_in_flight as int);
        }
        self.backend.log.push(op);
        self.slots[slot] = SlotPhase::InFlight;
        proof {
            assert(self.backend.log@ =~= old(self).backend.log@ + seq![op]);
            assert forall|s: int| 0 <= s < self.slots@.len() implies (#[trigger] self.slots@[s])
                == slot_phase(self.backend.log@, s) by {
                assert(slot_phase(self.backend.log@, s) == step_phase(
                    slot_phase(old(self).backend.log@, s),
                    op,
                    s,
                ));
                assert(old(self).slots@[s] == slot_phase(old(self).backend.log@, s));
            }
        }
    }

    /// Presents the acquired image, waiting on the slot's render-finished
    /// semaphore.
    pub fn present(&mut self, image: usize, slot: usize)
        requires
            old(self).wf(),
            !old(self).closed,
            slot < old(self).frames_in_flight,
            image < old(self).image_count,
        ensures
            final(self).wf(),
            old(self).same_config(*final(self)),
            !final(self).closed,
            final(self).current_frame == old(self).current_frame,
            final(self).backend.log@ == old(self).backend.log@
                + seq![(BackendOp::Present { image, wait_render_finished_slot: slot })],
            final(self).slots@ == old(self).slots@,
    {
        let op = BackendOp::Present { image, wait_render_finished_slot: slot };
        proof {
            lemma_log_push(self.backend.log@, op, self.frames_in_flight as int);
        }
        self.backend.log.push(op);
        proof {
            assert(self.backend.log@ =~= old(self).backend.log@ + seq![op]);
            assert forall|s: int| 0 <= s < self.slots@.len() implies (#[trigger] self.slots@[s])
                == slot_phase(self.backend.log@, s) by {
                assert(slot_phase(self.backend.log@, s) == step_phase(
                    slot_phase(old(self).backend.log@, s),
                    op,
                    s,
                ));
                assert(old(self).slots@[s] == slot_phase(old(self).backend.log@, s));
            }
        }
    }

    /// One presenter tick: wait on the current slot's fence, reset it,
    /// acquire an image, submit the command buffer of the *acquired
    /// image index* with the slot's semaphores and fence, present, and
    /// advance the frame slot round-robin.
    ///
    /// `image_index` is the image the presentation engine handed back from
    /// the acquire call; it need not equal the frame slot, and the
    /// submitted command buffer is indexed by it alone.
    #[verifier::rlimit(60)]
    pub fn draw_frame(&mut self, image_index: usize)
        requires
            old(self).wf(),
            !old(self).closed,
            image_index < old(self).image_count,
            old(self).slots@[old(self).current_frame as int] is Ready
                || old(self).slots@[old(self).current_frame as int] is InFlight,
        ensures
            final(self).wf(),
            old(self).same_config(*final(self)),
            !final(self).closed,
            final(self).backend.log@ == old(self).backend.log@ + tick_ops(
                old(self).current_frame,
                image_index,
            ),
            final(self).slots@ == old(self).slots@.update(
                old(self).current_frame as int,
                SlotPhase::InFlight,
            ),
            final(self).current_frame as int == (old(self).current_frame as int + 1) % (
            old(self).frames_in_flight as int),
            final(self).backend.log@[old(self).backend.log@.len() as int + 3] == (BackendOp::Submit {
                command_buffer: image_index,
                wait_image_available_slot: old(self).current_frame,
                signal_render_finished_slot: old(self).current_frame,
                fence_slot: old(self).current_frame,
            }),
            final(self).backend.log@[old(self).backend.log@.len() as int + 4] == (BackendOp::Present {
                image: image_index,
                wait_render_finished_slot: old(self).current_frame,
            }),
    {
        let ghost log0 = self.backend.log@;
        let slot: usize = self.current_frame;
        self.wait_for_fence(slot);
        self.reset_fence(slot);
        self.acquire_image(slot, image_index);
        self.submit(image_index, slot);
        self.present(image_index, slot);
        self.current_frame = (slot + 1) % self.frames_in_flight;
        proof {
            lemma_tick_ops_assembled(log0, slot, image_index);
            assert(self.backend.log@ == log0 + tick_ops(slot, image_index));
            assert(self.slots@ =~= old(self).slots@.update(slot as int, SlotPhase::InFlight));
            assert(self.backend.log@[log0.len() as int + 3] == tick_ops(slot, image_index)[3]);
            assert(self.backend.log@[log0.len() as int + 4] == tick_ops(slot, image_index)[4]);
        }
    }

    /// Waits until the device is idle: every outstanding submission
    /// completes, so every in-flight slot returns to `Ready`. Issued on a
    /// close request, before any teardown.
    pub fn wait_idle(&mut self)
        requires
            old(self).wf(),
            !old(self).closed,
        ensures
            final(self).wf(),
            old(self).same_config(*final(self)),
            final(self).closed,
            final(self).current_frame == old(self).current_frame,
            final(self).backend.log@ == old(self).backend.log@ + seq![BackendOp::WaitIdle],
            forall|s: int|
                0 <= s < final(self).slots@.len() ==> (#[trigger] final(self).slots@[s]) == (
                if old(self).slots@[s] is InFlight {
                    SlotPhase::Ready
                } else {
                    old(self).slots@[s]
                }),
            forall|s: int|
                0 <= s < final(self).slots@.len() ==> !((#[trigger] final(self).slots@[s])
                    is InFlight),
            old(self).steady() ==> final(self).steady(),
    {
        let ghost pre_slots = self.slots@;
        let n: usize = self.frames_in_flight;
        let mut s: usize = 0;
        while s < n
            invariant
                s <= n,
                self.slots@.len() == n,
                self.backend == old(self).backend,
                self.frames_in_flight == old(self).frames_in_flight,
                self.image_count == old(self).image_count,
                self.format == old(self).format,
                self.current_frame == old(self).current_frame,
                self.closed == old(self).closed,
                pre_slots == old(self).slots@,
                pre_slots.len() == n,
                forall|k: int|
                    0 <= k < s ==> (#[trigger] self.slots@[k]) == (if pre_slots[k] is InFlight {
                        SlotPhase::Ready
                    } else {
                        pre_slots[k]
                    }),
                forall|k: int| s <= k < n ==> (#[trigger] self.slots@[k]) == pre_slots[k],
            decreases n - s,
        {
            let cur = self.slots[s];
            match cur {
                SlotPhase::InFlight => {
                    self.slots[s] = SlotPhase::Ready;
                },
                _ => {},
            }
            s = s + 1;
        }
        let op = BackendOp::WaitIdle;
        proof {
            lemma_log_push(self.backend.log@, op, self.frames_in_flight as int);
        }
        self.backend.log.push(op);
        self.closed = true;
        proof {
            assert(self.backend.log@ =~= old(self).backend.log@ + seq![op]);
            assert forall|k: int| 0 <= k < self.slots@.len() implies (#[trigger] self.slots@[k])
                == slot_phase(self.backend.log@, k) by {
                assert(slot_phase(self.backend.log@, k) == step_phase(
                    slot_phase(old(self).backend.log@, k),
                    op,
                    k,
                ));
                assert(old(self).slots@[k] == slot_phase(old(self).backend.log@, k));
            }
        }
    }

    /// Runs the presentation loop over the given events: every event is
    /// one tick, carrying the image index the presentation engine handed
    /// back, until the first close request, which is honoured with a
    /// device-idle wait before the loop stops. Returns the number of
    /// ticks run.
    pub fn main_loop(&mut self, events: &Vec<FrameEvent>) -> (ticks: usize)
        requires
            old(self).wf(),
            old(self).steady(),
            !old(self).closed,
            forall|k: int|
                0 <= k < events@.len() ==> ((#[trigger] events@[k])
                    matches FrameEvent::Tick { acquired_image } ==> acquired_image < old(
                    self,
                ).image_count),
        ensures
            final(self).wf(),
            final(self).steady(),
            old(self).same_config(*final(self)),
            final(self).closed == contains_close(events@),
            ticks as int == ticks_run(events@),
            final(self).backend.log@ == old(self).backend.log@ + loop_ops(
                events@,
                old(self).current_frame as int,
                old(self).frames_in_flight as int,
            ),
            final(self).current_frame as int == (old(self).current_frame as int + ticks_run(
                events@,
            )) % (old(self).frames_in_flight as int),
    {
        let ghost log0 = self.backend.log@;
        let ghost f0: int = self.current_frame as int;
        let ghost n: int = self.frames_in_flight as int;
        let ghost n_us: usize = self.frames_in_flight;
        let ghost m0: usize = self.image_count;
        let ghost fmt0 = self.format;
        proof {
            vstd::arithmetic::div_mod::lemma_small_mod(f0 as nat, n as nat);
            assert(events@.skip(0) =~= events@);
        }
        let mut t: usize = 0;
        let mut i: usize = 0;
        while i < events.len() && !self.closed
            invariant
                i <= events@.len(),
                t <= i,
                self.wf(),
                self.steady(),
                self.frames_in_flight == n_us,
                n == n_us as int,
                0 <= f0 < n,
                self.image_count == m0,
                self.format == fmt0,
                forall|k: int|
                    0 <= k < events@.len() ==> ((#[trigger] events@[k])
                        matches FrameEvent::Tick { acquired_image } ==> acquired_image < m0),
                !self.closed ==> {
                    &&& t == i
                    &&& forall|k: int| 0 <= k < i ==> !((#[trigger] events@[k]) is CloseRequested)
                    &&& log0 + loop_ops(events@, f0, n) == self.backend.log@ + loop_ops(
                        events@.skip(i as int),
                        self.current_frame as int,
                        n,
                    )
                    &&& ticks_run(events@) == i + ticks_run(events@.skip(i as int))
                    &&& self.current_frame as int == (f0 + i) % n
                },
                self.closed ==> {
                    &&& contains_close(events@)
                    &&& ticks_run(events@) == t
                    &&& self.backend.log@ == log0 + loop_ops(events@, f0, n)
                    &&& self.current_frame as int == (f0 + t) % n
                },
            decreases events@.len() - i,
        {
            let ev = events[i];
            match ev {
                FrameEvent::CloseRequested => {
                    proof {
                        assert(events@.skip(i as int)[0] == events@[i as int]);
                        assert(loop_ops(events@.skip(i as int), self.current_frame as int, n)
                            == seq![BackendOp::WaitIdle]);
                        assert(ticks_run(events@.skip(i as int)) == 0);
                        assert(contains_close(events@));
                    }
                    let ghost pre_log = self.backend.log@;
                    self.wait_idle();
                    proof {
                        assert(self.backend.log@ =~= pre_log + seq![BackendOp::WaitIdle]);
                        assert(self.backend.log@ =~= log0 + loop_ops(events@, f0, n));
                    }
                },
                FrameEvent::Tick { acquired_image } => {
                    proof {
                        assert(events@[i as int] == ev);
                    }
                    let ghost cur: int = self.current_frame as int;
                    let ghost pre_log = self.backend.log@;
                    self.draw_frame(acquired_image);
                    proof {
                        assert(events@.skip(i as int)[0] == events@[i as int]);
                        assert(events@.skip(i as int).skip(1) =~= events@.skip(i as int + 1));
                        assert(loop_ops(events@.skip(i as int), cur, n) == tick_ops(
                            cur as usize,
                            acquired_image,
                        ) + loop_ops(events@.skip(i as int + 1), next_frame(cur, n), n));
                        assert((pre_log + tick_ops(cur as usize, acquired_image)) + loop_ops(
                            events@.skip(i as int + 1),
                            next_frame(cur, n),
                            n,
                        ) =~= pre_log + loop_ops(events@.skip(i as int), cur, n));
                        assert(ticks_run(events@.skip(i as int)) == 1 + ticks_run(
                            events@.skip(i as int + 1),
                        ));
                        lemma_mod_succ(f0 + i, n);
                    }
                    t = t + 1;
                },
            }
            i = i + 1;
        }
        proof {
            if !self.closed {
                assert(i == events@.len());
                assert(events@.skip(i as int) =~= Seq::<FrameEvent>::empty());
                assert(loop_ops(events@.skip(i as int), self.current_frame as int, n)
                    == Seq::<BackendOp>::empty());
                assert(self.backend.log@ + Seq::<BackendOp>::empty() =~= self.backend.log@);
                assert(ticks_run(events@.skip(i as int)) == 0);
                if contains_close(events@) {
                    let k: int = choose|k: int|
                        0 <= k < events@.len() && (#[trigger] events@[k]) is CloseRequested;
                    assert(!(events@[k] is CloseRequested));
                }
            }
        }
        t
    }

    /// Tears the state down, consuming it: after the device-idle wait
    /// that honoured the close request, the thirteen owned resource kinds
    /// are destroyed in exact reverse-dependency order. Returns the
    /// complete call record: every destroy call in it is preceded by the
    /// device-idle wait.
    pub fn clean_up(self) -> (log: Vec<BackendOp>)
        requires
            self.wf(),
            self.closed,
        ensures
            log@ == self.backend.log@ + teardown_ops(
                self.frames_in_flight as int,
                self.image_count as int,
            ),
            forall|i: int|
                0 <= i < log@.len() ==> ((#[trigger] log@[i]) is Destroy ==> exists|j: int|
                    0 <= j < i && log@[j] is WaitIdle),
    {
        let n: usize = self.frames_in_flight;
        let m: usize = self.image_count;
        let ghost base = self.backend.log@;
        let mut log = self.backend.log;
        push_destroys(&mut log, ResourceKind::Fence, n);
        push_destroys(&mut log, ResourceKind::Semaphore, n);
        push_destroys(&mut log, ResourceKind::Semaphore, n);
        push_destroys(&mut log, ResourceKind::CommandPool, 1);
        push_destroys(&mut log, ResourceKind::Framebuffer, m);
        push_destroys(&mut log, ResourceKind::GraphicsPipeline, 1);
        push_destroys(&mut log, ResourceKind::DescriptorSetLayout, 1);
        push_destroys(&mut log, ResourceKind::PipelineLayout, 1);
        push_destroys(&mut log, ResourceKind::RenderPass, 1);
        push_destroys(&mut log, ResourceKind::ImageView, m);
        push_destroys(&mut log, ResourceKind::Swapchain, 1);
        push_destroys(&mut log, ResourceKind::Surface, 1);
        push_destroys(&mut log, ResourceKind::Device, 1);
        push_destroys(&mut log, ResourceKind::Instance, 1);
        proof {
            assert(log@ =~= base + teardown_ops(n as int, m as int));
            assert forall|i: int| 0 <= i < log@.len() && (#[trigger] log@[i]) is Destroy implies
                exists|j: int| 0 <= j < i && log@[j] is WaitIdle by {
                if i < base.len() {
                    assert(log@[i] == base[i]);
                    assert(!(base[i] is Destroy));
                } else {
                    let j: int = base.len() - 1;
                    assert(log@[j] == base[j]);
                    assert(base[j] == base.last());
                    assert(0 <= j < i && log@[j] is WaitIdle);
                }
            }
        }
        log
    }

    /// Bounded frames in flight, tied to the live state: in any
    /// well-formed presenter state, at most `frames_in_flight` submissions
    /// are outstanding without their fence signal having been observed.
    pub proof fn lemma_state_bounded_in_flight(self)
        requires
            self.wf(),
        ensures
            0 <= outstanding(self.backend.log@) <= self.frames_in_flight,
    {
        lemma_bounded_in_flight(self.backend.log@, self.frames_in_flight as int);
    }

    /// Fence reuse safety, tied to the live state: in the record of any
    /// well-formed presenter state, between two submissions fenced to the
    /// same slot stand a wait on that slot's fence and then a reset of it.
    pub proof fn lemma_state_fence_reuse_safety(self, s: int, i: int, j: int)
        requires
            self.wf(),
            0 <= i < j < self.backend.log@.len(),
            self.backend.log@[i] matches BackendOp::Submit { fence_slot, .. } && fence_slot
                as int == s,
            self.backend.log@[j] matches BackendOp::Submit { fence_slot, .. } && fence_slot
                as int == s,
        ensures
            exists|k: int, l: int|
                i < k < l < j && ((#[trigger] self.backend.log@[k])
                    matches BackendOp::WaitForFence { slot } && slot as int == s) && ((
                #[trigger] self.backend.log@[l]) matches BackendOp::ResetFence { slot } && slot
                    as int == s),
    {
        crate::sync::lemma_fence_reuse_safety(
            self.backend.log@,
            self.frames_in_flight as int,
            s,
            i,
            j,
        );
    }
}

/// Builds the full presenter state: instance, adapter pick, surface,
/// device, swapchain, image views, render pass, graphics pipeline,
/// framebuffers, command pool, command buffers, and synchronization
/// objects, in that order. Returns `None` — making no further backend
/// call — when no adapter is suitable or the chosen adapter has no queue
/// family on which the device can be opened.
pub fn init_hal(
    adapters: &Vec<AdapterInfo>,
    formats: &Option<Vec<SurfaceFormat>>,
    image_count: usize,
    frames_in_flight: usize,
) -> (r: Option<HalState>)
    requires
        1 <= image_count,
        1 <= frames_in_flight,
        (*formats) matches Some(fs) ==> fs@.len() > 0,
    ensures
        (r is Some) <==> viable_setup(adapters@),
        r matches Some(st) ==> {
            &&& st.wf()
            &&& st.steady()
            &&& !st.closed
            &&& st.current_frame == 0
            &&& st.frames_in_flight == frames_in_flight
            &&& st.image_count == image_count
            &&& all_inert(st.backend.log@)
            &&& (forall|s: int| 0 <= s < st.slots@.len() ==> (#[trigger] st.slots@[s]) is Ready)
            &&& (forall|i: int, j: int|
                first_suitable_adapter(adapters@, i) && #[trigger] first_device_family(
                    adapters@[i].queue_families@,
                    j,
                ) ==> st.backend.log@ == init_ops(j as usize, image_count, frames_in_flight))
            &&& ((*formats) matches Some(fs) ==> {
                &&& (exists|j: int| 0 <= j < fs@.len() && fs@[j].srgb) ==> (exists|j: int|
                    first_srgb_format(fs@, j) && st.format == fs@[j])
                &&& !(exists|j: int| 0 <= j < fs@.len() && fs@[j].srgb) ==> st.format == fs@[0]
            })
            &&& ((*formats) is None ==> st.format == default_format())
        },
{
    let picked = pick_adapter(adapters);
    let i: usize;
    match picked {
        Option::Some(found) => {
            i = found;
        },
        Option::None => {
            proof {
                if viable_setup(adapters@) {
                    let (i0, j0) = choose|i0: int, j0: int|
                        first_suitable_adapter(adapters@, i0) && #[trigger] first_device_family(
                            adapters@[i0].queue_families@,
                            j0,
                        );
                    assert(adapter_suitable(adapters@[i0]));
                }
            }
            return None;
        },
    }
    let mut backend = crate::backend::create_instance();
    backend.create_surface();
    let family = backend.create_device_with_graphics_queues(&adapters[i]);
    let j: usize;
    match family {
        Option::Some(found) => {
            j = found;
        },
        Option::None => {
            proof {
                if viable_setup(adapters@) {
                    let (i0, j0) = choose|i0: int, j0: int|
                        first_suitable_adapter(adapters@, i0) && #[trigger] first_device_family(
                            adapters@[i0].queue_families@,
                            j0,
                        );
                    assert(adapter_suitable(adapters@[i as int]));
                    assert(adapter_suitable(adapters@[i0]));
                    assert(i0 == i as int);
                    assert(family_device_ok(adapters@[i0].queue_families@[j0]));
                }
            }
            return None;
        },
    }
    let format = backend.create_swap_chain(formats, image_count);
    backend.create_image_views(image_count);
    backend.create_render_pass();
    backend.create_graphics_pipeline();
    backend.create_framebuffers(image_count);
    backend.create_command_pool();
    backend.create_command_buffers(image_count);
    backend.create_sync_objects(frames_in_flight);
    let mut slots: Vec<SlotPhase> = Vec::new();
    let mut s: usize = 0;
    while s < frames_in_flight
        invariant
            s <= frames_in_flight,
            slots@.len() == s,
            forall|k: int| 0 <= k < s ==> (#[trigger] slots@[k]) is Ready,
        decreases frames_in_flight - s,
    {
        slots.push(SlotPhase::Ready);
        s = s + 1;
    }
    let st = HalState {
        backend,
        frames_in_flight,
        image_count,
        current_frame: 0,
        slots,
        format,
        closed: false,
    };
    proof {
        let n: int = frames_in_flight as int;
        lemma_all_inert(st.backend.log@, n);
        assert forall|s2: int| 0 <= s2 < st.slots@.len() implies (#[trigger] st.slots@[s2])
            == slot_phase(st.backend.log@, s2) by {
            assert(st.slots@[s2] is Ready);
            assert(slot_phase(st.backend.log@, s2) is Ready);
        }
        lemma_init_ops_assembled(j, image_count, frames_in_flight);
        assert(st.backend.log@ == init_ops(j, image_count, frames_in_flight));
        assert(first_suitable_adapter(adapters@, i as int));
        assert(first_device_family(adapters@[i as int].queue_families@, j as int));
        assert(viable_setup(adapters@));
        assert forall|i2: int, j2: int|
            first_suitable_adapter(adapters@, i2) && #[trigger] first_device_family(
                adapters@[i2].queue_families@,
                j2,
            ) implies st.backend.log@ == init_ops(j2 as usize, image_count, frames_in_flight) by {
            assert(adapter_suitable(adapters@[i2]));
            assert(adapter_suitable(adapters@[i as int]));
            assert(i2 == i as int);
            assert(family_device_ok(adapters@[i2].queue_families@[j2]));
            assert(family_device_ok(adapters@[i as int].queue_families@[j as int]));
            assert(j2 == j as int);
        }
    }
    Some(st)
}

} // verus!

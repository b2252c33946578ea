//! A verified model of a double-buffered frame-presentation core.
//!
//! The library models the synchronization discipline of a real-time
//! rendering loop built on a Vulkan-style graphics backend: adapter and
//! queue-family selection, swapchain format selection, ordered resource
//! creation, a frame presenter that bounds the number of frames in flight
//! with per-slot fences and semaphores, and a teardown sequencer that
//! releases resources in reverse-dependency order after the device is idle.
//!
//! The graphics backend itself is a collaborator that only performs the
//! calls the presenter decides on; here it is modelled as a recorder that
//! keeps the exact sequence of calls, so every ordering rule is stated and
//! proved over that sequence.

use vstd::prelude::*;

pub mod adapter;
pub mod backend;
pub mod ops;
pub mod presenter;
pub mod swapchain;
pub mod sync;
pub mod teardown;

verus! {

/// How many frames may be in flight at once in the default configuration.
pub const MAX_FRAMES_IN_FLIGHT: usize = 2;

/// Moves the value out of an optional slot that is known to be filled,
/// leaving the slot empty.
pub fn take<T>(some_option: &mut Option<T>) -> (t: T)
    requires
        (*old(some_option)) is Some,
    ensures
        (*final(some_option)) is None,
        t == (*old(some_option)).unwrap(),
{
    some_option.take().unwrap()
}

} // verus!

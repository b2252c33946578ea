//! Adapter and queue-family selection.
//!
//! The backend enumerates the physical adapters; what the core reads from
//! each is captured in [`AdapterInfo`]: for every queue family, how many
//! queues it offers, whether it supports graphics work, and whether it can
//! present to the surface. Selection is a first-match scan, exactly as the
//! contracts state.

use vstd::prelude::*;

verus! {

/// What the core reads from one queue family of an adapter.
#[derive(Clone, Copy, PartialEq, Eq, Structural, Debug)]
pub struct QueueFamilyInfo {
    /// Number of queues the family offers.
    pub max_queues: usize,
    /// Whether the family accepts graphics commands.
    pub supports_graphics: bool,
    /// Whether the family can present to the window surface.
    pub supports_surface: bool,
}

/// What the core reads from one physical adapter.
#[derive(Debug)]
pub struct AdapterInfo {
    pub queue_families: Vec<QueueFamilyInfo>,
}

/// The queue-family indices an adapter scan has filled in so far.
#[derive(Clone, Copy, PartialEq, Eq, Structural, Debug)]
pub struct QueueFamilyIds {
    pub graphics_family: Option<usize>,
}

/// A family that qualifies for the graphics queue: it has at least one
/// queue and supports graphics.
pub open spec fn family_graphics_ok(f: QueueFamilyInfo) -> bool {
    f.max_queues > 0 && f.supports_graphics
}

/// A family on which the device can be opened: graphics-capable, with at
/// least one queue, and able to present to the surface.
pub open spec fn family_device_ok(f: QueueFamilyInfo) -> bool {
    f.supports_graphics && f.max_queues > 0 && f.supports_surface
}

/// An adapter is suitable when any of its families qualifies for graphics.
pub open spec fn adapter_suitable(a: AdapterInfo) -> bool {
    exists|j: int| 0 <= j < a.queue_families@.len() && family_graphics_ok(a.queue_families@[j])
}

/// `j` is the first family of `fams` that qualifies for graphics.
pub open spec fn first_graphics_family(fams: Seq<QueueFamilyInfo>, j: int) -> bool {
    &&& 0 <= j < fams.len()
    &&& family_graphics_ok(fams[j])
    &&& forall|k: int| 0 <= k < j ==> !family_graphics_ok(fams[k])
}

/// `j` is the first family of `fams` on which the device can be opened.
pub open spec fn first_device_family(fams: Seq<QueueFamilyInfo>, j: int) -> bool {
    &&& 0 <= j < fams.len()
    &&& family_device_ok(fams[j])
    &&& forall|k: int| 0 <= k < j ==> !family_device_ok(fams[k])
}

/// `i` is the first suitable adapter of `adapters`.
pub open spec fn first_suitable_adapter(adapters: Seq<AdapterInfo>, i: int) -> bool {
    &&& 0 <= i < adapters.len()
    &&& adapter_suitable(adapters[i])
    &&& forall|k: int| 0 <= k < i ==> !adapter_suitable(adapters[k])
}

/// Setup can succeed: some adapter is suitable, and the first suitable one
/// has a queue family on which the device can be opened.
pub open spec fn viable_setup(adapters: Seq<AdapterInfo>) -> bool {
    exists|i: int, j: int|
        first_suitable_adapter(adapters, i) && #[trigger] first_device_family(
            adapters[i].queue_families@,
            j,
        )
}

impl QueueFamilyIds {
    /// The scan is complete once a graphics family has been found.
    pub fn is_complete(&self) -> (r: bool)
        ensures
            r == (self.graphics_family is Some),
    {
        self.graphics_family.is_some()
    }
}

/// Scans the adapter's queue families and returns the index of the first
/// graphics-capable one, if any.
pub fn find_queue_families(adapter: &AdapterInfo) -> (r: QueueFamilyIds)
    ensures
        r.graphics_family matches Some(j) ==> first_graphics_family(
            adapter.queue_families@,
            j as int,
        ),
        r.graphics_family is None ==> forall|k: int|
            0 <= k < adapter.queue_families@.len() ==> !family_graphics_ok(
                adapter.queue_families@[k],
            ),
{
    let mut queue_family_ids = QueueFamilyIds { graphics_family: None };
    let mut i: usize = 0;
    while i < adapter.queue_families.len()
        invariant
            i <= adapter.queue_families@.len(),
            queue_family_ids.graphics_family is None,
            forall|k: int| 0 <= k < i ==> !family_graphics_ok(adapter.queue_families@[k]),
        decreases adapter.queue_families@.len() - i,
    {
        let family = adapter.queue_families[i];
        if family.max_queues > 0 && family.supports_graphics {
            queue_family_ids.graphics_family = Some(i);
            return queue_family_ids;
        }
        i = i + 1;
    }
    queue_family_ids
}

/// Whether the adapter offers at least one graphics-capable queue family.
pub fn is_adapter_suitable(adapter: &AdapterInfo) -> (r: bool)
    ensures
        r == adapter_suitable(*adapter),
{
    let ids = find_queue_families(adapter);
    ids.is_complete()
}

/// Returns the index of the first suitable adapter, or `None` when no
/// adapter offers a graphics-capable queue family.
pub fn pick_adapter(adapters: &Vec<AdapterInfo>) -> (r: Option<usize>)
    ensures
        r matches Some(i) ==> first_suitable_adapter(adapters@, i as int),
        r is None ==> forall|k: int| 0 <= k < adapters@.len() ==> !adapter_suitable(adapters@[k]),
{
    let mut i: usize = 0;
    while i < adapters.len()
        invariant
            i <= adapters@.len(),
            forall|k: int| 0 <= k < i ==> !adapter_suitable(adapters@[k]),
        decreases adapters@.len() - i,
    {
        if is_adapter_suitable(&adapters[i]) {
            return Some(i);
        }
        i = i + 1;
    }
    None
}

/// Returns the index of the first queue family on which the device can be
/// opened: graphics-capable and able to present to the surface.
pub fn find_device_family(adapter: &AdapterInfo) -> (r: Option<usize>)
    ensures
        r matches Some(j) ==> first_device_family(adapter.queue_families@, j as int),
        r is None ==> forall|k: int|
            0 <= k < adapter.queue_families@.len() ==> !family_device_ok(
                adapter.queue_families@[k],
            ),
{
    let mut i: usize = 0;
    while i < adapter.queue_families.len()
        invariant
            i <= adapter.queue_families@.len(),
            forall|k: int| 0 <= k < i ==> !family_device_ok(adapter.queue_families@[k]),
        decreases adapter.queue_families@.len() - i,
    {
        let family = adapter.queue_families[i];
        if family.supports_graphics && family.max_queues > 0 && family.supports_surface {
            return Some(i);
        }
        i = i + 1;
    }
    None
}

} // verus!

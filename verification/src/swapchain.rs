//! Swapchain surface-format selection.
//!
//! The surface reports either a list of supported formats or no preference
//! at all. The core prefers an sRGB format, falls back to the first
//! reported format, and uses a default sRGB format when the surface has no
//! preference.

use vstd::prelude::*;

verus! {

/// What the core reads from one surface format: an identifying code and
/// whether its channels are sRGB-encoded.
#[derive(Clone, Copy, PartialEq, Eq, Structural, Debug)]
pub struct SurfaceFormat {
    pub code: usize,
    pub srgb: bool,
}

/// The format used when the surface reports no preference.
pub open spec fn default_format() -> SurfaceFormat {
    SurfaceFormat { code: 0, srgb: true }
}

/// The default format as a value: sRGB, used when the surface reports no
/// preference.
pub fn preferred_default_format() -> (f: SurfaceFormat)
    ensures
        f == default_format(),
{
    SurfaceFormat { code: 0, srgb: true }
}

/// `j` is the first sRGB format of `formats`.
pub open spec fn first_srgb_format(formats: Seq<SurfaceFormat>, j: int) -> bool {
    &&& 0 <= j < formats.len()
    &&& formats[j].srgb
    &&& forall|k: int| 0 <= k < j ==> !formats[k].srgb
}

/// Picks the swapchain surface format: the first sRGB format when one is
/// reported, otherwise the first reported format, otherwise the default.
pub fn select_swapchain_format(formats: &Option<Vec<SurfaceFormat>>) -> (f: SurfaceFormat)
    requires
        (*formats) matches Some(fs) ==> fs@.len() > 0,
    ensures
        (*formats) matches Some(fs) ==> {
            &&& (exists|j: int| 0 <= j < fs@.len() && fs@[j].srgb) ==> (exists|j: int|
                first_srgb_format(fs@, j) && f == fs@[j])
            &&& !(exists|j: int| 0 <= j < fs@.len() && fs@[j].srgb) ==> f == fs@[0]
        },
        (*formats) is None ==> f == default_format(),
{
    if formats.is_none() {
        return preferred_default_format();
    }
    let fs = formats.as_ref().unwrap();
    let mut i: usize = 0;
    while i < fs.len()
        invariant
            i <= fs@.len(),
            fs@.len() > 0,
            (*formats) matches Some(v) && v == *fs,
            forall|k: int| 0 <= k < i ==> !fs@[k].srgb,
        decreases fs@.len() - i,
    {
        if fs[i].srgb {
            proof {
                assert(first_srgb_format(fs@, i as int));
            }
            return fs[i];
        }
        i = i + 1;
    }
    fs[0]
}

} // verus!

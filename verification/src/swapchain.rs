//! Choices the renderer makes about its swap chain and its frames in
//! flight, given what the surface reports.

use vstd::prelude::*;

verus! {

/// Number of frames the renderer records while the GPU draws earlier ones.
pub const FRAMES_IN_FLIGHT: u32 = 2;

/// Vulkan's `VK_FORMAT_B8G8R8A8_SRGB`.
pub const FORMAT_B8G8R8A8_SRGB: i32 = 50;

/// Vulkan's `VK_COLOR_SPACE_SRGB_NONLINEAR_KHR`.
pub const COLOR_SPACE_SRGB_NONLINEAR: i32 = 0;

/// A pixel format and color space the surface can present.
#[derive(Clone, Copy, Debug, PartialEq, Eq, Structural)]
pub struct SurfaceFormat {
    pub format: i32,
    pub color_space: i32,
}

/// A width and a height in pixels.
#[derive(Clone, Copy, Debug, PartialEq, Eq, Structural)]
pub struct Extent2D {
    pub width: u32,
    pub height: u32,
}

/// Whether `f` is the preferred surface format: BGRA8 sRGB with the
/// non-linear sRGB color space.
pub open spec fn is_preferred_format(f: SurfaceFormat) -> bool {
    f.format == FORMAT_B8G8R8A8_SRGB && f.color_space == COLOR_SPACE_SRGB_NONLINEAR
}

/// Picks the surface format to present with: the first preferred one
/// (BGRA8 sRGB, non-linear sRGB), else the first one offered.
pub fn choose_surface_format(formats: &Vec<SurfaceFormat>) -> (r: usize)
    requires
        formats@.len() > 0,
    ensures
        r < formats@.len(),
        (exists|i: int| 0 <= i < formats@.len() && is_preferred_format(#[trigger] formats@[i]))
            ==> is_preferred_format(formats@[r as int]) && forall|j: int|
            0 <= j < r ==> !is_preferred_format(#[trigger] formats@[j]),
        !(exists|i: int| 0 <= i < formats@.len() && is_preferred_format(#[trigger] formats@[i]))
            ==> r == 0,
{
    let mut i: usize = 0;
    while i < formats.len()
        invariant
            i <= formats@.len(),
            forall|j: int| 0 <= j < i ==> !is_preferred_format(#[trigger] formats@[j]),
        decreases formats@.len() - i,
    {
        let f = formats[i];
        if f.format == FORMAT_B8G8R8A8_SRGB && f.color_space == COLOR_SPACE_SRGB_NONLINEAR {
            return i;
        }
        i = i + 1;
    }
    0
}

/// `v` brought into `lo ..= hi`.
pub open spec fn clamped(v: u32, lo: u32, hi: u32) -> u32 {
    if v < lo {
        lo
    } else if v > hi {
        hi
    } else {
        v
    }
}

/// `v` brought into `lo ..= hi`, as `Ord::clamp` does.
fn clamp(v: u32, lo: u32, hi: u32) -> (r: u32)
    requires
        lo <= hi,
    ensures
        r == clamped(v, lo, hi),
{
    if v < lo {
        lo
    } else if v > hi {
        hi
    } else {
        v
    }
}

/// Picks the size of the swap chain images: the surface's current size
/// when it has one, else the window size brought within the sizes the
/// surface supports.
pub fn choose_swap_extent(current: Extent2D, min: Extent2D, max: Extent2D, window: Extent2D) -> (r: Extent2D)
    requires
        current.width == u32::MAX ==> min.width <= max.width && min.height <= max.height,
    ensures
        current.width != u32::MAX ==> r == current,
        current.width == u32::MAX ==> r == (Extent2D {
            width: clamped(window.width, min.width, max.width),
            height: clamped(window.height, min.height, max.height),
        }),
        current.width == u32::MAX ==> min.width <= r.width <= max.width && min.height <= r.height
            <= max.height,
{
    if current.width != u32::MAX {
        current
    } else {
        Extent2D {
            width: clamp(window.width, min.width, max.width),
            height: clamp(window.height, min.height, max.height),
        }
    }
}

/// The largest image count the surface allows, `0` meaning no limit.
pub open spec fn image_count_limit(max_image_count: u32) -> u32 {
    if max_image_count == 0 {
        u32::MAX
    } else {
        max_image_count
    }
}

/// Picks how many images the swap chain holds: one per frame in flight,
/// within the counts the surface allows.
pub fn choose_image_count(min_image_count: u32, max_image_count: u32) -> (r: u32)
    requires
        min_image_count <= image_count_limit(max_image_count),
    ensures
        r == clamped(FRAMES_IN_FLIGHT, min_image_count, image_count_limit(max_image_count)),
{
    clamp(
        FRAMES_IN_FLIGHT,
        min_image_count,
        if max_image_count == 0 {
            u32::MAX
        } else {
            max_image_count
        },
    )
}

/// Whether a window of this size can be presented to; a minimized window
/// has no area and keeps its old swap chain.
pub fn can_present_to(width: u32, height: u32) -> (r: bool)
    ensures
        r == (width != 0 && height != 0),
{
    !(width == 0 || height == 0)
}

/// The frame in flight that follows frame `current`.
pub fn next_frame(current: usize) -> (r: usize)
    requires
        current < usize::MAX,
    ensures
        r == (current + 1) % (FRAMES_IN_FLIGHT as int),
        r < FRAMES_IN_FLIGHT,
{
    (current + 1) % FRAMES_IN_FLIGHT as usize
}

} // verus!

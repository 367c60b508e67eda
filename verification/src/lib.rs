//! Index topology of a quadrilateralized spherical cube (QSC) and the
//! decisions a Vulkan renderer takes on values it queried from the driver.

use vstd::prelude::*;

pub mod zorder;
pub mod sphere;
pub mod mesh;
pub mod device;
pub mod swapchain;
pub mod shader;
pub mod controls;

verus! {

} // verus!

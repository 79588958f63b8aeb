//! Tags of kinds of backends.

use vstd::prelude::*;

verus! {

pub const CPU: u32 = 1;

pub const VULKAN: u32 = 2;

pub const HIP: u32 = 3;

pub const HYBRID: u32 = 4;

pub const PLUGIN: u32 = 255;

} // verus!

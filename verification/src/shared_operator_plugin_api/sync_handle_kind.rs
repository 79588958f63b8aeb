//! Tags of kinds of synchronization handles.

use vstd::prelude::*;

verus! {

pub const WIN32_OPAQUE: u32 = 1;

pub const OPAQUE_FD: u32 = 2;

pub const TIMELINE: u32 = 3;

pub const CUSTOM_BASE: u32 = 0x8000_0000;

} // verus!

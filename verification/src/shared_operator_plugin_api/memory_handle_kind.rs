//! Tags of kinds of memory handles.

use vstd::prelude::*;

verus! {

pub const WIN32_KMT: u32 = 1;

pub const WIN32_NT: u32 = 2;

pub const OPAQUE_FD: u32 = 3;

pub const DMA_BUF: u32 = 4;

pub const CUSTOM_BASE: u32 = 0x8000_0000;

} // verus!

//! Tags of kinds of access to a region.

use vstd::prelude::*;

verus! {

pub const READ_ONLY: u32 = 1;

pub const WRITE_ONLY: u32 = 2;

pub const READ_WRITE: u32 = 3;

} // verus!

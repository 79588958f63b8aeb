//! What a shared operator says it can do, one bit each.

use vstd::prelude::*;

verus! {

pub const EXTERNAL_RESOURCE: u64 = 0x01;

pub const EXTERNAL_SYNCHRONIZATION: u64 = 0x02;

/// Only where the actual execution path is certified to relay no tensor bytes through the host.
pub const PROVEN_ZERO_COPY: u64 = 0x04;

pub const FP16: u64 = 0x08;

pub const FP32: u64 = 0x10;

pub const INT8: u64 = 0x20;

} // verus!

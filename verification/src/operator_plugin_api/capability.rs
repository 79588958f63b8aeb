//! What an operator says it can do, one bit each.

use vstd::prelude::*;

verus! {

pub const ZERO_COPY: u64 = 0x01;

pub const FP16: u64 = 0x02;

pub const FP32: u64 = 0x04;

pub const INT8: u64 = 0x08;

pub const HOST_BYTES: u64 = 0x10;

pub const EXTERNAL_RESOURCE: u64 = 0x20;

} // verus!

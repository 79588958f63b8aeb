//! What a backend plugin says it can do, one bit each.

use vstd::prelude::*;

verus! {

pub const COMPUTE: u64 = 0x01;

pub const EXTERNAL_MEMORY: u64 = 0x02;

pub const EXTERNAL_SEMAPHORE: u64 = 0x04;

pub const ZERO_COPY: u64 = 0x08;

pub const TIMESTAMPS: u64 = 0x10;

pub const FP16: u64 = 0x20;

pub const FP32: u64 = 0x40;

pub const INT8: u64 = 0x80;

} // verus!

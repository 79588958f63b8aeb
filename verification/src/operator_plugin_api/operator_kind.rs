//! Tags of kinds of operators.

use vstd::prelude::*;

verus! {

pub const GEMM: u32 = 1;

pub const ATTENTION: u32 = 2;

pub const QUANTIZE: u32 = 3;

pub const DEQUANTIZE: u32 = 4;

pub const TRANSFORM: u32 = 5;

pub const CUSTOM: u32 = 255;

} // verus!

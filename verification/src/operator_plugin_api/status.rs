//! What a callback answers.

use vstd::prelude::*;

verus! {

pub const OK: i32 = 0;

pub const INVALID_ARGUMENT: i32 = 1;

pub const UNSUPPORTED: i32 = 2;

pub const UNAVAILABLE: i32 = 3;

pub const BUFFER_TOO_SMALL: i32 = 4;

pub const INTERNAL_ERROR: i32 = 5;

} // verus!

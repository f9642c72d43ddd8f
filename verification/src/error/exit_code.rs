//! Exit codes for the `hit` binary.

use vstd::prelude::*;

verus! {

pub const OK: i32 = 0;

pub const USAGE: i32 = 1;

pub const SPEC: i32 = 2;

pub const AUTH: i32 = 3;

pub const NETWORK: i32 = 4;

pub const HTTP_4XX: i32 = 5;

pub const HTTP_5XX: i32 = 6;

} // verus!

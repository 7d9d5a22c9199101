//! Conversion factors between time units and the canonical
//! (seconds, nanoseconds) pair.

use vstd::prelude::*;

verus! {

pub const SECONDS_PER_MINUTE: u64 = 60;

pub const SECONDS_PER_HOUR: u64 = 3600;

pub const SECONDS_PER_DAY: u64 = 86400;

pub const SECONDS_PER_WEEK: u64 = 604800;

pub const NANOSECONDS_PER_MICROSECOND: u64 = 1_000;

pub const NANOSECONDS_PER_MILLISECOND: u64 = 1_000_000;

} // verus!

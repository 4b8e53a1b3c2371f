//! Readings of the machine's clock.
use vstd::prelude::*;

verus! {

/// The clock showed this: so many nanoseconds since the epoch, or a time before
/// it. What is known of a reading is that a span of time has no more nanoseconds
/// than this. It is known here alone: elsewhere a number counts as a reading only
/// where it was read.
pub closed spec fn clock_showed(nanos: Option<u128>) -> bool {
    nanos matches Some(n) ==> n <= 18_446_744_073_709_551_615_999_999_999
}

} // verus!

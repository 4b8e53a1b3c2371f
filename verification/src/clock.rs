//! The time of day.
use vstd::prelude::*;

use crate::reading::clock_showed;

verus! {

/// `std::time::SystemTime::elapsed` of the Unix epoch, in nanoseconds; nothing
/// where the clock stands before the epoch. What it returns rests on the
/// machine's clock: all that is said of it is that the clock showed it.
#[verifier::external_body]
fn epoch_elapsed() -> (nanos: Option<u128>)
    ensures
        clock_showed(nanos),
{
    std::time::UNIX_EPOCH.elapsed().ok().map(|elapsed| elapsed.as_nanos())
}

/// The time that a reading of the clock stands for: zero for a clock before
/// the epoch, and the last representable nanosecond for one past it.
pub open spec fn reading_time(nanos: Option<u128>) -> u64 {
    match nanos {
        None => 0,
        Some(n) => if n <= u64::MAX {
            n as u64
        } else {
            u64::MAX
        },
    }
}

/// Turns a reading of the clock into a time.
pub fn time_of_reading(nanos: Option<u128>) -> (t: u64)
    ensures
        t == reading_time(nanos),
{
    match nanos {
        None => 0,
        Some(n) => if n <= 0xffff_ffff_ffff_ffff {
            n as u64
        } else {
            u64::MAX
        },
    }
}

/// The time is that of a reading of the clock.
pub open spec fn is_clock_time(t: u64) -> bool {
    exists|nanos: Option<u128>| #[trigger] clock_showed(nanos) && t == reading_time(nanos)
}

/// Nanoseconds since the Unix epoch, as the machine's clock has them.
pub(crate) fn unix_nanos() -> (t: u64)
    ensures
        is_clock_time(t),
{
    time_of_reading(epoch_elapsed())
}

/// A reading is taken as it is: the time of a clock that showed so many
/// nanoseconds is that number, as far as eight bytes hold it.
pub proof fn law_reading_is_taken_as_it_is(n: u128)
    ensures
        n <= 0xffff_ffff_ffff_ffff ==> reading_time(Some(n)) == n,
        n > 0xffff_ffff_ffff_ffff ==> reading_time(Some(n)) == 0xffff_ffff_ffff_ffff,
        reading_time(None) == 0,
{
}

/// A clock time is what the clock showed, to the nanosecond, as far as eight
/// bytes hold it.
pub proof fn law_clock_time_was_shown(t: u64)
    requires
        is_clock_time(t),
    ensures
        ({
            ||| clock_showed(Some(t as u128))
            ||| t == 0 && clock_showed(None)
            ||| t == 0xffff_ffff_ffff_ffff && exists|n: u128| #[trigger]
                clock_showed(Some(n)) && n > 0xffff_ffff_ffff_ffff
        }),
{
    let nanos: Option<u128> = choose|nanos: Option<u128>| #[trigger]
        clock_showed(nanos) && t == reading_time(nanos);
    match nanos {
        Some(n) => {
            if n <= 0xffff_ffff_ffff_ffff {
                assert(n == t as u128);
            }
        },
        None => {},
    }
}

/// A later reading is never an earlier time.
pub proof fn law_times_follow_readings(a: u128, b: u128)
    requires
        a <= b,
    ensures
        reading_time(None) <= reading_time(Some(a)) <= reading_time(Some(b)),
        a < b <= 0xffff_ffff_ffff_ffff ==> reading_time(Some(a)) < reading_time(Some(b)),
{
}

} // verus!

//! The rest countdown: a pure projection of the rest duration, the moment
//! the rest began, and the current moment onto what the timer shows.

use vstd::prelude::*;
use crate::digits::dec_digits;
use crate::digits::u64_to_string;

verus! {

/// What the rest timer shows: either the rest is over, or a number of whole
/// seconds remains.
#[derive(Debug, Clone, Copy, PartialEq, Eq, Structural)]
pub enum Countdown {
    /// The rest duration has fully elapsed.
    Done,
    /// This many seconds remain, rounded to the nearest second (halves up).
    Remaining(u64),
}

/// The milliseconds of rest still left: the rest duration minus the time
/// elapsed from `rest_start` to `now`.  A clock reading from before the rest
/// began counts as no elapsed time.
pub open spec fn sp_left_ms(rest_ms: nat, rest_start: nat, now: nat) -> int {
    if now <= rest_start {
        rest_ms as int
    } else {
        rest_ms - (now - rest_start)
    }
}

/// What the timer shows, as a function of the remaining milliseconds:
/// `Done` once nothing is left, otherwise the remaining time in seconds,
/// rounded to the nearest whole second with halves rounding up.
pub open spec fn sp_countdown(rest_ms: nat, rest_start: nat, now: nat) -> Countdown {
    let left = sp_left_ms(rest_ms, rest_start, now);
    if left <= 0 {
        Countdown::Done
    } else {
        Countdown::Remaining((left / 1000 + if left % 1000 >= 500 {
            1int
        } else {
            0int
        }) as u64)
    }
}

/// Projects the rest countdown, as [`sp_countdown`] describes.  The
/// projection is pure: it reads nothing but its three arguments.
pub fn countdown(rest_ms: u64, rest_start: u64, now: u64) -> (c: Countdown)
    ensures
        c == sp_countdown(rest_ms as nat, rest_start as nat, now as nat),
{
    let elapsed: u64 = if now <= rest_start {
        0
    } else {
        now - rest_start
    };
    if elapsed >= rest_ms {
        Countdown::Done
    } else {
        let left: u64 = rest_ms - elapsed;
        let rounded: u64 = left / 1000 + if left % 1000 >= 500 {
            1
        } else {
            0
        };
        Countdown::Remaining(rounded)
    }
}

impl Countdown {
    /// The text the timer shows: `"Done"`, or the seconds in decimal.
    pub fn label(&self) -> (r: String)
        ensures
            self is Done ==> r@ == "Done"@,
            self matches Countdown::Remaining(n) ==> r@ == dec_digits(n as nat),
    {
        match self {
            Countdown::Done => String::from_str("Done"),
            Countdown::Remaining(n) => u64_to_string(*n),
        }
    }
}

} // verus!

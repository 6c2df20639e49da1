//! Lengths of time, and readings of a clock as the time since the clock began.

use vstd::prelude::*;

use crate::text;
use crate::text::two_digit_text;

verus! {

/// How many nanoseconds make a second.
pub const NANOS_PER_SEC: u32 = 1_000_000_000;

/// A length of time, counted in nanoseconds.
#[derive(Debug, Clone, Copy)]
pub struct Duration {
    secs: u64,
    nanos: u32,
}

impl View for Duration {
    type V = nat;

    closed spec fn view(&self) -> nat {
        self.secs as nat * NANOS_PER_SEC as nat + self.nanos as nat
    }
}

impl Duration {
    #[verifier::type_invariant]
    spec fn is_carried(self) -> bool {
        self.nanos < NANOS_PER_SEC
    }

    /// A number of whole seconds.
    pub fn from_secs(secs: u64) -> (duration: Self)
        ensures
            duration@ == secs * NANOS_PER_SEC,
    {
        Duration { secs, nanos: 0 }
    }

    /// A number of seconds and of nanoseconds that do not make another second.
    pub fn new(secs: u64, nanos: u32) -> (duration: Self)
        requires
            nanos < NANOS_PER_SEC,
        ensures
            duration@ == secs * NANOS_PER_SEC + nanos,
    {
        Duration { secs, nanos }
    }

    /// The whole seconds.
    pub fn as_secs(&self) -> (secs: u64)
        ensures
            secs as nat == self@ / NANOS_PER_SEC as nat,
    {
        proof {
            use_type_invariant(self);
        }
        self.secs
    }

    /// The nanoseconds beyond the whole seconds.
    pub fn subsec_nanos(&self) -> (nanos: u32)
        ensures
            nanos as nat == self@ % NANOS_PER_SEC as nat,
    {
        proof {
            use_type_invariant(self);
        }
        self.nanos
    }

    /// How much longer `self` is than `other`, nothing where it is not longer.
    pub fn since(&self, other: &Duration) -> (difference: Duration)
        ensures
            difference@ == elapsed(self@, other@),
    {
        proof {
            use_type_invariant(self);
            use_type_invariant(other);
        }
        if self.secs < other.secs || self.secs == other.secs && self.nanos <= other.nanos {
            Duration { secs: 0, nanos: 0 }
        } else if self.nanos >= other.nanos {
            Duration { secs: self.secs - other.secs, nanos: self.nanos - other.nanos }
        } else {
            Duration {
                secs: self.secs - other.secs - 1,
                nanos: NANOS_PER_SEC - other.nanos + self.nanos,
            }
        }
    }

    /// Whether `self` is longer than `other`.
    pub fn exceeds(&self, other: &Duration) -> (longer: bool)
        ensures
            longer == (self@ > other@),
    {
        proof {
            use_type_invariant(self);
            use_type_invariant(other);
        }
        self.secs > other.secs || self.secs == other.secs && self.nanos > other.nanos
    }
}

/// The time from one clock reading to another, nothing where the second is not later.
pub open spec fn elapsed(now: nat, since: nat) -> nat {
    if now > since {
        (now - since) as nat
    } else {
        0
    }
}

/// The minutes and the seconds of a length of time, without its whole hours.
pub open spec fn minutes_and_seconds(duration: nat) -> Seq<char> {
    let total = duration / NANOS_PER_SEC as nat;
    text::two_digits(total % 3600 / 60) + ":"@ + text::two_digits(total % 60)
}

/// A length of time in hours, minutes and seconds.
pub open spec fn full(duration: nat) -> Seq<char> {
    text::two_digits(duration / NANOS_PER_SEC as nat / 3600) + ":"@ + minutes_and_seconds(duration)
}

/// A length of time in minutes and seconds, with the hours in front once there is one.
pub open spec fn compact(duration: nat) -> Seq<char> {
    if duration / NANOS_PER_SEC as nat / 3600 > 0 {
        full(duration)
    } else {
        minutes_and_seconds(duration)
    }
}

/// Writes the minutes and the seconds of a length of time, without its whole hours.
fn minutes_and_seconds_text(duration: Duration) -> (text: String)
    ensures
        text@ == minutes_and_seconds(duration@),
{
    let total: u64 = duration.as_secs();
    let mut text = two_digit_text(total % 3600 / 60);
    text.append(":");
    text.append(two_digit_text(total % 60).as_str());
    text
}

/// Writes a length of time in hours, minutes and seconds.
pub fn format_full_duration(duration: Duration) -> (text: String)
    ensures
        text@ == full(duration@),
{
    let mut text = two_digit_text(duration.as_secs() / 3600);
    text.append(":");
    text.append(minutes_and_seconds_text(duration).as_str());
    text
}

/// Writes a length of time in minutes and seconds, with the hours in front once there is one.
pub fn format_compact_duration(duration: Duration) -> (text: String)
    ensures
        text@ == compact(duration@),
{
    if duration.as_secs() / 3600 > 0 {
        format_full_duration(duration)
    } else {
        minutes_and_seconds_text(duration)
    }
}

} // verus!

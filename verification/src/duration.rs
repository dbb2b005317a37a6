//! Lengths of time.
use vstd::prelude::*;

verus! {

/// How many nanoseconds there are in a second.
pub const NANOS_IN_SEC: u128 = 1_000_000_000;

/// How many nanoseconds there are in a millisecond.
pub const NANOS_IN_MILLI: u128 = 1_000_000;

/// The longest time, in nanoseconds: as many seconds as fit into 64 bits, and a bit less than
/// another one.
pub const LONGEST: u128 = 18_446_744_073_709_551_615_999_999_999;

/// A length of time in seconds and nanoseconds; the seconds fit into 64 bits.
#[derive(Clone, Copy, Debug, PartialEq, Eq, PartialOrd, Ord, Structural)]
pub struct Duration {
    nanos: u128,
}

impl View for Duration {
    type V = nat;

    closed spec fn view(&self) -> nat {
        self.nanos as nat
    }
}

impl Duration {
    #[verifier::type_invariant]
    spec fn well_formed(self) -> bool {
        self.nanos <= LONGEST
    }

    /// Some seconds and nanoseconds.
    pub fn new(secs: u64, subsec_nanos: u32) -> (duration: Self)
        requires
            subsec_nanos < NANOS_IN_SEC,
        ensures
            duration@ == secs * NANOS_IN_SEC + subsec_nanos,
    {
        Duration { nanos: secs as u128 * NANOS_IN_SEC + subsec_nanos as u128 }
    }

    /// Some milliseconds.
    pub fn from_millis(millis: u64) -> (duration: Self)
        ensures
            duration@ == millis * NANOS_IN_MILLI,
    {
        Duration { nanos: millis as u128 * NANOS_IN_MILLI }
    }

    /// The number of nanoseconds.
    pub fn as_nanos(&self) -> (nanos: u128)
        ensures
            nanos == self@,
            nanos <= LONGEST,
    {
        proof {
            use_type_invariant(self);
        }
        self.nanos
    }

    /// The number of whole milliseconds.
    pub fn as_millis(&self) -> (millis: u128)
        ensures
            millis == whole_millis(*self),
    {
        self.nanos / NANOS_IN_MILLI
    }
}

/// The number of whole milliseconds.
pub open spec fn whole_millis(duration: Duration) -> nat {
    duration@ / (NANOS_IN_MILLI as nat)
}

/// A number of milliseconds that fits into 64 bits; of a larger one, the low bits.
pub open spec fn low_millis(millis: nat) -> nat {
    millis % 0x1_0000_0000_0000_0000
}

/// The whole milliseconds of a length of time are as many as fit into it.
pub proof fn law_whole_millis(duration: Duration)
    ensures
        whole_millis(duration) * NANOS_IN_MILLI <= duration@,
        duration@ < (whole_millis(duration) + 1) * NANOS_IN_MILLI,
{
}

} // verus!

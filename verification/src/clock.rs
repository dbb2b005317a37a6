//! Readings of the monotonic clock.
use std::time::Instant;
use vstd::prelude::*;

verus! {

/// `std::time::Instant`: a reading of the clock.
#[verifier::external_type_specification]
#[verifier::external_body]
pub struct ExInstant(Instant);

/// `std::time::Instant::now`: the current reading of the clock. Nothing is known of it.
pub assume_specification[ Instant::now ]() -> Instant
;

} // verus!

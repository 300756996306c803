use std::time::Duration;
use std::time::Instant;

use vstd::prelude::*;

verus! {

/// `std::time::Instant`, carried through as an opaque value.
#[verifier::external_type_specification]
#[verifier::external_body]
pub struct ExInstant(Instant);

/// `std::time::Instant::now`: the current time. Nothing is stated of the
/// result; it depends on the clock.
pub assume_specification[ Instant::now ]() -> Instant;

/// `std::time::Instant::elapsed`: the time passed since the instant.
/// Nothing is stated of the result; it depends on the clock.
pub assume_specification[ Instant::elapsed ](instant: &Instant) -> Duration;

/// `core::time::Duration::as_micros`: the whole number of microseconds in
/// the duration. Nothing is stated of the result: the duration is opaque
/// here.
pub assume_specification[ Duration::as_micros ](duration: &Duration) -> u128;

/// When the previous frame started.
pub struct FrameTimer(pub Instant);

} // verus!

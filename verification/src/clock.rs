//! The monotonic clock of the standard library, as far as the tracker reads it.
//!
//! What the clock returns depends on the moment of the call, so none of the
//! declarations below promises anything of a reading: the tracker's contracts
//! hold whatever the clock says.

use std::time::{Duration, Instant};
use vstd::prelude::*;

verus! {

/// `std::time::Instant`, one reading of the monotonic clock. Proofs see
/// nothing inside it; two readings can only be told apart by `==`.
#[verifier::external_type_specification]
#[verifier::external_body]
pub struct ExInstant(Instant);

/// `Instant::now` reads the clock. Nothing is claimed of the reading.
pub assume_specification[ Instant::now ]() -> (now: Instant);

/// `Instant::elapsed` gives the time that has passed since the reading
/// `start` was taken. Nothing is claimed of its length.
pub assume_specification[ Instant::elapsed ](start: &Instant) -> (spent: Duration);

/// `Duration::as_nanos` gives the length of `span` in whole nanoseconds.
/// Nothing is claimed of the number.
pub assume_specification[ Duration::as_nanos ](span: &Duration) -> (nanos: u128);

} // verus!

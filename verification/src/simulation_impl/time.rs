//! Functionality for dealing with time measurement
use std::time::{Duration, Instant};
use vstd::prelude::*;

verus! {

/// A moment of the monotonic clock, as std measures it
#[verifier::external_type_specification]
#[verifier::external_body]
pub struct ExInstant(std::time::Instant);

/// Wrapper for [`Instant`], used to mock elapsed time
pub trait InstantWrapper {
    /// Returns the amount of time elapsed from another instant to this one.
    /// # Panics
    /// An implementation may panic if `earlier` is later than `self`.
    fn duration_since(&self, earlier: &Self) -> Duration;

    /// Returns the amount of time elapsed since this instant was created.
    fn elapsed(&self) -> Duration;

    /// Retrieve the wrapped [`Instant`]
    fn to_instant(&self) -> Instant;
}

} // verus!

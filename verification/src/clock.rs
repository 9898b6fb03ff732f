//! Reading the clock.

use std::time::{Duration, Instant};
use vstd::prelude::*;

verus! {

/// `std::time::Instant` is carried from where it was read to where it is asked how long ago that was.
#[verifier::external_type_specification]
#[verifier::external_body]
pub struct ExInstant(Instant);

/// `Instant::now` reads the clock; nothing is said of what it shows.
pub assume_specification[ Instant::now ]() -> Instant
;

/// `Instant::elapsed` tells how long ago an instant was read; nothing is said of how long that is.
pub assume_specification[ Instant::elapsed ](instant: &Instant) -> Duration
;

/// `Duration::as_nanos` gives a duration in nanoseconds; nothing is said of how long it is.
pub assume_specification[ Duration::as_nanos ](duration: &Duration) -> u128
;

/// The present instant, where it is wanted.
pub(crate) fn started(wanted: bool) -> (r: Option<Instant>)
    ensures
        r is Some == wanted,
{
    if wanted {
        Some(Instant::now())
    } else {
        None
    }
}

/// The nanoseconds since an instant; 0 where there is none.
pub(crate) fn elapsed_since(start: &Option<Instant>) -> (r: u128)
    ensures
        start is None ==> r == 0,
{
    match start {
        Some(start) => start.elapsed().as_nanos(),
        None => 0,
    }
}

} // verus!

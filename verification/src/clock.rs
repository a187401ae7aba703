use vstd::prelude::*;

verus! {

#[verifier::external_type_specification]
#[verifier::external_body]
pub struct ExInstant(std::time::Instant);

/// Calls `std::time::Instant::now`. Nothing is claimed of the instant it
/// returns: it depends on the machine's clock.
#[verifier::external_body]
pub(crate) fn instant_now() -> (t: std::time::Instant) {
    std::time::Instant::now()
}

/// Calls `std::time::Instant::duration_since` and reads the whole
/// milliseconds of the duration. Nothing is claimed of the number: the
/// instants are opaque readings of the clock.
#[verifier::external_body]
pub(crate) fn millis_between(earlier: &std::time::Instant, later: &std::time::Instant) -> (ms: u128) {
    later.duration_since(*earlier).as_millis()
}

} // verus!

use vstd::prelude::*;

verus! {

/// The nanoseconds since the Unix epoch, from `std::time::SystemTime::now`,
/// `duration_since(UNIX_EPOCH)` and `as_nanos`; any value may come back, as the
/// clock reads, and `None` where the clock reads a time before the epoch.
#[verifier::external_body]
pub(crate) fn nanos_since_epoch() -> Option<u128> {
    match std::time::SystemTime::now().duration_since(std::time::SystemTime::UNIX_EPOCH) {
        Ok(elapsed) => Some(elapsed.as_nanos()),
        Err(_) => None,
    }
}

} // verus!

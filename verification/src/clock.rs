use vstd::prelude::*;

verus! {

/// Milliseconds since the Unix epoch, as `SystemTime::now()` gives them (0 for a
/// clock set before the epoch). Nothing is promised of the value: it is the time.
#[verifier::external_body]
pub fn now_millis() -> u64 {
    std::time::SystemTime::now().duration_since(std::time::UNIX_EPOCH).unwrap_or_default().as_millis() as u64
}

/// Nanoseconds since the Unix epoch, as `SystemTime::now()` gives them (0 for a
/// clock set before the epoch). Nothing is promised of the value: it is the time.
#[verifier::external_body]
pub fn now_nanos() -> u128 {
    std::time::SystemTime::now().duration_since(std::time::UNIX_EPOCH).unwrap_or_default().as_nanos()
}

} // verus!

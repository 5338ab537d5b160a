//! Small helpers shared across the crate.
use vstd::prelude::*;

verus! {

/// Relies on `std::time::SystemTime::now` and `duration_since`: the current
/// time as whole seconds since the Unix epoch. Nothing can be promised of
/// the clock's reading.
#[verifier::external_body]
pub fn get_epoch_secs() -> u64 {
    let start = std::time::SystemTime::now();
    match start.duration_since(std::time::UNIX_EPOCH) {
        Ok(d) => d.as_secs(),
        Err(_) => 0,
    }
}

} // verus!

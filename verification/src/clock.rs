//! The crate's one source of wall-clock time.
//!
//! All verified logic takes time readings as plain nanosecond counts; this
//! module is the only place a reading is produced. Nothing is assumed about
//! the values: two consecutive readings may be equal or even decrease, and
//! every caller's contract holds for arbitrary readings.

use vstd::prelude::*;

verus! {

/// Relies on std::time::SystemTime::now, converted through duration_since to
/// nanoseconds since the Unix epoch, truncated to 64 bits. No contract: time
/// readings are arbitrary values to the verified logic.
#[verifier::external_body]
pub fn now_ns() -> u64 {
    match std::time::SystemTime::now().duration_since(std::time::SystemTime::UNIX_EPOCH) {
        Ok(d) => d.as_nanos() as u64,
        Err(_) => 0,
    }
}

} // verus!

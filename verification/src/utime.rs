//! A space-efficient timestamp with millisecond precision.
//!
//! Timestamps are the low 32 bits of the Unix-epoch millisecond count, so
//! they wrap; [`is_on_or_after`] orders two of them through the wrapped
//! distance, which is sound while they lie within [`EXPIRY`] of each other.

use vstd::prelude::*;

verus! {

/// If a timestamp is persisted for longer than this, its ordering against
/// fresh timestamps becomes unreliable.
pub const EXPIRY: u32 = u32::MAX / 4;

/// The wrapped distance from `before` to `after` on the 32-bit clock face.
pub open spec fn spec_wrapped_distance(after: u32, before: u32) -> int {
    if after >= before {
        after - before
    } else {
        0x1_0000_0000 - before + after
    }
}

/// An opaque timestamp with millisecond precision, read off the crate's
/// clock. Unlike the clock's raw reading it fits in 32 bits; nothing is
/// promised of its value.
pub fn now() -> (r: u32)
    ensures
        true,
{
    let ns = crate::clock::now_ns();
    let ms = ns / 1_000_000;
    (ms % 0x1_0000_0000) as u32
}

/// Whether `after` is equal to or later than `before`: their wrapped
/// distance is at most [`EXPIRY`], so a fresh timestamp sorts after any
/// timestamp taken up to `EXPIRY` milliseconds earlier, across wraparound.
pub fn is_on_or_after(after: u32, before: u32) -> (r: bool)
    ensures
        r == (spec_wrapped_distance(after, before) <= EXPIRY),
{
    let d: u32 = if after >= before {
        after - before
    } else {
        u32::MAX - before + after + 1
    };
    d <= EXPIRY
}

/// Wrapping addition of two timestamps.
pub fn add(a: u32, b: u32) -> (r: u32)
    ensures
        r as int == (a + b) % 0x1_0000_0000,
{
    if b <= u32::MAX - a {
        a + b
    } else {
        let r = a - (u32::MAX - b) - 1;
        assert(r as int == (a + b) % 0x1_0000_0000);
        r
    }
}

} // verus!

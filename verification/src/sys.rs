//! The two outside calls the library makes: reading the clock and drawing
//! a fresh identifier.  Everything that depends on their results takes the
//! value as an argument and is verified for every value.

use vstd::prelude::*;

verus! {

/// Milliseconds from `start` to `now`, zero when the clock went backward.
pub open spec fn elapsed_ms(now: u64, start: u64) -> u64 {
    if now >= start {
        (now - start) as u64
    } else {
        0
    }
}

/// Addition on instants that stops at the largest representable value.
pub open spec fn sat_add_u64(a: u64, b: u64) -> u64 {
    if a + b > 0xFFFF_FFFF_FFFF_FFFFu64 {
        0xFFFF_FFFF_FFFF_FFFFu64
    } else {
        (a + b) as u64
    }
}

pub fn elapsed_millis(now: u64, start: u64) -> (r: u64)
    ensures
        r == elapsed_ms(now, start),
{
    if now >= start {
        now - start
    } else {
        0
    }
}

pub fn saturating_add_u64(a: u64, b: u64) -> (r: u64)
    ensures
        r == sat_add_u64(a, b),
{
    if a > 0xFFFF_FFFF_FFFF_FFFFu64 - b {
        0xFFFF_FFFF_FFFF_FFFFu64
    } else {
        a + b
    }
}

/// Relies on `std::time::SystemTime::now`: the milliseconds elapsed since
/// the Unix epoch, zero if the clock reads earlier than the epoch.
/// Nothing can be promised of a clock reading, so nothing is.
#[verifier::external_body]
pub fn now_millis() -> u64 {
    match std::time::SystemTime::now().duration_since(std::time::UNIX_EPOCH) {
        Ok(d) => d.as_millis() as u64,
        Err(_) => 0,
    }
}

/// Relies on `uuid::Uuid::new_v4` and the hyphenated form its display
/// uses, which `format_hyphenated` in the uuid crate renders into exactly
/// 36 bytes of ASCII.  The value itself is random, so only its length is
/// stated.
#[verifier::external_body]
pub fn random_uuid_string() -> (r: String)
    ensures
        r@.len() == 36,
{
    uuid::Uuid::new_v4().to_string()
}

} // verus!

//! Wall-clock helpers: the verifier's clock reading and a time-derived
//! identifier.

use crate::digits::dec_digits;
use crate::digits::u128_to_decimal;
use vstd::prelude::*;

verus! {

/// Relies on std::time::SystemTime::now: the wall clock, read as whole
/// seconds since the Unix epoch. Nothing is promised of the value; a clock
/// set before the epoch reads as zero rather than failing.
#[verifier::external_body]
fn clock_unix_seconds() -> u64 {
    match std::time::SystemTime::now().duration_since(std::time::UNIX_EPOCH) {
        Ok(elapsed) => elapsed.as_secs(),
        Err(_) => 0,
    }
}

/// Relies on std::time::SystemTime::now: the wall clock, read as whole
/// nanoseconds since the Unix epoch. Nothing is promised of the value; a
/// clock set before the epoch reads as zero rather than failing.
#[verifier::external_body]
fn clock_unix_nanos() -> u128 {
    match std::time::SystemTime::now().duration_since(std::time::UNIX_EPOCH) {
        Ok(elapsed) => elapsed.as_nanos(),
        Err(_) => 0,
    }
}

/// Reads the wall clock in seconds since the Unix epoch. The value depends on
/// the machine's clock alone, so no more can be said of it.
pub fn get_time() -> u64 {
    clock_unix_seconds()
}

/// Builds an identifier unique for practical purposes: the given prefix, a
/// separating colon, and the wall clock's nanosecond reading in decimal.
pub fn generate_new_id(identifier: &str) -> (r: String)
    ensures
        exists|n: u128| r@ == identifier@ + seq![':'] + dec_digits(n as nat),
{
    let nanos = clock_unix_nanos();
    let mut r = String::from_str(identifier);
    r.append(":");
    let digits = u128_to_decimal(nanos);
    r.append(digits.as_str());
    proof {
        reveal_strlit(":");
        assert(":"@ =~= seq![':']);
        assert(r@ =~= identifier@ + seq![':'] + dec_digits(nanos as nat));
    }
    r
}

} // verus!

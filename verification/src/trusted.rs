//! What this library takes on trust from the standard library.
//!
//! Nothing here is proved. Each item says of one function of `std` what its
//! documentation says, and the proofs elsewhere rest on it.

use std::time::{Duration, SystemTime, SystemTimeError, UNIX_EPOCH};
use vstd::prelude::*;

verus! {

/// `std::time::SystemTime`, a reading of the system clock. Nothing is known
/// of what it holds.
#[verifier::external_type_specification]
#[verifier::external_body]
pub struct ExSystemTime(std::time::SystemTime);

/// `std::time::SystemTimeError`, which `duration_since` returns where the
/// second reading is later than the first.
#[verifier::external_type_specification]
#[verifier::external_body]
pub struct ExSystemTimeError(std::time::SystemTimeError);

/// `SystemTime::now` reads the system clock. Nothing is claimed of the
/// reading.
pub assume_specification[ std::time::SystemTime::now ]() -> (now: SystemTime);

/// `SystemTime::duration_since` with `UNIX_EPOCH` as the earlier time: the
/// time that has passed since the epoch, or an error where the clock stands
/// before it. Nothing is claimed of which it is.
#[verifier::external_body]
pub(crate) fn since_unix_epoch(now: &SystemTime) -> (elapsed: Result<Duration, SystemTimeError>) {
    now.duration_since(UNIX_EPOCH)
}

/// The whole seconds that a duration holds: what `Duration::as_secs` gives
/// for it. A duration is a value, and the same duration gives the same
/// seconds.
pub uninterp spec fn duration_secs(elapsed: Duration) -> u64;

/// The part of a duration below a second, in nanoseconds: what
/// `Duration::subsec_nanos` gives for it.
pub uninterp spec fn duration_subsec_nanos(elapsed: Duration) -> u32;

/// `Duration::as_secs` gives the whole seconds of the duration, which depend
/// on the duration alone. Nothing is claimed of their number.
pub assume_specification[ std::time::Duration::as_secs ](elapsed: &Duration) -> (secs: u64)
    ensures
        secs == duration_secs(*elapsed),
;

/// `Duration::subsec_nanos` gives the part of the duration below a second,
/// in nanoseconds, which depends on the duration alone and is less than one
/// billion.
pub assume_specification[ std::time::Duration::subsec_nanos ](elapsed: &Duration) -> (nanos: u32)
    ensures
        nanos == duration_subsec_nanos(*elapsed),
        nanos < 1_000_000_000,
;

/// `String::push` appends the character to the end of the string and leaves
/// the rest as it was.
pub assume_specification[ std::string::String::push ](s: &mut std::string::String, c: char)
    ensures
        final(s)@ == old(s)@.push(c),
;

} // verus!

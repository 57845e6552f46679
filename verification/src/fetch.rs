//! The blob fetcher's retry policy: what is retried, how often, and with
//! what backoff. The transport itself is the embedding application's; it
//! reports each failure here and obeys the decision.

use vstd::prelude::*;

use crate::errors::Error;

verus! {

/// Is one more attempt made after this failure? Only transient transport
/// failures are retried, and only while the attempt budget lasts; digest
/// mismatches and protocol errors are never retried.
pub fn should_retry(e: &Error, attempts_made: u32, max_attempts: u32) -> (r: bool)
    ensures
        r == (e is TransientIo && attempts_made < max_attempts),
{
    e.is_retryable() && attempts_made < max_attempts
}

/// The backoff multiplier before the given retry: doubling from one,
/// capped at sixty-four.
pub open spec fn backoff_factor(attempt: u32) -> u64 {
    if attempt == 0 {
        1
    } else if attempt == 1 {
        2
    } else if attempt == 2 {
        4
    } else if attempt == 3 {
        8
    } else if attempt == 4 {
        16
    } else if attempt == 5 {
        32
    } else {
        64
    }
}

/// How long to wait before retry number `attempt`, in milliseconds:
/// exponential backoff on `base_ms`, capped at sixty-four times the base.
pub fn backoff_ms(attempt: u32, base_ms: u64) -> (r: u64)
    requires
        base_ms < 0x0200_0000_0000_0000,
    ensures
        r == base_ms * backoff_factor(attempt),
{
    let factor: u64 = if attempt == 0 {
        1
    } else if attempt == 1 {
        2
    } else if attempt == 2 {
        4
    } else if attempt == 3 {
        8
    } else if attempt == 4 {
        16
    } else if attempt == 5 {
        32
    } else {
        64
    };
    base_ms * factor
}

} // verus!

//! What the library decides about HTTP responses and retries.
use vstd::prelude::*;
use crate::error::GfileError;

verus! {

broadcast use vstd::string::group_string_axioms;

/// An HTTP status is a success when it lies in 200..=299.
pub open spec fn spec_is_success(status: u16) -> bool {
    200 <= status <= 299
}

/// Failures worth another attempt: network failures, and statuses that say the
/// server is busy or failing (408, 429 and every 5xx).
pub open spec fn spec_is_retryable(e: GfileError) -> bool {
    match e {
        GfileError::Network { .. } => true,
        GfileError::HttpStatus { status, .. } => status == 408 || status == 429 || status >= 500,
        _ => false,
    }
}

/// Back-off before retry number `attempt` (counted from 0): 500 ms, doubled
/// for each earlier retry, at most 8 s.
pub open spec fn spec_retry_delay_ms(attempt: u32) -> u64 {
    if attempt == 0 {
        500
    } else if attempt == 1 {
        1000
    } else if attempt == 2 {
        2000
    } else if attempt == 3 {
        4000
    } else {
        8000
    }
}

/// Whether an HTTP status counts as success.
pub fn is_success_status(status: u16) -> (ok: bool)
    ensures
        ok == spec_is_success(status),
{
    200 <= status && status <= 299
}

/// Whether another attempt may cure this error.
pub fn is_retryable(error: &GfileError) -> (r: bool)
    ensures
        r == spec_is_retryable(*error),
{
    match error {
        GfileError::Network { .. } => true,
        GfileError::HttpStatus { status, .. } => *status == 408 || *status == 429 || *status >= 500,
        _ => false,
    }
}

/// How long to wait, in milliseconds, before retry number `attempt`.
pub fn retry_delay_ms(attempt: u32) -> (ms: u64)
    ensures
        ms == spec_retry_delay_ms(attempt),
        500 <= ms <= 8000,
{
    if attempt == 0 {
        500
    } else if attempt == 1 {
        1000
    } else if attempt == 2 {
        2000
    } else if attempt == 3 {
        4000
    } else {
        8000
    }
}

/// The error for an unexpected HTTP status of a request to `url`.
pub fn status_error(status: u16, url: &str) -> (e: GfileError)
    ensures
        e matches GfileError::HttpStatus { status: s, url: u } && s == status && u@ == url@,
{
    GfileError::HttpStatus { status, url: String::from_str(url) }
}

/// Back-off doubles from half a second and stops growing at 8 seconds.
pub proof fn backoff_doubles_up_to_eight_seconds(attempt: u32)
    ensures
        spec_retry_delay_ms(0) == 500,
        attempt < u32::MAX ==> spec_retry_delay_ms((attempt + 1) as u32) == if 2 * spec_retry_delay_ms(
            attempt,
        ) <= 8000 {
            2 * spec_retry_delay_ms(attempt)
        } else {
            8000
        },
{
}

/// Only network failures and the statuses 408, 429 and 5xx are retried:
/// any other status from 100 to 499 ends the request.
pub proof fn only_busy_statuses_are_retried(status: u16, url: String)
    ensures
        (100 <= status <= 499 && status != 408 && status != 429) ==> !spec_is_retryable(
            GfileError::HttpStatus { status, url },
        ),
        500 <= status ==> spec_is_retryable(GfileError::HttpStatus { status, url }),
{
}

} // verus!

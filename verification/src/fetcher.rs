use vstd::prelude::*;
use vstd::arithmetic::power2::pow2;
use crate::types::PipelineError;

verus! {

/// Capability contract for fetching one page of raw content. The pipeline is
/// verified against this interface; an implementation doing real network work
/// lives with the driver code outside the library.
pub trait Fetcher {
    /// Fetch the raw content behind `url`, or report why it could not be had.
    fn fetch_page(&self, url: &str) -> Result<String, PipelineError>;
}

/// How long to wait before retry attempt `attempt` of a network fetch:
/// `2^(attempt - 1)` time units, exponential backoff without jitter.
pub fn backoff_delay_secs(attempt: u32) -> (r: u64)
    requires
        1 <= attempt <= 63,
    ensures
        r == pow2((attempt - 1) as nat),
{
    let e: u32 = attempt - 1;
    proof {
        vstd::bits::lemma_u64_pow2_no_overflow(e as nat);
        vstd::bits::lemma_u64_shl_is_mul(1u64, e as u64);
    }
    1u64 << (e as u64)
}

/// Decide what a fetch loop does once attempt `failed_attempt` (counted from
/// zero) has failed: wait the returned backoff and try again, or — when the
/// retry budget is spent — give up, which surfaces as `FetchExhausted` for
/// the enclosing page.
pub fn retry_decision(failed_attempt: u32, max_retries: u32) -> (r: Option<u64>)
    requires
        max_retries <= 63,
    ensures
        failed_attempt < max_retries ==> r == Some(pow2(failed_attempt as nat) as u64),
        failed_attempt >= max_retries ==> r is None,
{
    if failed_attempt < max_retries {
        let w = backoff_delay_secs(failed_attempt + 1);
        proof {
            vstd::bits::lemma_u64_pow2_no_overflow(failed_attempt as nat);
        }
        Some(w)
    } else {
        None
    }
}

} // verus!

//! Waiting out rate limits: how long to wait before retrying a request that an
//! upstream service refused with "too many requests".
//!
//! Durations are counted in nanoseconds, as `std::time::Duration` counts them;
//! `MAX_DURATION_NANOS` is the longest `Duration`.
use vstd::prelude::*;
use crate::digits::{parse_u64, parse_u64_spec};
use crate::text::{trim, trimmed_chars};

verus! {

/// Nanoseconds in a second.
pub const NANOS_PER_SEC: u128 = 1_000_000_000u128;

/// The longest `Duration` (`Duration::MAX`), in nanoseconds.
pub const MAX_DURATION_NANOS: u128 = 18_446_744_073_709_551_615u128 * 1_000_000_000u128
    + 999_999_999u128;

/// How often, and how long in total, to wait out rate limiting.
#[derive(Debug, Clone, Copy, PartialEq, Eq)]
pub struct RateLimitRetryPolicy {
    /// The number of retries; attempts are counted from 1.
    pub max_retries: u32,
    /// The longest total wait, in nanoseconds.
    pub max_total_wait: u128,
    /// The first wait when the service names none, in nanoseconds.
    pub base_delay: u128,
    /// The longest single wait, in nanoseconds.
    pub max_delay: u128,
}

impl RateLimitRetryPolicy {
    /// Every duration of the policy is one that `Duration` can hold.
    pub open spec fn wf(&self) -> bool {
        &&& self.max_total_wait <= MAX_DURATION_NANOS
        &&& self.base_delay <= MAX_DURATION_NANOS
        &&& self.max_delay <= MAX_DURATION_NANOS
    }

    /// Five retries, waits starting at one second, at most 16 seconds each
    /// and one minute in all.
    pub fn conservative() -> (p: Self)
        ensures
            p.wf(),
            p.max_retries == 5,
            p.max_total_wait == 60 * NANOS_PER_SEC,
            p.base_delay == NANOS_PER_SEC,
            p.max_delay == 16 * NANOS_PER_SEC,
    {
        RateLimitRetryPolicy {
            max_retries: 5,
            max_total_wait: 60 * NANOS_PER_SEC,
            base_delay: NANOS_PER_SEC,
            max_delay: 16 * NANOS_PER_SEC,
        }
    }
}

/// `2^n`.
pub open spec fn pow2(n: nat) -> nat
    decreases n,
{
    if n == 0 {
        1
    } else {
        2 * pow2((n - 1) as nat)
    }
}

/// The exponent of the backoff for an attempt: `attempt - 1`, at least 0 and
/// at most 10.
pub open spec fn backoff_exponent(attempt: u32) -> nat {
    if attempt <= 1 {
        0
    } else if attempt - 1 >= 10 {
        10
    } else {
        (attempt - 1) as nat
    }
}

/// The smaller of two numbers.
pub open spec fn min_int(a: int, b: int) -> int {
    if a <= b {
        a
    } else {
        b
    }
}

/// The exponential backoff for an attempt: `base * 2^(attempt - 1)`, with the
/// exponent capped at 10 and the product saturating at `Duration::MAX`.
pub open spec fn exponential_delay_spec(base: int, attempt: u32) -> int {
    min_int(base * pow2(backoff_exponent(attempt)), MAX_DURATION_NANOS as int)
}

/// The number of seconds that a `Retry-After` header value asks for: the
/// trimmed value read as a `u64`.
pub open spec fn retry_after_spec(value: Option<Seq<char>>) -> Option<u64> {
    match value {
        Some(v) => parse_u64_spec(trim(v)),
        None => None,
    }
}

/// The wait before the next retry, or `None` to give up: no wait once the
/// attempt exceeds the retries or the total wait is used up; otherwise the
/// `Retry-After` seconds, or the capped exponential backoff when the service
/// named none, capped by the longest single wait and by what is left of the
/// total wait; no wait when that comes to zero.
pub open spec fn next_delay_spec(
    retry_after: Option<u64>,
    attempt: u32,
    total_waited: int,
    policy: RateLimitRetryPolicy,
) -> Option<int> {
    if attempt > policy.max_retries || total_waited >= policy.max_total_wait {
        None
    } else {
        let fallback = min_int(
            exponential_delay_spec(policy.base_delay as int, attempt),
            policy.max_delay as int,
        );
        let requested = match retry_after {
            Some(secs) => min_int(secs * NANOS_PER_SEC, policy.max_delay as int),
            None => fallback,
        };
        let remaining = policy.max_total_wait - total_waited;
        let delay = min_int(requested, remaining);
        if delay == 0 {
            None
        } else {
            Some(delay)
        }
    }
}

/// `2^exponent` for an exponent of at most 10.
fn pow2_exec(exponent: u32) -> (r: u128)
    requires
        exponent <= 10,
    ensures
        r == pow2(exponent as nat),
        r <= 1024,
{
    let mut r: u128 = 1;
    let mut i: u32 = 0;
    while i < exponent
        invariant
            i <= exponent <= 10,
            r == pow2(i as nat),
            r <= 1024,
        decreases exponent - i,
    {
        proof {
            lemma_pow2_le_1024((i + 1) as nat);
        }
        r = r * 2;
        i = i + 1;
    }
    r
}

proof fn lemma_pow2_le_1024(n: nat)
    requires
        n <= 10,
    ensures
        pow2(n) <= 1024,
    decreases n,
{
    if n > 0 {
        lemma_pow2_le_1024((n - 1) as nat);
        assert(pow2((n - 1) as nat) <= pow2(9)) by {
            lemma_pow2_monotone((n - 1) as nat, 9);
        }
        reveal_with_fuel(pow2, 10);
    }
}

proof fn lemma_pow2_monotone(a: nat, b: nat)
    requires
        a <= b,
    ensures
        pow2(a) <= pow2(b),
    decreases b,
{
    if a < b {
        lemma_pow2_monotone(a, (b - 1) as nat);
    }
}

/// The capped exponential backoff for an attempt (`exponential_delay_spec`).
pub fn exponential_delay(base: u128, attempt: u32) -> (r: u128)
    requires
        base <= MAX_DURATION_NANOS,
    ensures
        r == exponential_delay_spec(base as int, attempt),
{
    let exponent: u32 = if attempt <= 1 {
        0
    } else if attempt - 1 >= 10 {
        10
    } else {
        attempt - 1
    };
    let factor = pow2_exec(exponent);
    assert(base * factor <= MAX_DURATION_NANOS * 1024) by (nonlinear_arith)
        requires
            base <= MAX_DURATION_NANOS,
            factor <= 1024,
    ;
    let product = base * factor;
    if product <= MAX_DURATION_NANOS {
        product
    } else {
        MAX_DURATION_NANOS
    }
}

/// The seconds named by a `Retry-After` header value (`retry_after_spec`).
pub fn retry_after_secs(value: Option<&str>) -> (r: Option<u64>)
    ensures
        r == retry_after_spec(
            match value {
                Some(v) => Some(v@),
                None => None,
            },
        ),
{
    match value {
        Some(v) => {
            let t = trimmed_chars(v);
            parse_u64(&t)
        },
        None => None,
    }
}

/// The wait before retrying a rate-limited request (`next_delay_spec`), given
/// the `Retry-After` header value, if any, the attempt (counted from 1) and the
/// time waited so far.
pub fn next_rate_limit_delay(
    retry_after: Option<&str>,
    attempt: u32,
    total_waited: u128,
    policy: RateLimitRetryPolicy,
) -> (r: Option<u128>)
    requires
        policy.wf(),
        total_waited <= MAX_DURATION_NANOS,
    ensures
        r == (match next_delay_spec(
            retry_after_spec(
                match retry_after {
                    Some(v) => Some(v@),
                    None => None,
                },
            ),
            attempt,
            total_waited as int,
            policy,
        ) {
            Some(d) => Some(d as u128),
            None => None,
        }),
        r matches Some(d) ==> 0 < d <= policy.max_delay,
        r matches Some(d) ==> total_waited + d <= policy.max_total_wait,
        attempt > policy.max_retries ==> r is None,
        total_waited >= policy.max_total_wait ==> r is None,
{
    if attempt > policy.max_retries || total_waited >= policy.max_total_wait {
        return None;
    }
    let exp = exponential_delay(policy.base_delay, attempt);
    let fallback = if exp <= policy.max_delay {
        exp
    } else {
        policy.max_delay
    };
    let requested = match retry_after_secs(retry_after) {
        Some(secs) => {
            let nanos = (secs as u128) * NANOS_PER_SEC;
            if nanos <= policy.max_delay {
                nanos
            } else {
                policy.max_delay
            }
        },
        None => fallback,
    };
    let remaining = policy.max_total_wait - total_waited;
    let delay = if requested <= remaining {
        requested
    } else {
        remaining
    };
    if delay == 0 {
        None
    } else {
        Some(delay)
    }
}

} // verus!

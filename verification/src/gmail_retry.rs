//! Retry policy for transient Gmail API failures: bounded exponential
//! backoff with full jitter, and which answers are worth retrying.
//!
//! Delays are counted in nanoseconds, as `std::time::Duration` counts them,
//! and saturate where `Duration` saturates.

use vstd::prelude::*;
use crate::text::{parse_u64, parse_u64_spec, string_of, trim, trim_str};
use crate::time::{parse_rfc2822_seconds, rfc2822_seconds, since_epoch, subsec_nanos, system_now, utc_now_seconds};

verus! {

/// The most nanoseconds a `Duration` holds: `u64::MAX` seconds and
/// 999 999 999 nanoseconds.
pub const MAX_DELAY_NANOS: u128 = 18446744073709551615999999999u128;

/// A span of time in nanoseconds.
#[derive(Debug, Clone, Copy, PartialEq, Eq, Structural)]
pub struct Delay {
    pub nanos: u128,
}

impl Delay {
    pub open spec fn wf(self) -> bool {
        self.nanos <= MAX_DELAY_NANOS
    }

    /// `ms` milliseconds.
    pub fn from_millis(ms: u64) -> (d: Delay)
        ensures
            d.nanos == ms * 1_000_000,
            d.wf(),
    {
        Delay { nanos: ms as u128 * 1_000_000 }
    }

    /// `s` seconds.
    pub fn from_secs(s: u64) -> (d: Delay)
        ensures
            d.nanos == s * 1_000_000_000,
            d.wf(),
    {
        Delay { nanos: s as u128 * 1_000_000_000 }
    }

    /// The length in nanoseconds.
    pub fn as_nanos(&self) -> (n: u128)
        ensures
            n == self.nanos,
    {
        self.nanos
    }
}

/// Bounded exponential backoff with jitter.
#[derive(Debug, Clone, Copy)]
pub struct RetryPolicy {
    /// Total attempts, including the first one. `1` disables retrying.
    pub max_attempts: u32,
    /// Delay before the second attempt; doubles after each failure.
    pub base_delay: Delay,
    /// Upper bound on any single delay, before jitter.
    pub max_delay: Delay,
}

impl Default for RetryPolicy {
    fn default() -> (p: RetryPolicy)
        ensures
            p.max_attempts == 4,
            p.base_delay.nanos == 500_000_000,
            p.max_delay.nanos == 16_000_000_000,
    {
        RetryPolicy { max_attempts: 4, base_delay: Delay::from_millis(500), max_delay: Delay::from_secs(16) }
    }
}

/// `2^e`.
pub open spec fn two_pow(e: nat) -> nat
    decreases e,
{
    if e == 0 {
        1
    } else {
        2 * two_pow((e - 1) as nat)
    }
}

proof fn lemma_two_pow_mono(a: nat, b: nat)
    requires
        a <= b,
    ensures
        two_pow(a) <= two_pow(b),
    decreases b - a,
{
    if a < b {
        lemma_two_pow_mono(a, (b - 1) as nat);
    }
}

/// `2u32.saturating_pow(e)`: `2^e`, or `u32::MAX` when that does not fit.
pub open spec fn sat_pow2(e: nat) -> nat {
    if two_pow(e) > u32::MAX {
        u32::MAX as nat
    } else {
        two_pow(e)
    }
}

fn saturating_pow2(e: u32) -> (r: u32)
    ensures
        r == sat_pow2(e as nat),
        r >= 1,
{
    let mut k: u32 = 1;
    let mut i: u32 = 0;
    while i < e
        invariant
            i <= e,
            k == two_pow(i as nat),
            k >= 1,
        decreases e - i,
    {
        if k > u32::MAX / 2 {
            proof {
                lemma_two_pow_mono((i + 1) as nat, e as nat);
            }
            return u32::MAX;
        }
        k = k * 2;
        i = i + 1;
    }
    k
}

pub open spec fn min_nat(a: nat, b: nat) -> nat {
    if a <= b {
        a
    } else {
        b
    }
}

/// The delay before retry number `attempt` (1 is the first retry), before
/// jitter: the base delay doubled `attempt - 1` times (the factor saturating
/// at `u32::MAX`, the product at the largest `Duration`), capped at the
/// maximum delay.
pub open spec fn capped_delay(p: RetryPolicy, attempt: u32) -> nat {
    let e: nat = if attempt == 0 {
        0
    } else {
        (attempt - 1) as nat
    };
    min_nat(min_nat((p.base_delay.nanos as nat) * sat_pow2(e), MAX_DELAY_NANOS as nat), p.max_delay.nanos as nat)
}

/// Full jitter in `[capped / 2, capped]`: half the delay, plus the clock's
/// sub-second nanoseconds modulo the other half (taken modulo `2^64`, at
/// least 1).
pub open spec fn jitter_spec(capped: nat, clock: nat) -> nat {
    let half = capped / 2;
    let spread = (capped - half) as nat;
    if spread == 0 {
        capped
    } else {
        let m = spread % 0x1_0000_0000_0000_0000;
        half + clock % (if m == 0 {
            1
        } else {
            m
        })
    }
}

/// Jitter of `capped` with the clock reading `clock_nanos` (see
/// [`jitter_spec`]).
pub fn jitter_with(capped: Delay, clock_nanos: u64) -> (d: Delay)
    requires
        capped.wf(),
    ensures
        d.nanos == jitter_spec(capped.nanos as nat, clock_nanos as nat),
        capped.nanos / 2 <= d.nanos <= capped.nanos,
        d.wf(),
{
    let half = capped.nanos / 2;
    let spread = capped.nanos - half;
    if spread == 0 {
        return capped;
    }
    let m = spread % 0x1_0000_0000_0000_0000u128;
    let m64 = m as u64;
    let modulus: u64 = if m64 == 0 {
        1
    } else {
        m64
    };
    let extra = clock_nanos % modulus;
    assert(extra < modulus);
    assert(modulus <= spread);
    Delay { nanos: half + extra as u128 }
}

/// The sub-second nanoseconds of the wall clock (0 before the epoch).
fn clock_nanos() -> (n: u64)
    ensures
        n < 1_000_000_000,
{
    match since_epoch(system_now()) {
        Some(d) => subsec_nanos(d) as u64,
        None => 0,
    }
}

impl RetryPolicy {
    /// Near-zero delays, for tests that exercise retrying without sleeping.
    pub fn fast() -> (p: RetryPolicy)
        ensures
            p.max_attempts == 4,
            p.base_delay.nanos == 1_000_000,
            p.max_delay.nanos == 4_000_000,
    {
        RetryPolicy { max_attempts: 4, base_delay: Delay::from_millis(1), max_delay: Delay::from_millis(4) }
    }

    /// The delay before retry number `attempt` before jitter (see
    /// [`capped_delay`]).
    pub fn capped_for(&self, attempt: u32) -> (d: Delay)
        requires
            self.base_delay.wf(),
            self.max_delay.wf(),
        ensures
            d.nanos == capped_delay(*self, attempt),
            d.wf(),
    {
        let e: u32 = if attempt == 0 {
            0
        } else {
            attempt - 1
        };
        let factor = saturating_pow2(e);
        let exp: u128 = if self.base_delay.nanos > MAX_DELAY_NANOS / (factor as u128) {
            proof {
                assert(self.base_delay.nanos * factor > MAX_DELAY_NANOS) by (nonlinear_arith)
                    requires
                        self.base_delay.nanos > MAX_DELAY_NANOS / (factor as u128),
                        factor >= 1,
                ;
            }
            MAX_DELAY_NANOS
        } else {
            proof {
                assert(self.base_delay.nanos * factor <= MAX_DELAY_NANOS) by (nonlinear_arith)
                    requires
                        self.base_delay.nanos <= MAX_DELAY_NANOS / (factor as u128),
                        factor >= 1,
                ;
            }
            self.base_delay.nanos * (factor as u128)
        };
        let capped = if exp <= self.max_delay.nanos {
            exp
        } else {
            self.max_delay.nanos
        };
        Delay { nanos: capped }
    }

    /// The delay before retry number `attempt` (1-based: 1 is the first
    /// retry): the capped delay with full jitter from the wall clock.
    pub fn delay_for(&self, attempt: u32) -> (d: Delay)
        requires
            self.base_delay.wf(),
            self.max_delay.wf(),
        ensures
            exists|clock: nat| clock < 1_000_000_000 && d.nanos == jitter_spec(capped_delay(*self, attempt), clock),
            capped_delay(*self, attempt) / 2 <= d.nanos <= capped_delay(*self, attempt),
            d.nanos <= self.max_delay.nanos,
    {
        let capped = self.capped_for(attempt);
        let clock = clock_nanos();
        let d = jitter_with(capped, clock);
        assert(d.nanos == jitter_spec(capped_delay(*self, attempt), clock as nat));
        d
    }
}

/// Whether a response status is worth retrying: 429 (quota) or a 5xx.
pub open spec fn retryable_status(status: u16) -> bool {
    status == 429 || (500 <= status <= 599)
}

/// Whether a response status is worth retrying: 429 is the quota case, 5xx
/// Gmail's transient backend errors; anything else is a real answer.
pub fn is_retryable(status: u16) -> (r: bool)
    ensures
        r == retryable_status(status),
{
    status == 429 || (500 <= status && status <= 599)
}

/// Whether attempt number `attempt` is the last one: the attempts are used
/// up, or the request cannot be sent twice.
pub fn is_last_attempt(attempt: u32, max_attempts: u32, clonable: bool) -> (r: bool)
    ensures
        r == (attempt >= max_attempts || !clonable),
{
    attempt >= max_attempts || !clonable
}

/// How long to wait after a retryable status: the server's `Retry-After`
/// when it sent one, else the policy's delay for this attempt.
pub fn wait_after_status(policy: &RetryPolicy, attempt: u32, retry_after: Option<Delay>) -> (d: Delay)
    requires
        policy.base_delay.wf(),
        policy.max_delay.wf(),
    ensures
        match retry_after {
            Some(w) => d == w,
            None => capped_delay(*policy, attempt) / 2 <= d.nanos <= capped_delay(*policy, attempt),
        },
{
    match retry_after {
        Some(w) => w,
        None => policy.delay_for(attempt),
    }
}

/// The wait a `Retry-After` value asks for at Unix time `now`, in seconds:
/// its trimmed text as a number of seconds, else the time until the RFC 2822
/// date it names, when that is in the future.
pub open spec fn retry_after_secs(raw: Seq<char>, now: i64) -> Option<int> {
    let t = trim(raw);
    match parse_u64_spec(t) {
        Some(secs) => Some(secs as int),
        None => match rfc2822_seconds(t) {
            Some(when) => if when - now > 0 {
                Some(when - now)
            } else {
                None
            },
            None => None,
        },
    }
}

/// The wait a `Retry-After` header value asks for at Unix time `now` (see
/// [`retry_after_secs`]).
pub fn retry_after_at(raw: &str, now: i64) -> (r: Option<Delay>)
    ensures
        match retry_after_secs(raw@, now) {
            Some(secs) => r matches Some(d) && d.nanos == secs * 1_000_000_000 && d.wf(),
            None => r is None,
        },
{
    let t = string_of(&trim_str(raw));
    match parse_u64(t.as_str()) {
        Some(secs) => Some(Delay::from_secs(secs)),
        None => match parse_rfc2822_seconds(t.as_str()) {
            Some(when) => {
                let delta: i128 = when as i128 - now as i128;
                if delta > 0 {
                    Some(Delay::from_secs(delta as u64))
                } else {
                    None
                }
            },
            None => None,
        },
    }
}

/// The wait a `Retry-After` header value asks for now (see
/// [`retry_after_at`]): a number of seconds is taken as is; a date is
/// measured from the clock.
pub fn retry_after(raw: &str) -> (r: Option<Delay>)
    ensures
        exists|now: i64| match #[trigger] retry_after_secs(raw@, now) {
            Some(secs) => r matches Some(d) && d.nanos == secs * 1_000_000_000,
            None => r is None,
        },
        parse_u64_spec(trim(raw@)) matches Some(secs) ==> (r matches Some(d) && d.nanos == secs * 1_000_000_000),
{
    let now = utc_now_seconds();
    retry_after_at(raw, now)
}

/// However many attempts have failed, a backoff delay never exceeds the
/// policy's maximum delay.
pub proof fn lemma_delay_bounded(p: RetryPolicy, attempt: u32, clock: nat)
    ensures
        jitter_spec(capped_delay(p, attempt), clock) <= p.max_delay.nanos,
        capped_delay(p, attempt) / 2 <= jitter_spec(capped_delay(p, attempt), clock),
{
    let c = capped_delay(p, attempt);
    let half = c / 2;
    let spread = (c - half) as nat;
    if spread != 0 {
        let m = spread % 0x1_0000_0000_0000_0000;
        let md: nat = if m == 0 {
            1
        } else {
            m
        };
        assert(clock % md < md);
        assert(md <= spread);
    }
}

/// The delay before jitter grows with the attempt number until it reaches
/// the maximum.
pub proof fn lemma_capped_delay_grows(p: RetryPolicy, a: u32, b: u32)
    requires
        1 <= a <= b,
    ensures
        capped_delay(p, a) <= capped_delay(p, b),
{
    lemma_two_pow_mono((a - 1) as nat, (b - 1) as nat);
    let fa = sat_pow2((a - 1) as nat);
    let fb = sat_pow2((b - 1) as nat);
    assert(fa <= fb);
    assert(p.base_delay.nanos * fa <= p.base_delay.nanos * fb) by (nonlinear_arith)
        requires
            fa <= fb,
    ;
}

} // verus!

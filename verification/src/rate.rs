//! Rate-limiter configuration: derive a refill interval and refill
//! amount from a target request rate.
//!
//! Starting from one refill of `rps` tokens per 1000 ms, both numbers
//! are divided by ten while the amount stays integral and the interval
//! stays above 10 ms. The resulting pair preserves the target rate
//! exactly while using the smallest token batch the rate admits.

use vstd::prelude::*;

verus! {

/// A refill schedule for a token bucket: `refill` tokens are added
/// every `interval_ms` milliseconds.
pub struct RateLimitConfig {
    pub interval_ms: u64,
    pub refill: u64,
}

/// The refill interval chosen for target rate `rps`: the smallest of
/// 10, 100 and 1000 ms for which the refill amount stays integral.
pub open spec fn spec_rate_interval(rps: int) -> int {
    if rps % 100 == 0 {
        10
    } else if rps % 10 == 0 {
        100
    } else {
        1000
    }
}

/// The refill amount chosen for target rate `rps`.
pub open spec fn spec_rate_refill(rps: int) -> int {
    if rps % 100 == 0 {
        rps / 100
    } else if rps % 10 == 0 {
        rps / 10
    } else {
        rps
    }
}

/// Derives the refill schedule for a target rate of `rps` requests per
/// second. The schedule reproduces the target rate exactly:
/// `refill / interval_ms == rps / 1000`.
pub fn rate_limiter_config(rps: u64) -> (c: RateLimitConfig)
    requires
        1 <= rps,
    ensures
        c.interval_ms == spec_rate_interval(rps as int),
        c.refill == spec_rate_refill(rps as int),
        c.refill * 1000 == rps * c.interval_ms,
        1 <= c.refill,
        c.interval_ms == 10 || c.interval_ms == 100 || c.interval_ms == 1000,
{
    if rps % 100 == 0 {
        RateLimitConfig { interval_ms: 10, refill: rps / 100 }
    } else if rps % 10 == 0 {
        RateLimitConfig { interval_ms: 100, refill: rps / 10 }
    } else {
        RateLimitConfig { interval_ms: 1000, refill: rps }
    }
}

/// The live state of the token bucket between two refill ticks: the
/// tokens still available, and the admissions granted since the last
/// tick. The harness performs the actual waiting; this state decides
/// when an admission may proceed.
pub struct BucketState {
    pub refill: u64,
    pub tokens: u64,
    pub granted_this_interval: u64,
}

impl BucketState {
    /// The bucket invariant: what a refill tick made available is
    /// never exceeded — the tokens still held and the admissions
    /// already granted together stay within one refill amount.
    pub open spec fn wf(self) -> bool {
        &&& 1 <= self.refill
        &&& self.tokens + self.granted_this_interval <= self.refill
    }

    /// An empty bucket for the given schedule; nothing can be granted
    /// before the first refill tick.
    pub fn new(c: &RateLimitConfig) -> (s: Self)
        requires
            1 <= c.refill,
        ensures
            s.wf(),
            s.refill == c.refill,
            s.tokens == 0,
            s.granted_this_interval == 0,
    {
        BucketState { refill: c.refill, tokens: 0, granted_this_interval: 0 }
    }

    /// A refill tick: the bucket holds one refill amount again (its
    /// capacity), and a new interval begins.
    pub fn refill_tick(&mut self)
        requires
            old(self).wf(),
        ensures
            final(self).wf(),
            final(self).refill == old(self).refill,
            final(self).tokens == final(self).refill,
            final(self).granted_this_interval == 0,
    {
        self.tokens = self.refill;
        self.granted_this_interval = 0;
    }

    /// Debits one token if one is available: the caller may admit a
    /// request exactly when this grants it. With no token the caller
    /// waits for the next tick; the state does not change.
    pub fn try_acquire(&mut self) -> (granted: bool)
        requires
            old(self).wf(),
        ensures
            final(self).wf(),
            final(self).refill == old(self).refill,
            granted <==> old(self).tokens >= 1,
            granted ==> final(self).tokens == old(self).tokens - 1
                && final(self).granted_this_interval == old(self).granted_this_interval + 1,
            !granted ==> *final(self) == *old(self),
    {
        if self.tokens >= 1 {
            self.tokens = self.tokens - 1;
            self.granted_this_interval = self.granted_this_interval + 1;
            true
        } else {
            false
        }
    }
}

/// Pacing law: within one refill interval the bucket never grants more
/// admissions than the refill amount, so the admission rate never
/// exceeds the configured target of `refill` per `interval_ms`.
pub proof fn lemma_rate_bound(s: BucketState)
    requires
        s.wf(),
    ensures
        s.granted_this_interval <= s.refill,
{
}

/// The chosen interval is the smallest of the candidate intervals for
/// which the refill amount is an integer: any candidate interval `d`
/// whose amount `rps * d / 1000` is integral is at least as coarse as
/// the chosen one.
pub proof fn lemma_rate_interval_minimal(rps: int, d: int)
    requires
        1 <= rps,
        d == 10 || d == 100 || d == 1000,
        (rps * d) % 1000 == 0,
    ensures
        spec_rate_interval(rps) <= d,
{
    if d == 10 {
        assert((rps * 10) % 1000 == 0 ==> rps % 100 == 0) by (nonlinear_arith);
    } else if d == 100 {
        assert((rps * 100) % 1000 == 0 ==> rps % 10 == 0) by (nonlinear_arith);
    }
}

} // verus!

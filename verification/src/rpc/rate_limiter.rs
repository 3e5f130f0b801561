//! Adaptive pacing of RPC requests: requests are spaced by a delay that shrinks by 5% after
//! a success and grows by 25% after an error, within bounds.
use vstd::prelude::*;

verus! {

/// Delay bound when the rate is unlimited (0 requests per second): 500 ms.
pub const UNLIMITED_RATE_DELAY_NANOS: u64 = 500_000_000;
/// Longest delay between requests: 5 s.
pub const MAX_DELAY_NANOS: u64 = 5_000_000_000;
/// Nanoseconds in a millisecond.
pub const NANOS_PER_MILLI: u64 = 1_000_000;

/// Pacing state; times are nanoseconds on a monotonic clock.
pub struct RateLimiter {
    pub delay_nanos: u64,
    pub min_delay_nanos: u64,
    pub max_delay_nanos: u64,
    pub last_request_at_nanos: Option<u64>,
}

/// Whole milliseconds of a delay, scaled by `percent` and rounded half up, at least 1 ms,
/// back in nanoseconds.
pub open spec fn scaled_millis_nanos(delay_nanos: u64, percent: int) -> int {
    let ms = (delay_nanos / 1_000_000) as int;
    let scaled = (ms * percent + 50) / 100;
    (if scaled < 1 { 1 } else { scaled }) * 1_000_000
}

pub open spec fn min_delay_for(requests_per_second: u32) -> u64 {
    if requests_per_second == 0 {
        UNLIMITED_RATE_DELAY_NANOS
    } else {
        (1_000_000_000int / (requests_per_second as int)) as u64
    }
}

/// Wait before the request granted at `now_nanos`: until the previous grant plus the delay,
/// or none.
pub open spec fn acquire_wait(r: RateLimiter, now_nanos: u64) -> int {
    match r.last_request_at_nanos {
        Some(last) => if last + r.delay_nanos > now_nanos {
            last + r.delay_nanos - now_nanos
        } else {
            0
        },
        None => 0,
    }
}

/// Delay after a success: 95% of the delay, not below the minimum.
pub open spec fn success_delay(r: RateLimiter) -> int {
    let reduced = scaled_millis_nanos(r.delay_nanos, 95);
    if reduced > r.min_delay_nanos { reduced } else { r.min_delay_nanos as int }
}

/// Delay after an error: 125% of the delay, not above the maximum.
pub open spec fn error_delay(r: RateLimiter) -> int {
    let increased = scaled_millis_nanos(r.delay_nanos, 125);
    if increased < r.max_delay_nanos { increased } else { r.max_delay_nanos as int }
}

impl RateLimiter {
    /// The delay lies between its bounds, and the maximum is at least one millisecond.
    pub open spec fn within_bounds(self) -> bool {
        &&& self.min_delay_nanos <= self.delay_nanos <= self.max_delay_nanos
        &&& self.max_delay_nanos >= NANOS_PER_MILLI
    }

    /// Starts at the minimum delay: one second divided by the rate (500 ms for rate 0).
    pub fn new(requests_per_second: u32) -> (r: Self)
        ensures
            r.min_delay_nanos == min_delay_for(requests_per_second),
            r.delay_nanos == r.min_delay_nanos,
            r.max_delay_nanos == MAX_DELAY_NANOS,
            r.last_request_at_nanos is None,
            r.within_bounds(),
    {
        let min_delay = if requests_per_second == 0 {
            UNLIMITED_RATE_DELAY_NANOS
        } else {
            1_000_000_000 / (requests_per_second as u64)
        };
        RateLimiter {
            delay_nanos: min_delay,
            min_delay_nanos: min_delay,
            max_delay_nanos: MAX_DELAY_NANOS,
            last_request_at_nanos: None,
        }
    }

    /// Grants a request at `now_nanos`: returns how long to wait (until the previous grant
    /// plus the delay, or no wait) and records the granted time.
    pub fn acquire(&mut self, now_nanos: u64) -> (wait: u64)
        requires
            old(self).last_request_at_nanos matches Some(last) ==> last + old(self).delay_nanos <= u64::MAX,
            now_nanos + old(self).delay_nanos <= u64::MAX,
        ensures
            wait == acquire_wait(*old(self), now_nanos),
            final(self).last_request_at_nanos == Some((now_nanos + wait) as u64),
            final(self).delay_nanos == old(self).delay_nanos,
            final(self).min_delay_nanos == old(self).min_delay_nanos,
            final(self).max_delay_nanos == old(self).max_delay_nanos,
    {
        let wait = match self.last_request_at_nanos {
            Some(last) => {
                let target = last + self.delay_nanos;
                if target > now_nanos {
                    target - now_nanos
                } else {
                    0
                }
            },
            None => 0,
        };
        self.last_request_at_nanos = Some(now_nanos + wait);
        wait
    }

    /// After a successful request the delay shrinks to 95% (whole milliseconds, at least
    /// 1 ms), but not below the minimum.
    pub fn on_success(&mut self)
        ensures
            final(self).delay_nanos == success_delay(*old(self)),
            final(self).min_delay_nanos == old(self).min_delay_nanos,
            final(self).max_delay_nanos == old(self).max_delay_nanos,
            final(self).last_request_at_nanos == old(self).last_request_at_nanos,
    {
        let ms: u64 = self.delay_nanos / NANOS_PER_MILLI;
        let scaled: u64 = ((ms as u128 * 95 + 50) / 100) as u64;
        let reduced_ms: u64 = if scaled < 1 { 1 } else { scaled };
        let reduced: u64 = reduced_ms * NANOS_PER_MILLI;
        self.delay_nanos = if reduced > self.min_delay_nanos { reduced } else { self.min_delay_nanos };
    }

    /// After a failed request the delay grows to 125% (whole milliseconds, at least 1 ms),
    /// but not above the maximum.
    pub fn on_error(&mut self)
        ensures
            final(self).delay_nanos == error_delay(*old(self)),
            final(self).min_delay_nanos == old(self).min_delay_nanos,
            final(self).max_delay_nanos == old(self).max_delay_nanos,
            final(self).last_request_at_nanos == old(self).last_request_at_nanos,
    {
        let ms: u128 = (self.delay_nanos / NANOS_PER_MILLI) as u128;
        let scaled: u128 = (ms * 125 + 50) / 100;
        let increased_ms: u128 = if scaled < 1 { 1 } else { scaled };
        assert(ms <= 0xFFFF_FFFF_FFFF_FFFF);
        assert(increased_ms <= 0x2_0000_0000_0000_0000);
        let increased: u128 = increased_ms * (NANOS_PER_MILLI as u128);
        self.delay_nanos = if increased < self.max_delay_nanos as u128 { increased as u64 } else { self.max_delay_nanos };
    }
}

} // verus!

//! Token-bucket rate limiting, backed by the `governor` crate.
//!
//! A `RateGate` is one per-provider token bucket. All throttle instants are
//! expressed in nanoseconds on a shared `ProxyClock`, so instants reported
//! by different gates can be compared and the minimum taken.

use vstd::prelude::*;

verus! {

/// The clock that all rate gates share, a governor QuantaClock. Throttle
/// instants and the current time are nanoseconds since this clock's
/// creation.
#[verifier::external_body]
pub struct ProxyClock {
    clock: governor::clock::QuantaClock,
    epoch: governor::clock::QuantaInstant,
}

/// One provider's token bucket, a direct governor rate limiter replenished
/// at a fixed number of requests per second.
#[verifier::external_body]
pub struct RateGate {
    limiter: governor::DefaultDirectRateLimiter,
}

impl ProxyClock {
    /// Relies on governor::clock::QuantaClock (Clock::now) for a monotonic
    /// time source; the moment of creation becomes the zero of this clock.
    #[verifier::external_body]
    pub fn new() -> (c: ProxyClock) {
        let clock = governor::clock::QuantaClock::default();
        let epoch = governor::clock::Clock::now(&clock);
        ProxyClock { clock, epoch }
    }

    /// Relies on governor::clock::Clock::now for QuantaClock: the current
    /// time, in nanoseconds since this clock's creation.
    #[verifier::external_body]
    pub fn now_nanos(&self) -> (t: u64) {
        let now = governor::clock::Clock::now(&self.clock);
        governor::clock::Reference::duration_since(&now, self.epoch).as_u64()
    }
}

impl RateGate {
    /// Relies on governor::RateLimiter::direct_with_clock and
    /// governor::Quota::per_second: a token bucket that admits `rate`
    /// requests per second, measured on the shared clock.
    #[verifier::external_body]
    pub fn new(clock: &ProxyClock, rate: u32) -> (g: RateGate)
        requires
            rate >= 1,
    {
        let quota = governor::Quota::per_second(core::num::NonZeroU32::new(rate).unwrap());
        let limiter = governor::RateLimiter::direct_with_clock(quota, clock.clock.clone());
        RateGate { limiter }
    }

    /// Relies on governor::RateLimiter::check: `None` means the bucket had
    /// capacity and one token was taken; `Some(t)` means the bucket is
    /// empty and no request conforms before instant `t` (nanoseconds on the
    /// shared clock), from NotUntil::earliest_possible.
    #[verifier::external_body]
    pub fn check(&self, clock: &ProxyClock) -> (r: Option<u64>) {
        match self.limiter.check() {
            Ok(()) => None,
            Err(not_until) => {
                let earliest = not_until.earliest_possible();
                Some(governor::clock::Reference::duration_since(&earliest, clock.epoch).as_u64())
            },
        }
    }
}

} // verus!

//! Validators: the freshness oracles of the caches.
//!
//! A cache stamps every entry with a token when it installs it, and asks its
//! validator about that token on every hit.

use std::time::{Duration, Instant};
use vstd::prelude::*;

verus! {

/// Decides whether a cache entry may still be served.
///
/// A validator keeps its own notion of the present moment, which moves only
/// when `update_validity` is called: between two such calls it gives the
/// same answer about the same token.
pub trait CacheValidator {
    /// What the validator needs to hold of itself between calls. A
    /// validator that gives no model of itself holds nothing: nothing is
    /// proved of code that runs over it.
    open spec fn inv(&self) -> bool {
        false
    }

    /// Whether an entry stamped with `token` is valid at the validator's
    /// present moment.
    open spec fn accepts(&self, token: u64) -> bool {
        false
    }

    /// Whether an entry stamped with `token` is still valid.
    fn is_valid(&self, token: u64) -> (valid: bool)
        requires
            self.inv(),
        ensures
            valid == self.accepts(token),
    ;

    /// Moves the validator's present moment to now and gives the token for
    /// entries installed from now on. Such an entry is valid at once, and
    /// no entry that had expired becomes valid again.
    fn update_validity(&mut self) -> (token: u64)
        requires
            old(self).inv(),
        ensures
            final(self).inv(),
            final(self).accepts(token),
            forall|t: u64| #[trigger] final(self).accepts(t) ==> old(self).accepts(t),
    ;
}

/// Whether an entry stamped at `token` is within `window` at the time
/// `now`. All three are counted in the same unit from the same origin. A
/// stamp from the future is within the window.
pub open spec fn within_window(now: u64, token: u64, window: u64) -> bool {
    now <= token || now - token <= window
}

/// Whether an entry stamped at `token` is within `window` at the time
/// `now`.
pub fn check_window(now: u64, token: u64, window: u64) -> (valid: bool)
    ensures
        valid == within_window(now, token, window),
{
    now <= token || now - token <= window
}

/// An entry expires once more than `window` has passed since it was
/// stamped, and not before.
pub proof fn lemma_window(now: u64, token: u64, window: u64)
    ensures
        now > token + window ==> !within_window(now, token, window),
        now <= token + window ==> within_window(now, token, window),
{
}

/// A validator that counts time in ticks which its owner advances: an entry
/// is valid for `window` ticks after it was installed.
#[derive(Clone, Copy, Debug, PartialEq, Eq, Structural)]
pub struct CountCacheValidator {
    pub now: u64,
    pub window: u64,
}

impl CountCacheValidator {
    /// A validator at tick zero.
    pub fn new(window: u64) -> (v: CountCacheValidator)
        ensures
            v == (CountCacheValidator { now: 0, window }),
    {
        CountCacheValidator { now: 0, window }
    }

    /// Lets `ticks` ticks pass. The count stops at the largest number.
    pub fn advance(&mut self, ticks: u64)
        ensures
            final(self).window == old(self).window,
            final(self).now == if old(self).now + ticks > u64::MAX {
                u64::MAX
            } else {
                (old(self).now + ticks) as u64
            },
    {
        self.now = self.now.saturating_add(ticks);
    }
}

impl CacheValidator for CountCacheValidator {
    open spec fn inv(&self) -> bool {
        true
    }

    open spec fn accepts(&self, token: u64) -> bool {
        within_window(self.now, token, self.window)
    }

    fn is_valid(&self, token: u64) -> (valid: bool) {
        check_window(self.now, token, self.window)
    }

    fn update_validity(&mut self) -> (token: u64)
        ensures
            *final(self) == *old(self),
            token == old(self).now,
    {
        self.now
    }
}

/// The time that has passed since `start`.
///
/// Wraps `Instant::elapsed`. Nothing is known of the result but that the
/// monotonic clock gave it.
#[verifier::external_body]
fn elapsed(start: &Instant) -> (passed: Duration)
{
    start.elapsed()
}

/// The whole milliseconds of a span of time.
///
/// Wraps `Duration::as_millis`.
#[verifier::external_body]
fn as_millis(span: &Duration) -> (ms: u128)
{
    span.as_millis()
}

/// The present moment of the monotonic clock.
///
/// Wraps `Instant::now`.
#[verifier::external_body]
fn clock_now() -> (now: Instant)
{
    Instant::now()
}

/// A count of milliseconds as a token: the count itself, or the largest
/// token where the count is larger than that.
pub open spec fn spec_millis_token(ms: u128) -> u64 {
    if ms > u64::MAX {
        u64::MAX
    } else {
        ms as u64
    }
}

/// A count of milliseconds as a token: see `spec_millis_token`.
pub fn millis_token(ms: u128) -> (token: u64)
    ensures
        token == spec_millis_token(ms),
{
    if ms > u64::MAX as u128 {
        u64::MAX
    } else {
        ms as u64
    }
}

/// A point of the monotonic clock.
#[verifier::external_type_specification]
#[verifier::external_body]
pub struct ExInstant(Instant);

/// A validator that goes by the clock: an entry is valid for `window_ms`
/// milliseconds after it was installed. Tokens are milliseconds since the
/// validator was made. The clock is read when the validity is updated, and
/// never taken to run backwards.
pub struct TimedCacheValidator {
    pub start: Instant,
    pub window_ms: u64,
    pub last_ms: u64,
}

impl TimedCacheValidator {
    /// A validator whose entries stay valid for `window_ms` milliseconds.
    pub fn new(window_ms: u64) -> (v: TimedCacheValidator)
        ensures
            v.window_ms == window_ms,
            v.last_ms == 0,
    {
        TimedCacheValidator { start: clock_now(), window_ms, last_ms: 0 }
    }

    /// Moves the validator's present moment to `now_ms`, unless that lies
    /// before the moment it stands at, and gives the moment it then stands
    /// at as the token for entries installed from now on.
    pub fn advance_to(&mut self, now_ms: u64) -> (token: u64)
        ensures
            final(self).window_ms == old(self).window_ms,
            final(self).start == old(self).start,
            final(self).last_ms == if now_ms > old(self).last_ms {
                now_ms
            } else {
                old(self).last_ms
            },
            token == final(self).last_ms,
    {
        if now_ms > self.last_ms {
            self.last_ms = now_ms;
        }
        self.last_ms
    }

    /// Reads the clock: the milliseconds since the validator was made, as a
    /// token. What the clock says is not for this library to know.
    fn now(&self) -> (ms: u64) {
        let passed = elapsed(&self.start);
        millis_token(as_millis(&passed))
    }
}

impl CacheValidator for TimedCacheValidator {
    open spec fn inv(&self) -> bool {
        true
    }

    open spec fn accepts(&self, token: u64) -> bool {
        within_window(self.last_ms, token, self.window_ms)
    }

    fn is_valid(&self, token: u64) -> (valid: bool) {
        check_window(self.last_ms, token, self.window_ms)
    }

    fn update_validity(&mut self) -> (token: u64)
        ensures
            final(self).window_ms == old(self).window_ms,
            final(self).last_ms >= old(self).last_ms,
            token == final(self).last_ms,
    {
        let now = self.now();
        self.advance_to(now)
    }
}

} // verus!

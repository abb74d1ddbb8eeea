use std::time::Duration;
use std::time::SystemTime;
use std::time::UNIX_EPOCH;
use vstd::prelude::*;

verus! {

#[verifier::external_type_specification]
#[verifier::external_body]
pub struct ExSystemTime(SystemTime);

/// Calls `std::time::SystemTime::now`. Nothing is promised of the reading.
#[verifier::external_body]
fn system_now() -> SystemTime {
    SystemTime::now()
}

/// Calls `SystemTime::duration_since(UNIX_EPOCH)` on `t`; `None` where `t` lies before the
/// epoch (the call's error). Nothing is promised of the duration: it comes from the machine's
/// clock.
#[verifier::external_body]
fn since_epoch(t: &SystemTime) -> Option<Duration> {
    match t.duration_since(UNIX_EPOCH) {
        Ok(d) => Some(d),
        Err(_) => None,
    }
}

/// Calls `Duration::as_micros` on `d`: its whole microseconds. Nothing is stated of the
/// number, since nothing is known of `d`.
#[verifier::external_body]
fn whole_micros(d: &Duration) -> u128 {
    d.as_micros()
}

/// The machine's clock in whole microseconds since the epoch, or `None` where it reads
/// before the epoch. Nothing is promised of the reading.
pub fn clock_reading() -> Option<u128> {
    let now = system_now();
    match since_epoch(&now) {
        Some(d) => Some(whole_micros(&d)),
        None => None,
    }
}

/// The milliseconds that a clock gives for a reading in microseconds: the whole
/// milliseconds, cut to `i64` as `as` cuts, and 0 where there is no reading (a clock before
/// the epoch).
pub open spec fn millis_of(us: Option<u128>) -> i64 {
    match us {
        Some(u) => (u / 1000) as i64,
        None => 0,
    }
}

/// The microseconds that a clock gives for a reading in microseconds: the reading cut to
/// `i64` as `as` cuts, and 0 where there is no reading.
pub open spec fn micros_of(us: Option<u128>) -> i64 {
    match us {
        Some(u) => u as i64,
        None => 0,
    }
}

/// A reading of `u` microseconds that fits the clock's range gives the millisecond that holds
/// it: `u` lies within that millisecond, not before it and less than a millisecond after its
/// start; no reading gives 0.
pub proof fn lemma_millis_of_reading(u: u128)
    requires
        u < 1000 * (i64::MAX as int + 1),
    ensures
        0 <= millis_of(Some(u)),
        millis_of(Some(u)) * 1000 <= u < millis_of(Some(u)) * 1000 + 1000,
        millis_of(None) == 0,
{
    let q = u / 1000;
    assert(q <= i64::MAX) by (nonlinear_arith)
        requires
            u < 1000 * (i64::MAX as int + 1),
            q == u / 1000,
    ;
    assert(q * 1000 <= u < q * 1000 + 1000) by (nonlinear_arith)
        requires
            q == u / 1000,
    ;
    assert(millis_of(Some(u)) == q);
}

/// Milliseconds from a reading in microseconds (see `millis_of`).
pub fn millis_from_micros(us: Option<u128>) -> (r: i64)
    ensures
        r == millis_of(us),
{
    match us {
        Some(u) => (u / 1000) as i64,
        None => 0,
    }
}

/// Microseconds from a reading in microseconds (see `micros_of`).
pub fn micros_from_reading(us: Option<u128>) -> (r: i64)
    ensures
        r == micros_of(us),
{
    match us {
        Some(u) => u as i64,
        None => 0,
    }
}

/// A source of timestamps.
pub trait Clock {
    /// The one reading that the clock gives at every call, where it has one.
    spec fn fixed_reading(&self) -> Option<i64>;

    /// Milliseconds since the epoch: the fixed reading where the clock has one, else the
    /// milliseconds of a reading in microseconds (see `millis_of`).
    fn current_timestamp(&self) -> (r: i64)
        ensures
            self.fixed_reading() matches Some(t) ==> r == t,
            self.fixed_reading() is None ==> exists|us: Option<u128>| r == millis_of(us),
    ;

    /// Microseconds since the epoch.
    fn current_timestamp_us(&self) -> (r: i64)
        requires
            self.fixed_reading() matches Some(t) ==> i64::MIN <= t * 1000 <= i64::MAX,
        ensures
            self.fixed_reading() matches Some(t) ==> r == t * 1000,
    ;
}

/// The machine's clock.
pub struct SystemClock;

impl SystemClock {
    pub fn new() -> (r: Self) {
        SystemClock
    }
}

impl Clock for SystemClock {
    open spec fn fixed_reading(&self) -> Option<i64> {
        None
    }

    /// The machine's clock in milliseconds, as `millis_of` makes them of its reading.
    fn current_timestamp(&self) -> (r: i64)
        ensures
            exists|us: Option<u128>| r == millis_of(us),
    {
        millis_from_micros(clock_reading())
    }

    /// The machine's clock in microseconds, as `micros_of` makes them of its reading.
    fn current_timestamp_us(&self) -> (r: i64)
        ensures
            exists|us: Option<u128>| r == micros_of(us),
    {
        micros_from_reading(clock_reading())
    }
}

/// A clock that always reads the same millisecond.
pub struct FixedClock {
    pub fixed_timestamp: i64,
}

impl FixedClock {
    /// A clock stopped at the millisecond of a reading in microseconds (see `millis_of`).
    pub fn at_reading(us: Option<u128>) -> (r: Self)
        ensures
            r.fixed_timestamp == millis_of(us),
    {
        FixedClock { fixed_timestamp: millis_from_micros(us) }
    }

    /// A clock stopped at the machine's current millisecond: `at_reading` of the machine's
    /// reading.
    pub fn new() -> (r: Self)
        ensures
            exists|us: Option<u128>| r.fixed_timestamp == millis_of(us),
    {
        FixedClock::at_reading(clock_reading())
    }
}

impl Clock for FixedClock {
    open spec fn fixed_reading(&self) -> Option<i64> {
        Some(self.fixed_timestamp)
    }

    fn current_timestamp(&self) -> (r: i64) {
        self.fixed_timestamp
    }

    fn current_timestamp_us(&self) -> (r: i64) {
        self.fixed_timestamp * 1000
    }
}

} // verus!

//! Spans of time and clock readings.
//!
//! A reading is a number of nanoseconds since the clock was started. The
//! detectors decide on readings alone, so that what they do at any moment can be
//! stated; only [`Clock::now`] asks the machine.

use vstd::prelude::*;

verus! {

/// A moment of the machine's monotonic clock.
#[verifier::external_type_specification]
#[verifier::external_body]
pub struct ExInstant(std::time::Instant);

/// A span of time: whole seconds and nanoseconds.
#[derive(Debug, Clone, Copy, PartialEq, Eq, Structural)]
pub struct Duration {
    secs: u64,
    nanos: u32,
}

/// The span in nanoseconds.
impl View for Duration {
    type V = nat;

    closed spec fn view(&self) -> nat {
        (self.secs * 1_000_000_000 + self.nanos) as nat
    }
}

impl Duration {
    /// The nanoseconds beyond the whole seconds make less than a second.
    #[verifier::type_invariant]
    spec fn carried(self) -> bool {
        self.nanos < 1_000_000_000
    }

    /// A span of seconds and nanoseconds. Nanoseconds that make a second or more
    /// are carried into the seconds, which must be able to hold them.
    pub fn new(secs: u64, nanos: u32) -> (r: Self)
        requires
            secs + nanos / 1_000_000_000 <= u64::MAX,
        ensures
            r@ == secs * 1_000_000_000 + nanos,
    {
        Duration {
            secs: secs + (nanos / 1_000_000_000) as u64,
            nanos: nanos % 1_000_000_000,
        }
    }

    /// A span of whole seconds.
    pub fn from_secs(secs: u64) -> (r: Self)
        ensures
            r@ == secs * 1_000_000_000,
    {
        Duration { secs, nanos: 0 }
    }

    /// The span in nanoseconds.
    pub fn as_nanos(&self) -> (r: u128)
        ensures
            r == self@,
    {
        self.secs as u128 * 1_000_000_000 + self.nanos as u128
    }

    /// The text of the span with its unit, such as `5s`.
    pub fn to_text(&self) -> (r: String)
        ensures
            r@ == span_text(self@),
    {
        proof {
            use_type_invariant(self);
        }
        duration_to_text(self.secs, self.nanos)
    }
}

/// The text in which a span of `nanos` nanoseconds is printed.
pub open spec fn span_text(nanos: nat) -> Seq<char> {
    duration_debug((nanos / 1_000_000_000) as u64, (nanos % 1_000_000_000) as u32)
}

/// What `{:?}` prints of the `std::time::Duration` of `secs` seconds and `nanos`
/// nanoseconds.
pub uninterp spec fn duration_debug(secs: u64, nanos: u32) -> Seq<char>;

/// Prints `std::time::Duration::new(secs, nanos)` with `{:?}`. The text depends
/// on the two numbers alone; that is all that is claimed of it. `new` carries
/// excess nanoseconds into the seconds and can overflow there, which `requires`
/// leaves out.
#[verifier::external_body]
fn duration_to_text(secs: u64, nanos: u32) -> (r: String)
    requires
        nanos < 1_000_000_000,
    ensures
        r@ == duration_debug(secs, nanos),
{
    format!("{:?}", std::time::Duration::new(secs, nanos))
}

/// The time that has passed at reading `now` since reading `then`, which is
/// nothing where `now` is the earlier one.
pub open spec fn elapsed(now: u128, then: u128) -> nat {
    if now >= then {
        (now - then) as nat
    } else {
        0
    }
}

/// The time that has passed at reading `now` since reading `then`.
pub fn nanos_between(now: u128, then: u128) -> (r: u128)
    ensures
        r == elapsed(now, then),
{
    if now >= then {
        now - then
    } else {
        0
    }
}

/// Reads `std::time::Instant::now`. Nothing is claimed of the moment.
#[verifier::external_body]
fn instant_now() -> std::time::Instant {
    std::time::Instant::now()
}

/// Reads `std::time::Instant::elapsed` in nanoseconds. Nothing is claimed of the
/// number.
#[verifier::external_body]
fn instant_elapsed(origin: &std::time::Instant) -> u128 {
    origin.elapsed().as_nanos()
}

/// A monotonic clock that reads nanoseconds since it was started.
pub struct Clock {
    origin: std::time::Instant,
    latest: u128,
}

impl Clock {
    /// The latest reading.
    pub closed spec fn latest(&self) -> u128 {
        self.latest
    }

    /// Starts a clock, whose latest reading is 0.
    pub fn start() -> (r: Self)
        ensures
            r.latest() == 0,
    {
        Clock { origin: instant_now(), latest: 0 }
    }

    /// Takes a reading of the machine's clock. One that lies before the latest
    /// reading is replaced by that one.
    pub fn advance(&mut self, elapsed: u128) -> (r: u128)
        ensures
            r == (if elapsed >= old(self).latest() {
                elapsed
            } else {
                old(self).latest()
            }),
            final(self).latest() == r,
    {
        if elapsed > self.latest {
            self.latest = elapsed;
        }
        self.latest
    }

    /// Reads the clock. Readings never decrease; how far the clock has come rests
    /// on the machine.
    pub fn now(&mut self) -> (r: u128)
        ensures
            r >= old(self).latest(),
            final(self).latest() == r,
    {
        let elapsed: u128 = instant_elapsed(&self.origin);
        self.advance(elapsed)
    }
}

} // verus!

//! The clock by which deadlines are set: nanoseconds from a fixed origin.
use vstd::prelude::*;

verus! {

/// The longest span of time there is, in nanoseconds: 2^64 - 1 seconds and
/// 999 999 999 nanoseconds.
pub const MAX_NANOS: u128 = 18_446_744_073_709_551_615_999_999_999;

/// `tokio::time::Instant`, carried as it is.
#[verifier::external_type_specification]
#[verifier::external_body]
pub struct ExInstant(tokio::time::Instant);

/// Calls `tokio::time::Instant::now`. Nothing is claimed of the instant.
#[verifier::external_body]
fn instant_now() -> tokio::time::Instant {
    tokio::time::Instant::now()
}

/// Calls `tokio::time::Instant::elapsed`, which gives a `Duration`: how long it
/// is depends on when it is asked, but it is no longer than a `Duration` can be.
#[verifier::external_body]
fn nanos_since(origin: &tokio::time::Instant) -> (n: u128)
    ensures
        n <= MAX_NANOS,
{
    origin.elapsed().as_nanos()
}

/// Asking for the present instant can give `t`.
pub closed spec fn is_present(t: tokio::time::Instant) -> bool {
    call_ensures(instant_now, (), t)
}

/// Asking how long ago `origin` was can give `n` nanoseconds.
pub closed spec fn is_since(origin: tokio::time::Instant, n: u128) -> bool {
    call_ensures(nanos_since, (&origin,), n)
}

/// A clock that counts nanoseconds from its origin.
pub struct Clock {
    pub origin: tokio::time::Instant,
}

impl Clock {
    /// A clock that starts now.
    pub fn start() -> (c: Clock)
        ensures
            is_present(c.origin),
    {
        Clock { origin: instant_now() }
    }

    /// The time by this clock: how long ago its origin was. Every reading is a
    /// `Duration`.
    pub fn now(&self) -> (n: u128)
        ensures
            is_since(self.origin, n),
            n <= MAX_NANOS,
    {
        nanos_since(&self.origin)
    }
}

/// What can be the present, and what can be the time since, is what asking gives.
proof fn readings_come_from_asking(t: tokio::time::Instant, n: u128)
    ensures
        is_present(t) <==> call_ensures(instant_now, (), t),
        is_since(t, n) <==> call_ensures(nanos_since, (&t,), n),
{
}

} // verus!

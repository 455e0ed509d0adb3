//! A token bucket that is filled by one token per tick of a fixed interval.
use crate::clock::{is_since, Clock, MAX_NANOS};
use vstd::prelude::*;

verus! {

/// What a `RateLimiter` holds.
pub struct RateLimiterView {
    /// The tokens that the bucket holds at most.
    pub burst: u64,
    pub tokens: u64,
    /// The ticks that tokens were put in, or taken, for.
    pub ticks_processed: u64,
    /// How long a tick takes, in nanoseconds.
    pub interval: u128,
    /// When the ticks are counted from, in nanoseconds.
    pub start: u128,
}

/// Whether the one who asked may go on.
#[derive(Debug, PartialEq, Eq)]
pub enum Allow {
    /// At once.
    Now,
    /// When this tick has come.
    AtTick(u64),
}

impl RateLimiterView {
    pub open spec fn wf(self) -> bool {
        self.tokens <= self.burst
    }

    /// The ticks up to `ticks_now` have put tokens in, as far as they fit.
    pub open spec fn filled(self, ticks_now: u64) -> Self {
        let sum = self.tokens + (ticks_now - self.ticks_processed);
        RateLimiterView {
            tokens: if sum < self.burst {
                sum as u64
            } else {
                self.burst
            },
            ticks_processed: ticks_now,
            ..self
        }
    }

    /// One was allowed on at the tick `ticks_now`, or told to wait for the next.
    pub open spec fn allow(self, ticks_now: u64) -> Self {
        let f = self.filled(ticks_now);
        if f.tokens > 0 {
            RateLimiterView { tokens: (f.tokens - 1) as u64, ..f }
        } else {
            f
        }
    }

    /// The tick that one waited for has come and its token is taken.
    pub open spec fn waited(self) -> Self {
        RateLimiterView { ticks_processed: (self.ticks_processed + 1) as u64, ..self }
    }
}

/// A rate limiter. The interval and the start say when a tick comes, in
/// nanoseconds.
pub struct RateLimiter {
    interval: u128,
    start: u128,
    burst: u64,
    tokens: u64,
    ticks_processed: u64,
}

impl View for RateLimiter {
    type V = RateLimiterView;

    closed spec fn view(&self) -> RateLimiterView {
        RateLimiterView {
            burst: self.burst,
            tokens: self.tokens,
            ticks_processed: self.ticks_processed,
            interval: self.interval,
            start: self.start,
        }
    }
}

impl RateLimiter {
    /// A full bucket, the ticks of which are counted from now.
    pub fn new(clock: &Clock, interval: u128, burst: u64) -> (r: Self)
        ensures
            r@ == (RateLimiterView {
                burst,
                tokens: burst,
                ticks_processed: 0,
                interval,
                start: r@.start,
            }),
            r@.wf(),
            is_since(clock.origin, r@.start),
            r@.start <= MAX_NANOS,
    {
        RateLimiter { interval, start: clock.now(), burst, tokens: burst, ticks_processed: 0 }
    }

    /// How long a tick takes.
    pub fn interval(&self) -> (n: u128)
        ensures
            n == self@.interval,
    {
        self.interval
    }

    /// When the ticks are counted from.
    pub fn start(&self) -> (n: u128)
        ensures
            n == self@.start,
    {
        self.start
    }

    /// Whether the tick `ticks_now` can be the next: none that came before it was
    /// later, and the ticks do not run out.
    pub fn accepts(&self, ticks_now: u64) -> (b: bool)
        ensures
            b <==> self@.ticks_processed <= ticks_now < u64::MAX && self@.tokens + (ticks_now
                - self@.ticks_processed) <= u64::MAX,
    {
        self.ticks_processed <= ticks_now && ticks_now < u64::MAX && self.tokens <= u64::MAX - (
        ticks_now - self.ticks_processed)
    }

    /// Asks to go on at the tick `ticks_now`. Takes a token if there is one;
    /// otherwise the next tick has to be waited for.
    pub fn allow(&mut self, ticks_now: u64) -> (r: Allow)
        requires
            old(self)@.wf(),
            old(self)@.ticks_processed <= ticks_now < u64::MAX,
            old(self)@.tokens + (ticks_now - old(self)@.ticks_processed) <= u64::MAX,
        ensures
            final(self)@ == old(self)@.allow(ticks_now),
            final(self)@.wf(),
            r == if old(self)@.filled(ticks_now).tokens > 0 {
                Allow::Now
            } else {
                Allow::AtTick((ticks_now + 1) as u64)
            },
            r is Now <==> old(self)@.burst > 0 && (old(self)@.tokens > 0 || ticks_now
                > old(self)@.ticks_processed),
    {
        let sum: u64 = self.tokens + (ticks_now - self.ticks_processed);
        self.tokens = if sum < self.burst {
            sum
        } else {
            self.burst
        };
        self.ticks_processed = ticks_now;
        if self.tokens > 0 {
            self.tokens = self.tokens - 1;
            return Allow::Now;
        }
        Allow::AtTick(self.ticks_processed + 1)
    }

    /// The tick that `allow` named has come: the one who waited goes on.
    pub fn waited(&mut self)
        requires
            old(self)@.wf(),
            old(self)@.ticks_processed < u64::MAX,
        ensures
            final(self)@ == old(self)@.waited(),
            final(self)@.wf(),
    {
        self.ticks_processed = self.ticks_processed + 1;
    }
}

/// What happens to a rate limiter.
pub enum Event {
    /// Someone asks at this tick.
    Allow(u64),
    /// Someone has waited for the tick that was named.
    Waited,
}

/// The limiter after the events, in this order.
pub open spec fn after(s: RateLimiterView, events: Seq<Event>) -> RateLimiterView
    decreases events.len(),
{
    if events.len() == 0 {
        s
    } else {
        let before = after(s, events.drop_last());
        match events.last() {
            Event::Allow(t) => before.allow(t),
            Event::Waited => before.waited(),
        }
    }
}

/// Each event is one that the limiter admits: ticks do not run backwards and
/// do not run out, and one waits only for want of a token.
pub open spec fn admitted(s: RateLimiterView, events: Seq<Event>) -> bool
    decreases events.len(),
{
    events.len() == 0 || {
        let before = after(s, events.drop_last());
        &&& admitted(s, events.drop_last())
        &&& match events.last() {
            Event::Allow(t) => before.ticks_processed <= t < u64::MAX && before.tokens + (t
                - before.ticks_processed) <= u64::MAX,
            Event::Waited => before.tokens == 0 && before.ticks_processed < u64::MAX,
        }
    }
}

/// How many have been let on by the events.
pub open spec fn let_on(s: RateLimiterView, events: Seq<Event>) -> nat
    decreases events.len(),
{
    if events.len() == 0 {
        0
    } else {
        let before = after(s, events.drop_last());
        let_on(s, events.drop_last()) + match events.last() {
            Event::Allow(t) => if before.filled(t).tokens > 0 {
                1nat
            } else {
                0nat
            },
            Event::Waited => 1nat,
        }
    }
}

/// From a full bucket, no more are let on than the burst and one per tick that
/// has come.
pub proof fn rate_is_bounded(s: RateLimiterView, events: Seq<Event>)
    requires
        s.tokens == s.burst,
        s.ticks_processed == 0,
        admitted(s, events),
    ensures
        after(s, events).wf(),
        after(s, events).burst == s.burst,
        after(s, events).interval == s.interval,
        after(s, events).start == s.start,
        let_on(s, events) + after(s, events).tokens <= s.burst + after(s, events).ticks_processed,
    decreases events.len(),
{
    if events.len() > 0 {
        rate_is_bounded(s, events.drop_last());
    }
}

/// So at any time no more are let on than the burst and one per interval that
/// has passed since the ticks are counted, as long as no tick is taken before it
/// has come.
pub proof fn rate_is_bounded_in_time(s: RateLimiterView, events: Seq<Event>, now: int)
    requires
        s.tokens == s.burst,
        s.ticks_processed == 0,
        s.interval > 0,
        now >= s.start,
        admitted(s, events),
        after(s, events).ticks_processed <= (now - s.start) / (s.interval as int),
    ensures
        let_on(s, events) <= s.burst + (now - s.start) / (s.interval as int),
{
    rate_is_bounded(s, events);
}

/// Whoever asks while the bucket holds a token goes on at once; so `burst` can
/// go on at any one tick.
pub proof fn a_full_bucket_lets_a_burst_on(s: RateLimiterView, n: nat)
    requires
        s.wf(),
        n < s.tokens,
    ensures
        after(s, Seq::new(n, |i: int| Event::Allow(s.ticks_processed))) == (RateLimiterView {
            tokens: (s.tokens - n) as u64,
            ..s
        }),
        after(s, Seq::new(n, |i: int| Event::Allow(s.ticks_processed))).filled(
            s.ticks_processed,
        ).tokens > 0,
    decreases n,
{
    let events = Seq::new(n, |i: int| Event::Allow(s.ticks_processed));
    if n > 0 {
        let fewer = Seq::new((n - 1) as nat, |i: int| Event::Allow(s.ticks_processed));
        a_full_bucket_lets_a_burst_on(s, (n - 1) as nat);
        assert(events.drop_last() =~= fewer);
    }
}

/// No tick is lost: up to the burst, a bucket holds what it held and one token for
/// each tick that has passed since.
pub proof fn ticks_are_not_lost(s: RateLimiterView, t: u64)
    requires
        s.tokens <= s.burst,
        s.ticks_processed <= t,
    ensures
        s.tokens + (t - s.ticks_processed) <= s.burst ==> s.filled(t).tokens == s.tokens + (t
            - s.ticks_processed),
        t - s.ticks_processed >= s.burst - s.tokens ==> s.filled(t).tokens == s.burst,
        s.filled(t).burst == s.burst,
        s.filled(t).ticks_processed == t,
        s.filled(t).interval == s.interval,
        s.filled(t).start == s.start,
{
}

/// Whoever asks is let on by one token if the bucket, filled by the ticks that
/// have passed, holds one, and takes none otherwise.
pub proof fn asking_takes_one_token(s: RateLimiterView, t: u64)
    requires
        s.tokens <= s.burst,
        s.ticks_processed <= t,
    ensures
        ({
            let sum = s.tokens + (t - s.ticks_processed);
            let held = if sum < s.burst {
                sum
            } else {
                s.burst as int
            };
            s.allow(t).tokens == if held > 0 {
                held - 1
            } else {
                0
            }
        }),
        s.allow(t).ticks_processed == t,
        s.allow(t).burst == s.burst,
        s.allow(t).interval == s.interval,
        s.allow(t).start == s.start,
{
}

/// One who waited takes the tick that came, and no token.
pub proof fn waiting_takes_one_tick(s: RateLimiterView)
    requires
        s.ticks_processed < u64::MAX,
    ensures
        s.waited().ticks_processed == s.ticks_processed + 1,
        s.waited().tokens == s.tokens,
        s.waited().burst == s.burst,
        s.waited().interval == s.interval,
        s.waited().start == s.start,
{
}

/// Asking and asking again at a later tick fills the bucket as asking at once at
/// that tick would, less the token that was taken.
pub proof fn ticks_add_up(s: RateLimiterView, t: u64, u: u64)
    requires
        s.tokens <= s.burst,
        s.ticks_processed <= t <= u,
        s.tokens + (u - s.ticks_processed) <= s.burst,
        s.tokens + (t - s.ticks_processed) > 0,
    ensures
        s.allow(t).filled(u).tokens == s.filled(u).tokens - 1,
{
}

/// After as many ticks as the bucket lacks tokens, as many as the burst go on at
/// once.
pub proof fn a_rest_lets_a_burst_on(s: RateLimiterView, t: u64, n: nat)
    requires
        s.tokens <= s.burst,
        s.ticks_processed <= t,
        t - s.ticks_processed >= s.burst - s.tokens,
        n < s.burst,
    ensures
        after(s, Seq::new(n, |i: int| Event::Allow(t))).filled(t).tokens == s.burst - n,
        let_on(s, Seq::new(n, |i: int| Event::Allow(t))) == n,
    decreases n,
{
    let events = Seq::new(n, |i: int| Event::Allow(t));
    if n > 0 {
        let fewer = Seq::new((n - 1) as nat, |i: int| Event::Allow(t));
        a_rest_lets_a_burst_on(s, t, (n - 1) as nat);
        assert(events.drop_last() =~= fewer);
        assert(events.last() == Event::Allow(t));
        if n > 1 {
            assert(fewer.last() == Event::Allow(t));
        }
    }
}

} // verus!

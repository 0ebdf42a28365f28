//! Staying inside what the venue will accept.
//!
//! The venue counts weight inside a wall-clock window and resets the counter when the window
//! turns over, so that is what is modelled here: windows turn over, they do not slide.
//!
//! The check happens before the request rather than after a rejection: a rejection is not free,
//! and repeats escalate into a ban. Nothing is sent that was going to be rejected.
//!
//! The local counter is an estimate that can drift low, which is the dangerous direction. The
//! venue reports the truth with every response, and [`RateLimiter::observe_used`] adopts it, but
//! only upward.

use crate::exchange::moment::{Duration, Instant};
use vstd::prelude::*;

verus! {

/// One counted window.
#[derive(Clone, Copy, Debug)]
pub struct Window {
    limit: u32,
    span: Duration,
    used: u32,
    /// When the current window began, in nanoseconds from the origin of [`Instant`]. A window that
    /// the venue says is about to end may have begun before that.
    started: i128,
}

/// What a [`Window`] says.
pub struct WindowView {
    pub limit: u32,
    pub span: int,
    pub used: u32,
    pub started: int,
}

impl View for Window {
    type V = WindowView;

    closed spec fn view(&self) -> WindowView {
        WindowView {
            limit: self.limit,
            span: self.span.nanos as int,
            used: self.used,
            started: self.started as int,
        }
    }
}

impl WindowView {
    /// Whether the window began no further from the origin than a clock counts, before or after it.
    pub open spec fn within_reach(self) -> bool {
        -u64::MAX <= self.started <= u64::MAX
    }

    /// The window at a later moment. It jumps whole spans rather than starting at `now`: a
    /// limiter idle for ten minutes lands on the venue's boundary instead of inventing its own.
    pub open spec fn rolled(self, now: int) -> WindowView {
        if now - self.started >= self.span {
            WindowView {
                used: 0,
                started: self.started + self.span * ((now - self.started) / self.span),
                ..self
            }
        } else {
            self
        }
    }

    /// Whether a cost fits into what is left.
    pub open spec fn fits(self, cost: int) -> bool {
        self.used + cost <= self.limit
    }

    /// How long until a cost would fit, zero if it fits now.
    pub open spec fn wait(self, cost: int, now: int) -> int {
        if self.fits(cost) || self.started + self.span <= now {
            0
        } else {
            self.started + self.span - now
        }
    }

    /// With a cost charged.
    pub open spec fn charged(self, cost: int) -> WindowView {
        WindowView {
            used: if self.used + cost <= u32::MAX {
                (self.used + cost) as u32
            } else {
                u32::MAX
            },
            ..self
        }
    }
}

/// A window that has turned over contains the moment it was rolled to, and began a whole number
/// of spans after it began before.
pub proof fn rolling_lands_on_a_boundary(window: WindowView, now: int)
    requires
        window.span > 0,
    ensures
        ({
            let w = window.rolled(now);
            &&& now < w.started + w.span
            &&& window.started <= now ==> w.started <= now
            &&& (w.started - window.started) % window.span == 0
            &&& w.limit == window.limit && w.span == window.span
        }),
{
    let s = window.span;
    let e = now - window.started;
    if e >= s {
        vstd::arithmetic::div_mod::lemma_fundamental_div_mod(e, s);
        vstd::arithmetic::div_mod::lemma_mod_bound(e, s);
        vstd::arithmetic::div_mod::lemma_mod_multiples_basic(e / s, s);
        assert((e / s) * s == s * (e / s)) by (nonlinear_arith);
    } else {
        vstd::arithmetic::div_mod::lemma_small_mod(0, s as nat);
    }
}

/// Once the time a caller was told to wait has passed, the whole budget is back.
pub proof fn budget_returns_after_the_wait(window: WindowView, cost: int, now: int)
    requires
        window.span > 0,
        window.wait(cost, now) > 0,
    ensures
        window.rolled(now + window.wait(cost, now)).used == 0,
{
}

impl Window {
    pub fn new(limit: u32, span: Duration, now: Instant) -> (w: Window)
        ensures
            w@ == (WindowView { limit, span: span.nanos as int, used: 0, started: now.nanos as int }),
    {
        Window { limit, span, used: 0, started: now.nanos as i128 }
    }

    fn roll(&mut self, now: Instant)
        requires
            old(self)@.span > 0,
            old(self)@.within_reach(),
        ensures
            final(self)@ == old(self)@.rolled(now.nanos as int),
            final(self)@.within_reach(),
    {
        let elapsed: i128 = now.nanos as i128 - self.started;
        let span: i128 = self.span.nanos as i128;
        if elapsed >= span {
            let spans: i128 = elapsed / span;
            proof {
                let (e, s) = (elapsed as int, span as int);
                vstd::arithmetic::div_mod::lemma_fundamental_div_mod(e, s);
                vstd::arithmetic::div_mod::lemma_mod_bound(e, s);
                assert(0 <= s * (e / s) <= e) by (nonlinear_arith)
                    requires
                        e == s * (e / s) + e % s,
                        e % s >= 0,
                        e >= 0,
                        s > 0,
                ;
            }
            self.started = self.started + span * spans;
            self.used = 0;
        }
    }

    /// How long until `cost` would fit, or zero if it fits now.
    fn wait_for(&self, cost: u32, now: Instant) -> (d: Duration)
        requires
            self@.used + cost <= u32::MAX,
            self@.within_reach(),
            self@.fits(cost as int) || self@.started + self@.span <= u64::MAX,
        ensures
            d.nanos == self@.wait(cost as int, now.nanos as int),
    {
        if self.used + cost <= self.limit {
            return Duration::zero();
        }
        let left: i128 = self.started + self.span.nanos as i128 - now.nanos as i128;
        if left <= 0 {
            Duration::zero()
        } else {
            Duration { nanos: left as u64 }
        }
    }

    fn charge(&mut self, cost: u32)
        ensures
            final(self)@ == old(self)@.charged(cost as int),
    {
        self.used = self.used.saturating_add(cost);
    }

    pub fn used(&self) -> (r: u32)
        ensures
            r == self@.used,
    {
        self.used
    }

    pub fn limit(&self) -> (r: u32)
        ensures
            r == self@.limit,
    {
        self.limit
    }

    /// When the current window began, in nanoseconds from the origin of [`Instant`].
    pub fn started(&self) -> (r: i128)
        ensures
            r == self@.started,
    {
        self.started
    }

    pub fn remaining(&self) -> (r: u32)
        ensures
            r == if self@.used <= self@.limit {
                self@.limit - self@.used
            } else {
                0
            },
    {
        self.limit.saturating_sub(self.used)
    }
}

/// What kind of budget a request draws on.
///
/// Order placement counts against both the shared weight budget and its own counters, and the
/// order counters are the tighter of the two.
#[derive(Clone, Copy, Debug, PartialEq, Eq, Structural)]
pub enum Kind {
    /// Anything that is not an order: market data, account queries.
    Request,
    /// Placing, amending or cancelling.
    Order,
}

/// The venue's published limits.
#[derive(Clone, Copy, Debug, PartialEq, Eq, Structural)]
pub struct Profile {
    /// Weight allowed per minute against the source address.
    pub weight_per_minute: u32,
    /// Orders per ten seconds.
    pub orders_per_10s: u32,
    /// Orders per minute.
    pub orders_per_minute: u32,
    /// Orders per day.
    pub orders_per_day: u32,
}

impl Profile {
    /// Binance spot, from its published limits.
    pub fn binance_spot() -> (p: Profile)
        ensures
            p == (Profile {
                weight_per_minute: 6_000,
                orders_per_10s: 100,
                orders_per_minute: 1_200,
                orders_per_day: 200_000,
            }),
    {
        Profile {
            weight_per_minute: 6_000,
            orders_per_10s: 100,
            orders_per_minute: 1_200,
            orders_per_day: 200_000,
        }
    }

    /// Binance USD-margined futures, which counts differently from spot.
    pub fn binance_usdm() -> (p: Profile)
        ensures
            p == (Profile {
                weight_per_minute: 2_400,
                orders_per_10s: 300,
                orders_per_minute: 1_200,
                orders_per_day: 200_000,
            }),
    {
        Profile {
            weight_per_minute: 2_400,
            orders_per_10s: 300,
            orders_per_minute: 1_200,
            orders_per_day: 200_000,
        }
    }
}

/// Whether to send now, and if not, when.
#[derive(Clone, Copy, Debug, PartialEq, Eq)]
pub enum Decision {
    /// Inside every budget. The cost has been charged.
    Send,
    /// Would exceed one. Nothing was charged and nothing should be sent.
    Wait { for_: Duration, budget: &'static str },
}

impl Decision {
    pub fn is_send(self) -> (r: bool)
        ensures
            r == (self is Send),
    {
        match self {
            Decision::Send => true,
            Decision::Wait { .. } => false,
        }
    }
}

/// One venue's budgets, for one set of credentials on one address.
#[derive(Clone, Copy, Debug)]
pub struct RateLimiter {
    weight: Window,
    orders_10s: Window,
    orders_1m: Window,
    orders_1d: Window,
    /// How much of the budget to leave unused as a margin for error.
    ///
    /// The accounting can be wrong: a weight guessed, another process on the same address, a
    /// response still in flight. Running to exactly the limit means any of those is a rejection.
    headroom_permille: u32,
    deferred: u64,
}

/// Five per cent held back. Small enough not to matter at normal rates, large enough to absorb
/// one request whose weight was guessed wrong.
pub const DEFAULT_HEADROOM_PERMILLE: u32 = 50;

/// Something that happens to a [`RateLimiter`].
pub enum Happening {
    /// A request is asked for.
    Asked { kind: Kind, weight: int, now: int },
    /// The venue tells its own count of the weight.
    Told { used: u32, now: int },
    /// The venue rejects a request.
    Rejected { retry_after: Option<Duration>, now: int },
}

/// What a [`RateLimiter`] says.
pub struct LimiterView {
    pub weight: WindowView,
    pub orders_10s: WindowView,
    pub orders_1m: WindowView,
    pub orders_1d: WindowView,
    pub deferred: u64,
}

impl View for RateLimiter {
    type V = LimiterView;

    closed spec fn view(&self) -> LimiterView {
        LimiterView {
            weight: self.weight@,
            orders_10s: self.orders_10s@,
            orders_1m: self.orders_1m@,
            orders_1d: self.orders_1d@,
            deferred: self.deferred,
        }
    }
}

impl LimiterView {
    pub open spec fn rolled(self, now: int) -> LimiterView {
        LimiterView {
            weight: self.weight.rolled(now),
            orders_10s: self.orders_10s.rolled(now),
            orders_1m: self.orders_1m.rolled(now),
            orders_1d: self.orders_1d.rolled(now),
            ..self
        }
    }

    /// The part of the weight that is held back: five per cent, at least one.
    pub open spec fn margin(self) -> int {
        if self.weight.limit * DEFAULT_HEADROOM_PERMILLE / 1_000 < 1 {
            1
        } else {
            self.weight.limit * DEFAULT_HEADROOM_PERMILLE / 1_000
        }
    }

    /// Whether a request is inside every budget that it draws on.
    pub open spec fn allows(self, kind: Kind, weight: int) -> bool {
        &&& self.weight.fits(weight + self.margin())
        &&& kind == Kind::Order ==> self.orders_10s.fits(1) && self.orders_1m.fits(1)
            && self.orders_1d.fits(1)
    }

    /// The budgets a request draws on and how long each would make it wait.
    pub open spec fn waits(self, kind: Kind, weight: int, now: int) -> Seq<(Seq<char>, int)> {
        let shared = ("weight"@, self.weight.wait(weight + self.margin(), now));
        if kind == Kind::Order {
            seq![
                shared,
                ("orders_10s"@, self.orders_10s.wait(1, now)),
                ("orders_1m"@, self.orders_1m.wait(1, now)),
                ("orders_1d"@, self.orders_1d.wait(1, now)),
            ]
        } else {
            seq![shared]
        }
    }

    /// With a request charged.
    pub open spec fn charged(self, kind: Kind, weight: int) -> LimiterView {
        if kind == Kind::Order {
            LimiterView {
                weight: self.weight.charged(weight),
                orders_10s: self.orders_10s.charged(1),
                orders_1m: self.orders_1m.charged(1),
                orders_1d: self.orders_1d.charged(1),
                ..self
            }
        } else {
            LimiterView { weight: self.weight.charged(weight), ..self }
        }
    }

    /// The limiter after a request was asked for: charged where it is allowed, counted as deferred
    /// where it is not.
    pub open spec fn after(self, kind: Kind, weight: int, now: int) -> LimiterView {
        let rolled = self.rolled(now);
        if rolled.allows(kind, weight) {
            rolled.charged(kind, weight)
        } else {
            LimiterView { deferred: (rolled.deferred + 1) as u64, ..rolled }
        }
    }

    /// Whether every budget is counted over some time.
    pub open spec fn counts(self) -> bool {
        &&& self.weight.span > 0
        &&& self.orders_10s.span > 0
        &&& self.orders_1m.span > 0
        &&& self.orders_1d.span > 0
    }

    /// The limiter after the venue told its own count of the weight: the higher of the two counts.
    pub open spec fn observed(self, venue_used: u32, now: int) -> LimiterView {
        let rolled = self.rolled(now);
        LimiterView {
            weight: WindowView {
                used: if venue_used > rolled.weight.used {
                    venue_used
                } else {
                    rolled.weight.used
                },
                ..rolled.weight
            },
            ..rolled
        }
    }

    /// The limiter after the venue rejected a request, with a hint when to come back or without:
    /// the whole weight of the window that is on is given up, and it ends when the hint says.
    pub open spec fn rejected(self, retry_after: Option<Duration>, now: int) -> LimiterView {
        let w = self.weight.rolled(now);
        LimiterView {
            weight: WindowView {
                used: w.limit,
                started: match retry_after {
                    Some(after) => now + after.nanos - w.span,
                    None => w.started,
                },
                ..w
            },
            ..self
        }
    }

    /// The limiter after all that happened to it, in order.
    pub open spec fn lived(self, history: Seq<Happening>) -> LimiterView
        decreases history.len(),
    {
        if history.len() == 0 {
            self
        } else {
            let before = self.lived(history.drop_last());
            match history.last() {
                Happening::Asked { kind, weight, now } => before.after(kind, weight, now),
                Happening::Told { used, now } => before.observed(used, now),
                Happening::Rejected { retry_after, now } => before.rejected(retry_after, now),
            }
        }
    }

    /// How many requests were told to wait.
    pub open spec fn told_to_wait(self, history: Seq<Happening>) -> int
        decreases history.len(),
    {
        if history.len() == 0 {
            0
        } else {
            let before = history.drop_last();
            self.told_to_wait(before) + match history.last() {
                Happening::Asked { kind, weight, now } => if self.lived(before).rolled(now).allows(
                    kind,
                    weight,
                ) {
                    0int
                } else {
                    1
                },
                _ => 0,
            }
        }
    }

    /// The limiter after a storm of requests, each with its weight and its moment.
    pub open spec fn weathered(self, storm: Seq<(Kind, int, int)>) -> LimiterView
        decreases storm.len(),
    {
        if storm.len() == 0 {
            self
        } else {
            let (kind, weight, now) = storm.last();
            self.weathered(storm.drop_last()).after(kind, weight, now)
        }
    }

    /// The weight of what was sent of a storm.
    pub open spec fn sent(self, storm: Seq<(Kind, int, int)>) -> int
        decreases storm.len(),
    {
        if storm.len() == 0 {
            0
        } else {
            let (kind, weight, now) = storm.last();
            let before = storm.drop_last();
            self.sent(before) + if self.weathered(before).rolled(now).allows(kind, weight) {
                weight
            } else {
                0
            }
        }
    }

    /// Whether a request can be decided on without a counter or a clock overflowing.
    pub open spec fn can_decide(self, kind: Kind, weight: int, now: int) -> bool {
        let r = self.rolled(now);
        &&& self.weight.limit * DEFAULT_HEADROOM_PERMILLE <= u32::MAX
        &&& r.weight.used + weight + self.margin() <= u32::MAX
        &&& r.weight.started + r.weight.span <= u64::MAX
        &&& kind == Kind::Order ==> {
            &&& r.orders_10s.used < u32::MAX && r.orders_10s.started + r.orders_10s.span <= u64::MAX
            &&& r.orders_1m.used < u32::MAX && r.orders_1m.started + r.orders_1m.span <= u64::MAX
            &&& r.orders_1d.used < u32::MAX && r.orders_1d.started + r.orders_1d.span <= u64::MAX
        }
        &&& self.deferred < u64::MAX
    }
}

/// The longest of the waits, the last of them where several are as long; nothing where none of
/// the budgets makes a request wait.
pub open spec fn longest(waits: Seq<(Seq<char>, int)>) -> Option<(Seq<char>, int)>
    decreases waits.len(),
{
    if waits.len() == 0 {
        None
    } else {
        let rest = longest(waits.drop_last());
        let last = waits.last();
        if last.1 > 0 && (rest is None || (rest->0).1 <= last.1) {
            Some(last)
        } else {
            rest
        }
    }
}

/// Nothing waits exactly when no budget makes it wait.
proof fn lemma_longest(waits: Seq<(Seq<char>, int)>)
    ensures
        longest(waits) is None <==> forall|i: int|
            0 <= i < waits.len() ==> (#[trigger] waits[i]).1 <= 0,
        longest(waits) matches Some(w) ==> w.1 > 0 && waits.contains(w) && forall|i: int|
            0 <= i < waits.len() ==> (#[trigger] waits[i]).1 <= w.1,
    decreases waits.len(),
{
    if waits.len() > 0 {
        let rest = waits.drop_last();
        lemma_longest(rest);
        assert(waits[waits.len() - 1] == waits.last());
        if longest(rest) is None {
            assert forall|i: int| 0 <= i < waits.len() - 1 implies (#[trigger] waits[i]).1 <= 0 by {
                assert(rest[i] == waits[i]);
            }
        } else {
            let w = longest(rest)->0;
            let j = rest.index_of(w);
            assert(waits[j] == w);
            assert forall|i: int| 0 <= i < waits.len() - 1 implies (#[trigger] waits[i]).1
                <= w.1 by {
                assert(rest[i] == waits[i]);
            }
        }
    }
}

/// The longest wait wins: a caller that waits as long as it is told has waited for every budget.
pub proof fn longest_wait_covers_every_budget(waits: Seq<(Seq<char>, int)>, i: int)
    requires
        0 <= i < waits.len(),
    ensures
        waits[i].1 > 0 ==> longest(waits) is Some && waits[i].1 <= (longest(waits)->0).1,
{
    lemma_longest(waits);
}

impl RateLimiter {
    /// The windows have the spans that the venue counts over.
    pub closed spec fn wf(&self) -> bool {
        &&& self.weight@.span == 60_000_000_000
        &&& self.orders_10s@.span == 10_000_000_000
        &&& self.orders_1m@.span == 60_000_000_000
        &&& self.orders_1d@.span == 86_400_000_000_000
        &&& self.headroom_permille == DEFAULT_HEADROOM_PERMILLE
        &&& self.weight@.within_reach()
        &&& self.orders_10s@.within_reach()
        &&& self.orders_1m@.within_reach()
        &&& self.orders_1d@.within_reach()
    }

    /// What the venue counts over: a minute of weight, and ten seconds, a minute and a day of
    /// orders.
    pub proof fn lemma_spans(&self)
        requires
            self.wf(),
        ensures
            self@.weight.span == 60_000_000_000,
            self@.orders_10s.span == 10_000_000_000,
            self@.orders_1m.span == 60_000_000_000,
            self@.orders_1d.span == 86_400_000_000_000,
            self@.counts(),
    {
    }

    pub fn new(profile: &Profile, now: Instant) -> (r: RateLimiter)
        ensures
            r.wf(),
            r@ == (LimiterView {
                weight: WindowView {
                    limit: profile.weight_per_minute,
                    span: 60_000_000_000,
                    used: 0,
                    started: now.nanos as int,
                },
                orders_10s: WindowView {
                    limit: profile.orders_per_10s,
                    span: 10_000_000_000,
                    used: 0,
                    started: now.nanos as int,
                },
                orders_1m: WindowView {
                    limit: profile.orders_per_minute,
                    span: 60_000_000_000,
                    used: 0,
                    started: now.nanos as int,
                },
                orders_1d: WindowView {
                    limit: profile.orders_per_day,
                    span: 86_400_000_000_000,
                    used: 0,
                    started: now.nanos as int,
                },
                deferred: 0,
            }),
    {
        RateLimiter {
            weight: Window::new(profile.weight_per_minute, Duration::from_secs(60), now),
            orders_10s: Window::new(profile.orders_per_10s, Duration::from_secs(10), now),
            orders_1m: Window::new(profile.orders_per_minute, Duration::from_secs(60), now),
            orders_1d: Window::new(profile.orders_per_day, Duration::from_secs(86_400), now),
            headroom_permille: DEFAULT_HEADROOM_PERMILLE,
            deferred: 0,
        }
    }

    /// Ask whether a request may go out, charging it if so.
    ///
    /// Charging here rather than on success is deliberate: a request that is sent and then fails
    /// still consumed weight at the venue, so a limiter that only counted successes would drift
    /// low exactly while things were going wrong.
    pub fn check(&mut self, kind: Kind, weight: u32, now: Instant) -> (r: Decision)
        requires
            old(self).wf(),
            old(self)@.can_decide(kind, weight as int, now.nanos as int),
        ensures
            final(self).wf(),
            ({
                let rolled = old(self)@.rolled(now.nanos as int);
                let wait = longest(rolled.waits(kind, weight as int, now.nanos as int));
                &&& r is Send == rolled.allows(kind, weight as int)
                &&& match r {
                    Decision::Send => wait is None,
                    Decision::Wait { for_, budget } => wait == Some((budget@, for_.nanos as int)),
                }
            }),
            final(self)@ == old(self)@.after(kind, weight as int, now.nanos as int),
    {
        self.roll(now);
        let ghost rolled = self@;
        let ghost t = now.nanos as int;
        let effective: u32 = self.with_headroom(weight);
        let shared = self.weight.wait_for(effective, now);
        let mut budget: &'static str = "weight";
        let mut wait: Duration = shared;
        let ghost all = rolled.waits(kind, weight as int, t);
        proof {
            reveal_with_fuel(longest, 6);
            assert(old(self)@.weight.span > 0);
            rolling_lands_on_a_boundary(old(self)@.weight, t);
            rolling_lands_on_a_boundary(old(self)@.orders_10s, t);
            rolling_lands_on_a_boundary(old(self)@.orders_1m, t);
            rolling_lands_on_a_boundary(old(self)@.orders_1d, t);
        }
        if kind == Kind::Order {
            let w10s = self.orders_10s.wait_for(1, now);
            let w1m = self.orders_1m.wait_for(1, now);
            let w1d = self.orders_1d.wait_for(1, now);
            // The longest wait wins: satisfying one budget while another is exhausted would send
            // a request that gets rejected anyway.
            if w10s.nanos >= wait.nanos {
                budget = "orders_10s";
                wait = w10s;
            }
            if w1m.nanos >= wait.nanos {
                budget = "orders_1m";
                wait = w1m;
            }
            if w1d.nanos >= wait.nanos {
                budget = "orders_1d";
                wait = w1d;
            }
            proof {
                let s0 = all.drop_last();
                let s1 = s0.drop_last();
                let s2 = s1.drop_last();
                assert(s0.last() == all[2]);
                assert(s1.last() == all[1]);
                assert(s2.last() == all[0]);
                assert(s2.drop_last().len() == 0);
                assert(longest(s2) == if all[0].1 > 0 {
                    Some(all[0])
                } else {
                    None
                });
            }
        } else {
            proof {
                assert(all.drop_last().len() == 0);
            }
        }
        assert(wait.nanos > 0 ==> longest(all) == Some((budget@, wait.nanos as int)));
        assert(wait.nanos == 0 ==> longest(all) is None);
        if !wait.is_zero() {
            self.deferred = self.deferred + 1;
            return Decision::Wait { for_: wait, budget };
        }
        self.weight.charge(weight);
        if kind == Kind::Order {
            self.orders_10s.charge(1);
            self.orders_1m.charge(1);
            self.orders_1d.charge(1);
        }
        Decision::Send
    }

    /// Adopt the venue's own count of the weight used this minute.
    ///
    /// Only upward. A lower number from a response that raced with an increment would undo an
    /// increment that is still owed, and undercounting is the direction that ends in a ban.
    pub fn observe_used(&mut self, venue_used: u32, now: Instant)
        requires
            old(self).wf(),
        ensures
            final(self).wf(),
            final(self)@ == old(self)@.observed(venue_used, now.nanos as int),
    {
        self.roll(now);
        if venue_used > self.weight.used {
            self.weight.used = venue_used;
        }
    }

    /// The venue rejected a request for rate limiting anyway. Its own retry hint is taken as
    /// authoritative and nothing is sent until it passes.
    ///
    /// The response is to give up the whole window rather than to shave a little off: at this
    /// point the estimate has already been proven untrustworthy.
    pub fn observe_rejection(&mut self, retry_after: Option<Duration>, now: Instant)
        requires
            old(self).wf(),
            retry_after matches Some(after) ==> now.nanos + after.nanos <= u64::MAX,
        ensures
            final(self).wf(),
            final(self)@ == old(self)@.rejected(retry_after, now.nanos as int),
    {
        // The window that the venue counts in is the one that is on now.
        self.weight.roll(now);
        self.weight.used = self.weight.limit;
        if let Some(after) = retry_after {
            // Push the window's end out to where the venue says it is.
            let ends_at: i128 = now.nanos as i128 + after.nanos as i128;
            self.weight.started = ends_at - self.weight.span.nanos as i128;
        }
    }

    /// Requests refused locally rather than sent into a rejection. A number that climbs steadily
    /// means the limits are too tight for what is being asked.
    pub fn deferred(&self) -> (r: u64)
        ensures
            r == self@.deferred,
    {
        self.deferred
    }

    pub fn weight_window(&self) -> (r: &Window)
        ensures
            r@ == self@.weight,
    {
        &self.weight
    }

    fn roll(&mut self, now: Instant)
        requires
            old(self).wf(),
        ensures
            final(self).wf(),
            final(self)@ == old(self)@.rolled(now.nanos as int),
    {
        self.weight.roll(now);
        self.orders_10s.roll(now);
        self.orders_1m.roll(now);
        self.orders_1d.roll(now);
    }

    /// Inflate a cost by the headroom, so the budget is treated as slightly smaller than it is.
    fn with_headroom(&self, weight: u32) -> (r: u32)
        requires
            self.wf(),
            self@.weight.limit * DEFAULT_HEADROOM_PERMILLE <= u32::MAX,
            weight + self@.margin() <= u32::MAX,
        ensures
            r == weight + self@.margin(),
    {
        let held: u32 = self.weight.limit * self.headroom_permille / 1_000;
        weight + if held < 1 {
            1
        } else {
            held
        }
    }
}

/// A request goes out exactly where the weight used and its own leave a twentieth of the limit
/// free, and at least one, and an order only where it is also within the orders of ten seconds, of
/// a minute and of a day.
pub proof fn what_may_be_sent(limiter: LimiterView, kind: Kind, weight: int)
    ensures
        limiter.allows(kind, weight) <==> {
            &&& limiter.weight.used + weight + limiter.weight.limit as int / 20
                <= limiter.weight.limit
            &&& limiter.weight.used + weight + 1 <= limiter.weight.limit
            &&& kind == Kind::Order ==> {
                &&& limiter.orders_10s.used < limiter.orders_10s.limit
                &&& limiter.orders_1m.used < limiter.orders_1m.limit
                &&& limiter.orders_1d.used < limiter.orders_1d.limit
            }
        },
{
    let l = limiter.weight.limit as int;
    assert(l * 50 / 1_000 == l / 20) by (nonlinear_arith)
        requires
            l >= 0,
    ;
}

/// What is sent counts: its weight against the weight and, of an order, one against each count of
/// orders. What is refused counts against nothing.
pub proof fn what_is_sent_counts(limiter: LimiterView, kind: Kind, weight: int, now: int)
    requires
        0 <= weight,
        limiter.deferred < u64::MAX,
    ensures
        ({
            let rolled = limiter.rolled(now);
            let after = limiter.after(kind, weight, now);
            let orders: int = if kind == Kind::Order {
                1
            } else {
                0
            };
            &&& rolled.allows(kind, weight) ==> {
                &&& after.weight.used == rolled.weight.used + weight
                &&& after.orders_10s.used == rolled.orders_10s.used + orders
                &&& after.orders_1m.used == rolled.orders_1m.used + orders
                &&& after.orders_1d.used == rolled.orders_1d.used + orders
                &&& after.deferred == limiter.deferred
            }
            &&& !rolled.allows(kind, weight) ==> {
                &&& after.weight.used == rolled.weight.used
                &&& after.orders_10s.used == rolled.orders_10s.used
                &&& after.orders_1m.used == rolled.orders_1m.used
                &&& after.orders_1d.used == rolled.orders_1d.used
                &&& after.deferred == limiter.deferred + 1
            }
            &&& after.weight.limit == limiter.weight.limit
            &&& after.orders_10s.limit == limiter.orders_10s.limit
            &&& after.orders_1m.limit == limiter.orders_1m.limit
            &&& after.orders_1d.limit == limiter.orders_1d.limit
        }),
{
}

/// A count goes back to nothing when its window ends, and not a moment before.
pub proof fn a_count_lasts_as_long_as_its_window(window: WindowView, now: int)
    requires
        window.span > 0,
    ensures
        now < window.started + window.span ==> window.rolled(now) == window,
        now >= window.started + window.span ==> window.rolled(now).used == 0
            && window.rolled(now).started > now - window.span,
{
    rolling_lands_on_a_boundary(window, now);
}

/// Every budget is counted in a window of its own.
pub proof fn windows_turn_over_on_their_own(limiter: LimiterView, now: int)
    ensures
        limiter.rolled(now).weight == limiter.weight.rolled(now),
        limiter.rolled(now).orders_10s == limiter.orders_10s.rolled(now),
        limiter.rolled(now).orders_1m == limiter.orders_1m.rolled(now),
        limiter.rolled(now).orders_1d == limiter.orders_1d.rolled(now),
        limiter.rolled(now).deferred == limiter.deferred,
{
}

/// The venue's count is adopted where it is higher and ignored where it is lower; nothing else is
/// touched by it.
pub proof fn counts_are_adopted_upward(limiter: LimiterView, venue_used: u32, now: int)
    ensures
        ({
            let rolled = limiter.rolled(now);
            let after = limiter.observed(venue_used, now);
            &&& after.weight.used >= venue_used
            &&& after.weight.used >= rolled.weight.used
            &&& after.weight.used == venue_used || after.weight.used == rolled.weight.used
            &&& after.weight.started == rolled.weight.started
            &&& after.weight.limit == limiter.weight.limit
            &&& after.weight.span == limiter.weight.span
            &&& after.orders_10s == rolled.orders_10s
            &&& after.orders_1m == rolled.orders_1m
            &&& after.orders_1d == rolled.orders_1d
            &&& after.deferred == limiter.deferred
        }),
{
}

/// A rejection uses the weight up until the venue's hint has passed; then all of it is back. The
/// orders are not touched by it.
pub proof fn a_rejection_ends_when_the_hint_says(
    limiter: LimiterView,
    after: Duration,
    now: int,
    later: int,
)
    requires
        limiter.weight.span > 0,
    ensures
        ({
            let rejected = limiter.rejected(Some(after), now);
            &&& later < now + after.nanos ==> rejected.weight.rolled(later).used
                == limiter.weight.limit
            &&& later >= now + after.nanos ==> rejected.weight.rolled(later).used == 0
            &&& rejected.orders_10s == limiter.orders_10s
            &&& rejected.orders_1m == limiter.orders_1m
            &&& rejected.orders_1d == limiter.orders_1d
            &&& rejected.deferred == limiter.deferred
            &&& limiter.rejected(None, now).weight.used == limiter.weight.limit
            &&& limiter.rejected(None, now).weight.started == limiter.weight.rolled(now).started
        }),
{
}

/// The budget that a refusal names is one that is exhausted, and the wait is the time until its
/// window ends.
pub proof fn a_refusal_names_its_budget(limiter: LimiterView, kind: Kind, weight: int, now: int)
    requires
        longest(limiter.waits(kind, weight, now)) is Some,
    ensures
        ({
            let (budget, wait) = longest(limiter.waits(kind, weight, now))->0;
            ||| budget == "weight"@ && limiter.weight.used + weight + limiter.margin()
                > limiter.weight.limit && now + wait == limiter.weight.started + limiter.weight.span
            ||| budget == "orders_10s"@ && kind == Kind::Order && limiter.orders_10s.used
                >= limiter.orders_10s.limit && now + wait == limiter.orders_10s.started
                + limiter.orders_10s.span
            ||| budget == "orders_1m"@ && kind == Kind::Order && limiter.orders_1m.used
                >= limiter.orders_1m.limit && now + wait == limiter.orders_1m.started
                + limiter.orders_1m.span
            ||| budget == "orders_1d"@ && kind == Kind::Order && limiter.orders_1d.used
                >= limiter.orders_1d.limit && now + wait == limiter.orders_1d.started
                + limiter.orders_1d.span
        }),
{
    let waits = limiter.waits(kind, weight, now);
    lemma_longest(waits);
    let i = waits.index_of(longest(waits)->0);
    assert(waits[i] == longest(waits)->0);
}

/// Where several budgets make a request wait as long, the one that is named is the last of them.
pub proof fn the_last_of_the_longest_is_named(waits: Seq<(Seq<char>, int)>)
    ensures
        longest(waits) matches Some(w) ==> exists|i: int|
            0 <= i < waits.len() && #[trigger] waits[i] == w && forall|j: int|
                i < j < waits.len() ==> (#[trigger] waits[j]).1 < w.1,
    decreases waits.len(),
{
    if waits.len() > 0 {
        let rest = waits.drop_last();
        the_last_of_the_longest_is_named(rest);
        assert(waits[waits.len() - 1] == waits.last());
        if longest(waits) is Some {
            let w = longest(waits)->0;
            if longest(waits) == longest(rest) && w != waits.last() {
                lemma_longest(rest);
                let i = choose|i: int|
                    0 <= i < rest.len() && #[trigger] rest[i] == w && forall|j: int|
                        i < j < rest.len() ==> (#[trigger] rest[j]).1 < w.1;
                assert(waits[i] == w);
                assert forall|j: int| i < j < waits.len() implies (#[trigger] waits[j]).1 < w.1 by {
                    if j < rest.len() {
                        assert(rest[j] == waits[j]);
                    }
                }
            }
        }
    }
}

/// Nothing is sent that would run the weight to its limit: what has been charged in a window,
/// with the margin, stays within it.
pub proof fn sending_keeps_the_margin(limiter: LimiterView, kind: Kind, weight: int)
    requires
        0 <= weight,
        limiter.allows(kind, weight),
    ensures
        ({
            let after = limiter.charged(kind, weight);
            &&& after.weight.used == limiter.weight.used + weight
            &&& after.weight.used + limiter.margin() <= limiter.weight.limit
            &&& kind == Kind::Order ==> {
                &&& after.orders_10s.used <= limiter.orders_10s.limit
                &&& after.orders_1m.used <= limiter.orders_1m.limit
                &&& after.orders_1d.used <= limiter.orders_1d.limit
            }
            &&& kind == Kind::Request ==> after.orders_10s == limiter.orders_10s
                && after.orders_1m == limiter.orders_1m && after.orders_1d == limiter.orders_1d
        }),
{
}

/// However many requests are asked for within one window, what is sent of them stays within the
/// budget with its margin, so the venue has nothing to reject.
pub proof fn a_storm_stays_within_the_budget(limiter: LimiterView, storm: Seq<(Kind, int, int)>)
    requires
        forall|i: int|
            0 <= i < storm.len() ==> 0 <= (#[trigger] storm[i]).1 && storm[i].2
                < limiter.weight.started + limiter.weight.span,
    ensures
        limiter.weathered(storm).weight == (WindowView {
            used: (limiter.weight.used + limiter.sent(storm)) as u32,
            ..limiter.weight
        }),
        limiter.sent(storm) >= 0,
        limiter.sent(storm) > 0 ==> limiter.weight.used + limiter.sent(storm) + limiter.margin()
            <= limiter.weight.limit,
    decreases storm.len(),
{
    if storm.len() > 0 {
        let before = storm.drop_last();
        assert forall|i: int| 0 <= i < before.len() implies 0 <= (#[trigger] before[i]).1
            && before[i].2 < limiter.weight.started + limiter.weight.span by {
            assert(before[i] == storm[i]);
        }
        a_storm_stays_within_the_budget(limiter, before);
        assert(storm[storm.len() - 1] == storm.last());
    }
}

/// After a rejection nothing is sent until the venue's hint has passed or, without one, until the
/// window that was on has turned over.
pub proof fn a_rejection_stops_sending(
    limiter: LimiterView,
    retry_after: Option<Duration>,
    now: int,
    kind: Kind,
    weight: int,
    later: int,
)
    requires
        limiter.weight.span > 0,
        0 <= weight,
        match retry_after {
            Some(after) => later < now + after.nanos,
            None => later < limiter.weight.rolled(now).started + limiter.weight.span,
        },
    ensures
        !limiter.rejected(retry_after, now).rolled(later).allows(kind, weight),
        retry_after is None ==> now < limiter.weight.rolled(now).started + limiter.weight.span,
{
    rolling_lands_on_a_boundary(limiter.weight, now);
}

/// Whatever happens, the count of deferred requests is the number of requests that were told to
/// wait.
pub proof fn deferred_counts_the_waits(limiter: LimiterView, history: Seq<Happening>)
    requires
        limiter.deferred + history.len() <= u64::MAX,
    ensures
        limiter.lived(history).deferred == limiter.deferred + limiter.told_to_wait(history),
        0 <= limiter.told_to_wait(history) <= history.len(),
    decreases history.len(),
{
    if history.len() > 0 {
        deferred_counts_the_waits(limiter, history.drop_last());
    }
}

/// Rolling a window twice is rolling it once, to the later moment.
proof fn lemma_rolled_twice(window: WindowView, first: int, second: int)
    requires
        window.span > 0,
        first <= second,
    ensures
        window.rolled(first).rolled(second) == window.rolled(second),
{
    let s = window.span;
    let e = first - window.started;
    let f = second - window.started;
    if e >= s {
        let (m, n) = (e / s, f / s);
        vstd::arithmetic::div_mod::lemma_fundamental_div_mod(e, s);
        vstd::arithmetic::div_mod::lemma_fundamental_div_mod(f, s);
        vstd::arithmetic::div_mod::lemma_mod_bound(e, s);
        vstd::arithmetic::div_mod::lemma_mod_bound(f, s);
        let g = f - s * m;
        assert(s * (n - m) == s * n - s * m) by (nonlinear_arith);
        assert((n - m) * s == s * (n - m)) by (nonlinear_arith);
        vstd::arithmetic::div_mod::lemma_fundamental_div_mod_converse(g, s, n - m, f % s);
        assert(g / s == n - m);
        if g < s {
            assert(n == m) by (nonlinear_arith)
                requires
                    g == s * (n - m) + f % s,
                    0 <= f % s,
                    0 <= g < s,
                    s > 0,
            ;
        }
    }
}

/// While a window is on and its budget does not take a cost, it goes on not taking it; and once it
/// has turned over it takes any cost that is no more than its limit.
proof fn lemma_budget(window: WindowView, cost: int, now: int, later: int)
    requires
        window.span > 0,
        now <= later,
        0 <= cost <= window.limit,
    ensures
        ({
            let w = window.rolled(now);
            let wait = w.wait(cost, now);
            &&& wait > 0 <==> !w.fits(cost)
            &&& later < now + wait ==> !window.rolled(later).fits(cost)
            &&& later >= now + wait ==> window.rolled(later).fits(cost)
        }),
{
    rolling_lands_on_a_boundary(window, now);
    lemma_rolled_twice(window, now, later);
}

/// Whether a request fits into budgets that nothing has been drawn on.
pub open spec fn fits_empty(limiter: LimiterView, kind: Kind, weight: int) -> bool {
    &&& 0 <= weight
    &&& weight + limiter.margin() <= limiter.weight.limit
    &&& kind == Kind::Order ==> limiter.orders_10s.limit >= 1 && limiter.orders_1m.limit >= 1
        && limiter.orders_1d.limit >= 1
}

/// The wait that is told is that of the longest exhausted budget, enough and not a moment more:
/// where nothing else happens, the same request is refused at every moment before and allowed once
/// the wait is over. This leaves out a request that no empty budget takes.
pub proof fn the_wait_is_exact(
    limiter: LimiterView,
    kind: Kind,
    weight: int,
    now: int,
    later: int,
)
    requires
        limiter.counts(),
        fits_empty(limiter, kind, weight),
        !limiter.rolled(now).allows(kind, weight),
        now <= later,
    ensures
        ({
            let told = longest(limiter.rolled(now).waits(kind, weight, now));
            &&& told is Some
            &&& (told->0).1 > 0
            &&& limiter.rolled(later).allows(kind, weight) <==> later >= now + (told->0).1
        }),
{
    let rolled = limiter.rolled(now);
    let waits = rolled.waits(kind, weight, now);
    let cost = weight + limiter.margin();
    lemma_longest(waits);
    lemma_budget(limiter.weight, cost, now, later);
    if kind == Kind::Order {
        lemma_budget(limiter.orders_10s, 1, now, later);
        lemma_budget(limiter.orders_1m, 1, now, later);
        lemma_budget(limiter.orders_1d, 1, now, later);
        assert(waits[0].1 == rolled.weight.wait(cost, now));
        assert(waits[1].1 == rolled.orders_10s.wait(1, now));
        assert(waits[2].1 == rolled.orders_1m.wait(1, now));
        assert(waits[3].1 == rolled.orders_1d.wait(1, now));
    } else {
        assert(waits[0].1 == rolled.weight.wait(cost, now));
    }
}

/// The same request asked for again and again, at these moments.
pub open spec fn retries(kind: Kind, weight: int, moments: Seq<int>) -> Seq<(Kind, int, int)> {
    moments.map_values(|now: int| (kind, weight, now))
}

/// However often a caller that was told to wait asks again in the meantime, it is refused until the
/// wait that it was told first is over, and then allowed: asking does not push the end of the wait
/// out.
pub proof fn asking_again_changes_nothing(
    limiter: LimiterView,
    kind: Kind,
    weight: int,
    now: int,
    moments: Seq<int>,
    later: int,
)
    requires
        limiter.counts(),
        fits_empty(limiter, kind, weight),
        !limiter.rolled(now).allows(kind, weight),
        forall|i: int| 0 <= i < moments.len() ==> now <= #[trigger] moments[i] <= later,
        forall|i: int, j: int|
            0 <= i <= j < moments.len() ==> #[trigger] moments[i] <= #[trigger] moments[j],
        now <= later,
        moments.len() > 0 ==> moments.last() < now + (longest(
            limiter.rolled(now).waits(kind, weight, now),
        )->0).1,
    ensures
        limiter.after(kind, weight, now).weathered(retries(kind, weight, moments)).rolled(
            later,
        ).allows(kind, weight) <==> later >= now + (longest(
            limiter.rolled(now).waits(kind, weight, now),
        )->0).1,
        limiter.after(kind, weight, now).sent(retries(kind, weight, moments)) == 0,
    decreases moments.len(),
{
    let storm = retries(kind, weight, moments);
    the_wait_is_exact(limiter, kind, weight, now, later);
    lemma_only_rolled(limiter, kind, weight, now, moments, later);
    if moments.len() > 0 {
        let before = moments.drop_last();
        let last = moments.last();
        assert forall|i: int| 0 <= i < before.len() implies now <= #[trigger] before[i] <= last by {
            assert(moments[i] <= moments[moments.len() - 1]);
        }
        assert forall|i: int, j: int| 0 <= i <= j < before.len() implies #[trigger] before[i]
            <= #[trigger] before[j] by {
            assert(moments[i] <= moments[j]);
        }
        if before.len() > 0 {
            assert(before.last() == moments[moments.len() - 2]);
            assert(moments[moments.len() - 2] <= moments[moments.len() - 1]);
        }
        assert(now <= moments[moments.len() - 1]);
        assert(storm.drop_last() =~= retries(kind, weight, before));
        assert(storm.last() == (kind, weight, last));
        asking_again_changes_nothing(limiter, kind, weight, now, before, last);
    }
}

/// Whether two limiters have the same budgets, whatever they have deferred.
spec fn same_budgets(a: LimiterView, b: LimiterView) -> bool {
    &&& a.weight == b.weight
    &&& a.orders_10s == b.orders_10s
    &&& a.orders_1m == b.orders_1m
    &&& a.orders_1d == b.orders_1d
}

proof fn lemma_rolled_limiter(limiter: LimiterView, first: int, second: int)
    requires
        limiter.counts(),
        first <= second,
    ensures
        limiter.rolled(first).rolled(second) == limiter.rolled(second),
{
    lemma_rolled_twice(limiter.weight, first, second);
    lemma_rolled_twice(limiter.orders_10s, first, second);
    lemma_rolled_twice(limiter.orders_1m, first, second);
    lemma_rolled_twice(limiter.orders_1d, first, second);
}

/// A refused request leaves the budgets where time alone has brought them.
proof fn lemma_only_rolled(
    limiter: LimiterView,
    kind: Kind,
    weight: int,
    now: int,
    moments: Seq<int>,
    later: int,
)
    requires
        limiter.counts(),
        fits_empty(limiter, kind, weight),
        !limiter.rolled(now).allows(kind, weight),
        forall|i: int| 0 <= i < moments.len() ==> now <= #[trigger] moments[i] <= later,
        forall|i: int, j: int|
            0 <= i <= j < moments.len() ==> #[trigger] moments[i] <= #[trigger] moments[j],
        now <= later,
        moments.len() > 0 ==> moments.last() < now + (longest(
            limiter.rolled(now).waits(kind, weight, now),
        )->0).1,
    ensures
        same_budgets(
            limiter.after(kind, weight, now).weathered(retries(kind, weight, moments)).rolled(later),
            limiter.rolled(later),
        ),
    decreases moments.len(),
{
    let storm = retries(kind, weight, moments);
    lemma_rolled_limiter(limiter, now, later);
    if moments.len() > 0 {
        let before = moments.drop_last();
        let last = moments.last();
        assert forall|i: int| 0 <= i < before.len() implies now <= #[trigger] before[i] <= last by {
            assert(moments[i] <= moments[moments.len() - 1]);
        }
        assert forall|i: int, j: int| 0 <= i <= j < before.len() implies #[trigger] before[i]
            <= #[trigger] before[j] by {
            assert(moments[i] <= moments[j]);
        }
        if before.len() > 0 {
            assert(before.last() == moments[moments.len() - 2]);
            assert(moments[moments.len() - 2] <= moments[moments.len() - 1]);
        }
        assert(now <= moments[moments.len() - 1]);
        assert(storm.drop_last() =~= retries(kind, weight, before));
        assert(storm.last() == (kind, weight, last));
        lemma_only_rolled(limiter, kind, weight, now, before, last);
        the_wait_is_exact(limiter, kind, weight, now, last);
        lemma_rolled_limiter(limiter, last, later);
    } else {
        assert(storm =~= Seq::empty());
    }
}

/// A request heavier than the whole budget is refused at every moment, so retrying it never
/// helps.
pub proof fn too_heavy_is_never_sent(limiter: LimiterView, kind: Kind, weight: int, now: int)
    requires
        weight >= limiter.weight.limit,
    ensures
        !limiter.rolled(now).allows(kind, weight),
{
}

} // verus!

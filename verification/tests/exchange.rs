use moon_own::domain::ids::{ExchangeId, MarketKind, Symbol};
use moon_own::exchange::caps::{Caps, BINANCE_SPOT, BINANCE_USDM};
use moon_own::exchange::error::{Credentials, Error, Subscription};
use moon_own::exchange::limits::{Decision, Kind, Profile, RateLimiter};
use moon_own::exchange::moment::{Duration, Instant};
use moon_own::exchange::venue::{offers, EventSink, Exchange};

fn spot() -> Caps {
    Caps(BINANCE_SPOT)
}

fn usdm() -> Caps {
    Caps(BINANCE_USDM)
}

// ---------------------------------------------------------------------- caps

#[test]
fn the_catalogue_has_at_least_twenty_flags_and_no_collisions() {
    // Collisions are the failure mode of a hand-numbered bitmask, and they are silent: two
    // capabilities sharing a bit means declaring one grants the other.
    let all = Caps::all_known();
    let count = all.names().len();
    assert!(count >= 20, "only {count} capabilities declared");
    assert_eq!(count, all.0.count_ones() as usize, "two flags share a bit");
}

#[test]
fn absent_means_unsupported_rather_than_unknown() {
    let nothing = Caps::default();
    assert!(nothing.is_empty());
    assert!(!nothing.contains(Caps(Caps::LIMIT)));
    assert_eq!(nothing.to_string(), "none");
}

#[test]
fn amending_on_a_venue_without_it_is_unsupported_not_emulated() {
    let refusal =
        spot().require(Caps(Caps::AMEND_IN_PLACE), "amend_order", MarketKind::Spot).unwrap_err();

    assert!(matches!(
        refusal,
        Error::Unsupported { what: "amend_order", market: MarketKind::Spot }
    ));
    assert!(!refusal.is_retryable(), "retrying will not make the venue grow the endpoint");

    // And where it exists, the same call is allowed.
    assert!(usdm()
        .require(Caps(Caps::AMEND_IN_PLACE), "amend_order", MarketKind::LinearPerp)
        .is_ok());
}

#[test]
fn the_refusal_names_the_call_and_the_market() {
    let message = spot()
        .require(Caps(Caps::HEDGE_MODE), "set_position_mode", MarketKind::Spot)
        .unwrap_err()
        .to_string();
    assert!(message.contains("set_position_mode"), "got: {message}");
    assert!(message.contains("spot"), "got: {message}");
}

#[test]
fn spot_and_futures_differ_where_they_actually_differ() {
    assert!(!spot().contains(Caps(Caps::AMEND_IN_PLACE)), "spot has no amend endpoint");
    assert!(usdm().contains(Caps(Caps::AMEND_IN_PLACE)));

    assert!(!spot().contains(Caps(Caps::HEDGE_MODE)), "spot has no positions at all");
    assert!(usdm().contains(Caps(Caps::HEDGE_MODE)));

    assert!(!spot().contains(Caps(Caps::FUNDING)));
    assert!(usdm().contains(Caps(Caps::FUNDING)));

    assert!(!spot().contains(Caps(Caps::LIQUIDATION_PRICE)), "nothing to liquidate on spot");
    assert!(usdm().contains(Caps(Caps::LIQUIDATION_PRICE)));
}

#[test]
fn futures_offer_everything_spot_does() {
    assert!(
        usdm().contains(spot()),
        "USD-M is missing {:?}",
        spot().without(usdm()).names()
    );
}

#[test]
fn both_profiles_declare_the_basics() {
    for (name, caps) in [("spot", spot()), ("usdm", usdm())] {
        for required in [
            Caps(Caps::LIMIT),
            Caps(Caps::MARKET),
            Caps(Caps::CLIENT_ORDER_ID),
            Caps(Caps::USER_STREAM),
        ] {
            assert!(caps.contains(required), "{name} is missing {}", required.names()[0]);
        }
    }
}

#[test]
fn contains_requires_all_the_bits_asked_for() {
    let both = Caps(Caps::LIMIT | Caps::MARKET);
    assert!(both.contains(Caps(Caps::LIMIT)));
    assert!(both.contains(both));
    assert!(!Caps(Caps::LIMIT).contains(both));
    assert_eq!(Caps(Caps::LIMIT).union(Caps(Caps::MARKET)), both);
}

#[test]
fn a_capability_set_survives_the_wire_as_one_number() {
    let encoded = rmp_serde::to_vec_named(&usdm().0).unwrap();
    assert!(encoded.len() <= 9, "encoded as {} bytes", encoded.len());
    assert_eq!(Caps(rmp_serde::from_slice::<u64>(&encoded).unwrap()), usdm());
}

#[test]
fn the_display_form_is_readable_and_complete() {
    let text = spot().to_string();
    assert!(text.contains("limit"));
    assert!(!text.contains("amend_in_place"), "must not claim what is absent");
    assert_eq!(text.split(" | ").count(), spot().names().len());
}

#[test]
fn an_unknown_bit_does_not_break_the_display() {
    // A newer core may declare a capability this build has never heard of.
    let future = spot().union(Caps(1 << 63));
    assert_eq!(future.names(), spot().names(), "the unknown bit is skipped");
    assert!(future.contains(Caps(Caps::LIMIT)), "and the known ones still resolve");
}

#[test]
fn taking_a_flag_out_leaves_the_others() {
    let less = spot().without(Caps(Caps::LIMIT));
    assert!(!less.contains(Caps(Caps::LIMIT)));
    assert!(less.contains(Caps(Caps::MARKET)));
    assert_eq!(less.union(Caps(Caps::LIMIT)), spot());
}

// --------------------------------------------------------------------- error

#[test]
fn only_transient_failures_are_retryable() {
    assert!(Error::Transport("reset".into()).is_retryable());
    assert!(Error::RateLimited { retry_after_ms: Some(500) }.is_retryable());

    // A rejection retried unchanged just gets rejected again.
    assert!(!Error::Rejected { code: "-2010".into(), message: "insufficient balance".into() }
        .is_retryable());
    assert!(!Error::Auth("bad signature".into()).is_retryable());
    // A malformed order update means local state is already suspect: resync, do not retry.
    assert!(!Error::Malformed("unknown status".into()).is_retryable());
}

#[test]
fn credentials_never_render_their_secret() {
    let creds =
        Credentials { api_key: "AK_LIVE_1234".into(), api_secret: "SUPERSECRET".into() };
    let rendered = creds.redacted();
    assert!(!rendered.contains("SUPERSECRET"));
    assert!(!rendered.contains("AK_LIVE_1234"));
}

#[test]
fn every_error_says_what_went_wrong() {
    assert_eq!(Error::Transport("reset".into()).to_string(), "transport: reset");
    assert_eq!(
        Error::Rejected { code: "-2010".into(), message: "no".into() }.to_string(),
        "venue rejected (-2010): no"
    );
    assert_eq!(
        Error::RateLimited { retry_after_ms: Some(500) }.to_string(),
        "rate limited (retry after Some(500) ms)"
    );
    assert_eq!(
        Error::RateLimited { retry_after_ms: None }.to_string(),
        "rate limited (retry after None ms)"
    );
    assert_eq!(Error::Auth("who".into()).to_string(), "auth: who");
    assert_eq!(
        Error::Malformed("what".into()).to_string(),
        "malformed venue response: what"
    );
    assert_eq!(
        Error::Unsupported { what: "amend", market: MarketKind::Spot }.to_string(),
        "amend is not supported on spot"
    );
}

#[test]
fn every_subscription_concerns_an_instrument() {
    let s = Symbol::new(ExchangeId::Binance, MarketKind::Spot, "BTCUSDT");
    for sub in [
        Subscription::Trades(s.clone()),
        Subscription::Book(s.clone()),
        Subscription::Candles { symbol: s.clone(), interval_ms: 60_000 },
    ] {
        assert_eq!(sub.symbol(), &s);
    }
}

// -------------------------------------------------------------------- limits

fn origin() -> Instant {
    Instant { nanos: 5_000_000_000_000 }
}

fn at(ms: u64) -> Instant {
    origin().plus(Duration::from_millis(ms))
}

fn limiter() -> RateLimiter {
    RateLimiter::new(&Profile::binance_spot(), origin())
}

#[test]
fn a_storm_of_a_thousand_requests_a_second_produces_no_rejection() {
    // What is asserted is not that everything got through, most of it should not, but that
    // nothing was sent that the venue would have refused.
    let mut rl = limiter();
    let profile = Profile::binance_spot();

    let (mut sent, mut deferred) = (0u32, 0u32);
    let mut weight_this_minute = 0u32;
    let mut minute = 0u64;

    for ms in 0..60_000u64 {
        // A thousand a second, weight 5 each: a book snapshot.
        if ms % 60_000 < 60_000 && ms / 60_000 != minute {
            minute = ms / 60_000;
            weight_this_minute = 0;
        }
        for _ in 0..1 {
            match rl.check(Kind::Request, 5, at(ms)) {
                Decision::Send => {
                    sent += 1;
                    weight_this_minute += 5;
                }
                Decision::Wait { .. } => deferred += 1,
            }
        }
    }

    println!("{sent} sent, {deferred} deferred, {weight_this_minute} weight used in the minute");
    assert!(
        weight_this_minute <= profile.weight_per_minute,
        "sent {weight_this_minute} weight against a limit of {}",
        profile.weight_per_minute
    );
    assert!(deferred > 0, "the storm must actually have been throttled");
    assert_eq!(rl.deferred(), deferred as u64);
}

#[test]
fn an_exhausted_budget_defers_rather_than_sending() {
    let mut rl = limiter();
    while rl.check(Kind::Request, 100, at(0)).is_send() {}

    match rl.check(Kind::Request, 100, at(0)) {
        Decision::Wait { for_, budget } => {
            assert_eq!(budget, "weight");
            assert!(for_ > Duration::zero() && for_ <= Duration::from_secs(60));
        }
        Decision::Send => panic!("an exhausted budget must not send"),
    }
}

#[test]
fn a_deferred_request_costs_nothing() {
    let mut rl = limiter();
    while rl.check(Kind::Request, 100, at(0)).is_send() {}
    let used = rl.weight_window().used();

    for _ in 0..100 {
        rl.check(Kind::Request, 100, at(0));
    }
    assert_eq!(rl.weight_window().used(), used, "deferrals must not accumulate weight");
}

#[test]
fn the_budget_returns_when_the_window_turns_over() {
    let mut rl = limiter();
    while rl.check(Kind::Request, 100, at(0)).is_send() {}
    assert!(!rl.check(Kind::Request, 100, at(59_999)).is_send());
    assert!(rl.check(Kind::Request, 100, at(60_000)).is_send(), "a new minute is a new budget");
}

#[test]
fn a_long_idle_period_lands_on_a_window_boundary_not_on_now() {
    let mut rl = limiter();
    rl.check(Kind::Request, 10, at(0));
    rl.check(Kind::Request, 10, at(600_500));

    let window = rl.weight_window();
    let offset = (window.started() - origin().nanos as i128) / 1_000_000 % 60_000;
    assert_eq!(offset, 0, "the window drifted by {offset} ms");
}

#[test]
fn a_burst_at_the_top_of_a_minute_is_allowed() {
    let mut rl = limiter();
    for i in 0..40 {
        assert!(rl.check(Kind::Request, 5, at(0)).is_send(), "request {i} was throttled");
    }
}

#[test]
fn orders_are_limited_by_their_own_counters_before_the_weight_runs_out() {
    let mut rl = limiter();
    let mut placed = 0;
    while rl.check(Kind::Order, 1, at(0)).is_send() {
        placed += 1;
        assert!(
            placed <= Profile::binance_spot().orders_per_10s,
            "the 10-second cap was ignored"
        );
    }
    assert_eq!(placed, Profile::binance_spot().orders_per_10s);
}

#[test]
fn a_request_is_not_charged_against_the_order_counters() {
    let mut rl = limiter();
    for _ in 0..500 {
        rl.check(Kind::Request, 1, at(0));
    }
    assert!(
        rl.check(Kind::Order, 1, at(0)).is_send(),
        "queries must not consume order budget"
    );
}

#[test]
fn the_longest_wait_wins_when_several_budgets_are_exhausted() {
    let mut rl = limiter();
    while rl.check(Kind::Order, 1, at(0)).is_send() {}

    match rl.check(Kind::Order, 1, at(0)) {
        Decision::Wait { budget, for_ } => {
            assert_eq!(budget, "orders_10s", "the tightest budget is the ten-second one");
            assert!(for_ <= Duration::from_secs(10));
        }
        Decision::Send => panic!("expected a deferral"),
    }
}

#[test]
fn the_ten_second_budget_returns_before_the_daily_one() {
    let mut rl = limiter();
    while rl.check(Kind::Order, 1, at(0)).is_send() {}
    assert!(
        rl.check(Kind::Order, 1, at(10_000)).is_send(),
        "ten seconds is a new sub-window"
    );
}

#[test]
fn the_venue_header_corrects_an_undercount() {
    let mut rl = limiter();
    rl.check(Kind::Request, 10, at(0));
    assert_eq!(rl.weight_window().used(), 10);

    rl.observe_used(5_900, at(0));
    assert_eq!(rl.weight_window().used(), 5_900);
    assert!(!rl.check(Kind::Request, 200, at(0)).is_send(), "and it takes effect at once");
}

#[test]
fn the_venue_header_never_lowers_our_count() {
    let mut rl = limiter();
    rl.check(Kind::Request, 500, at(0));
    rl.observe_used(100, at(0));
    assert_eq!(rl.weight_window().used(), 500, "a stale header must not lower the count");
}

#[test]
fn an_actual_rejection_gives_up_the_whole_window() {
    let mut rl = limiter();
    assert!(rl.check(Kind::Request, 1, at(0)).is_send());

    rl.observe_rejection(Some(Duration::from_secs(30)), at(1_000));
    assert!(!rl.check(Kind::Request, 1, at(1_000)).is_send());
    assert!(
        !rl.check(Kind::Request, 1, at(30_000)).is_send(),
        "still inside the venue's hint"
    );
    assert!(rl.check(Kind::Request, 1, at(31_001)).is_send(), "and released after it");
}

#[test]
fn a_rejection_without_a_hint_still_stops_the_window() {
    let mut rl = limiter();
    rl.observe_rejection(None, at(0));
    assert!(!rl.check(Kind::Request, 1, at(0)).is_send());
}

#[test]
fn a_rejection_gives_up_the_window_that_is_on() {
    let mut rl = limiter();
    rl.observe_rejection(None, at(61_000));
    assert!(!rl.check(Kind::Request, 1, at(61_000)).is_send(), "the minute has turned over");
    assert!(!rl.check(Kind::Request, 1, at(119_999)).is_send());
    assert!(rl.check(Kind::Request, 1, at(120_000)).is_send(), "and the next one is free");
}

#[test]
fn a_hint_is_kept_to_right_after_the_start_of_the_clock() {
    let start = Instant { nanos: 0 };
    let mut rl = RateLimiter::new(&Profile::binance_spot(), start);
    rl.observe_rejection(Some(Duration::from_secs(5)), start);
    assert!(!rl.check(Kind::Request, 1, Instant { nanos: 4_999_999_999 }).is_send());
    assert!(rl.check(Kind::Request, 1, Instant { nanos: 5_000_000_000 }).is_send());
}

#[test]
fn the_wait_that_is_told_is_enough_and_not_a_moment_more() {
    let mut rl = limiter();
    while rl.check(Kind::Order, 1, at(3_000)).is_send() {}
    let waits = rl.deferred();
    let (wait, budget) = match rl.check(Kind::Order, 1, at(4_000)) {
        Decision::Wait { for_, budget } => (for_, budget),
        other => panic!("got {other:?}"),
    };
    assert_eq!(budget, "orders_10s");
    let over = at(4_000).nanos + wait.nanos;
    // Asking again in the meantime does not push the end out.
    assert!(!rl.check(Kind::Order, 1, at(5_000)).is_send());
    assert!(!rl.check(Kind::Order, 1, Instant { nanos: over - 1 }).is_send());
    assert!(rl.check(Kind::Order, 1, Instant { nanos: over }).is_send());
    assert_eq!(rl.deferred(), waits + 3, "one for every wait that was told");
}

#[test]
fn the_budget_is_never_run_to_exactly_the_limit() {
    let mut rl = limiter();
    while rl.check(Kind::Request, 1, at(0)).is_send() {}

    let used = rl.weight_window().used();
    let limit = rl.weight_window().limit();
    assert!(used < limit, "ran to {used} of {limit} with no margin left");
    assert!(limit - used >= limit / 100, "the margin is too thin to absorb one mistake");
    assert_eq!(rl.weight_window().remaining(), limit - used);
}

#[test]
fn futures_and_spot_have_different_budgets() {
    let (spot, futures) = (Profile::binance_spot(), Profile::binance_usdm());
    assert_ne!(spot.weight_per_minute, futures.weight_per_minute);
    assert_ne!(spot.orders_per_10s, futures.orders_per_10s);

    let mut usdm = RateLimiter::new(&futures, origin());
    let mut sent = 0;
    while usdm.check(Kind::Request, 1, at(0)).is_send() {
        sent += 1;
    }
    assert!(sent < spot.weight_per_minute, "futures are tighter than spot");
}

#[test]
fn a_request_heavier_than_the_whole_budget_is_refused_rather_than_looping() {
    let mut rl = limiter();
    let huge = Profile::binance_spot().weight_per_minute + 1;
    assert!(!rl.check(Kind::Request, huge, at(0)).is_send());
    assert!(!rl.check(Kind::Request, huge, at(120_000)).is_send());
}

#[test]
fn waiting_as_long_as_told_is_enough() {
    let mut rl = limiter();
    while rl.check(Kind::Order, 1, at(2_500)).is_send() {}
    let wait = match rl.check(Kind::Order, 1, at(2_500)) {
        Decision::Wait { for_, .. } => for_,
        Decision::Send => panic!("expected a deferral"),
    };
    assert_eq!(wait, Duration::from_millis(7_500));
    assert!(rl.check(Kind::Order, 1, at(2_500).plus(wait)).is_send());
    assert!(!wait.is_zero());
}

// --------------------------------------------------------------------- venue

struct Desk;

impl Exchange for Desk {
    fn id(&self) -> ExchangeId {
        ExchangeId::Binance
    }

    fn markets(&self) -> &[MarketKind] {
        &[MarketKind::Spot]
    }
}

#[test]
fn a_connector_supports_the_markets_it_names() {
    assert!(Desk.supports(MarketKind::Spot));
    assert!(!Desk.supports(MarketKind::LinearPerp));
    assert!(!offers(&[], MarketKind::Spot));
    assert_eq!(Desk.id(), ExchangeId::Binance);
}

#[test]
fn delivers_while_a_receiver_lives() {
    let mut sink = EventSink::new();
    assert!(sink.send(true));
    assert_eq!(sink.dropped(), 0);
}

#[test]
fn a_dead_consumer_is_counted_not_fatal() {
    let mut sink = EventSink::new();
    assert!(!sink.send(false));
    assert!(!sink.send(false));
    assert_eq!(sink.dropped(), 2);
}

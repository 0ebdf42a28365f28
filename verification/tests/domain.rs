use moon_own::decimal::Decimal;
use moon_own::domain::account::{Balance, MarginMode, Position};
use moon_own::domain::event::{AccountEvent, Event, MarketEvent};
use moon_own::domain::ids::{ExchangeId, MarketKind, Symbol};
use moon_own::domain::instrument::{Instrument, OrderCheck};
use moon_own::domain::market::{ApplyOutcome, BookDelta, BookLevel, OrderBook};
use moon_own::domain::order::{
    ClientOrderId, Order, OrderStatus, OrderType, PositionSide, Side, TimeInForce,
};
use moon_own::domain::time::Timestamp;

fn dec(text: &str) -> Decimal {
    Decimal::parse(text).unwrap()
}

fn sym() -> Symbol {
    Symbol::new(ExchangeId::Binance, MarketKind::LinearPerp, "BTCUSDT")
}

// ------------------------------------------------------------------- account

#[test]
fn balance_total_includes_what_orders_reserved() {
    let b = Balance { asset: "USDT".into(), free: dec("100"), locked: dec("25") };
    assert_eq!(b.total(), dec("125"));
}

#[test]
fn flat_position_has_no_notional() {
    let mut p = Position {
        symbol: sym(),
        side: PositionSide::Long,
        qty: Decimal::zero(),
        entry_price: Decimal::zero(),
        mark_price: dec("64000"),
        unrealized_pnl: Decimal::zero(),
        leverage: dec("10"),
        margin_mode: MarginMode::Cross,
        liquidation_price: None,
        updated_at: Timestamp::zero(),
    };
    assert!(p.is_flat());
    assert_eq!(p.notional(), Decimal::zero());

    p.qty = dec("0.5");
    assert!(!p.is_flat());
    assert_eq!(p.notional(), dec("32000"));
}

#[test]
fn defaults_are_the_plain_modes() {
    assert_eq!(MarginMode::default(), MarginMode::Cross);
    assert_eq!(PositionSide::default(), PositionSide::Both);
    assert_eq!(TimeInForce::default(), TimeInForce::Gtc);
}

// --------------------------------------------------------------------- event

#[test]
fn account_events_are_private_market_events_are_not() {
    let book =
        Event::market(Timestamp::from_millis(1), MarketEvent::BookSnapshot(OrderBook::default()));
    assert!(!book.is_private());

    let balances = Event::account(Timestamp::from_millis(1), AccountEvent::Balances(vec![]));
    assert!(balances.is_private());
}

#[test]
fn an_instrument_list_concerns_no_single_instrument() {
    let list = MarketEvent::Instruments { exchange_market: sym(), instruments: vec![] };
    assert!(list.symbol().is_none());
    assert!(MarketEvent::BookSnapshot(OrderBook::default()).symbol().is_none());
    assert_eq!(MarketEvent::BookDelta(delta(0, 1, vec![], vec![])).symbol(), Some(&sym()));
}

// ----------------------------------------------------------------------- ids

#[test]
fn spot_has_no_positions_derivatives_do() {
    assert!(!MarketKind::Spot.has_positions());
    assert!(MarketKind::LinearPerp.has_positions());
    assert!(MarketKind::InversePerp.has_positions());
}

#[test]
fn symbol_key_is_stable_and_qualified() {
    let s = Symbol::new(ExchangeId::Binance, MarketKind::LinearPerp, "BTCUSDT");
    assert_eq!(s.key(), "binance:linear_perp:BTCUSDT");
    // The same ticker on two markets must never collide.
    let spot = Symbol::new(ExchangeId::Binance, MarketKind::Spot, "BTCUSDT");
    assert_ne!(s.key(), spot.key());
}

#[test]
fn a_key_tells_venues_apart_too() {
    let a = Symbol::new(ExchangeId::Bybit, MarketKind::InversePerp, "BTCUSD");
    assert_eq!(a.to_string(), "bybit:inverse_perp:BTCUSD");
    let b = Symbol::new(ExchangeId::Binance, MarketKind::InversePerp, "BTCUSD");
    assert_ne!(a.key(), b.key());
    assert!(!a.same_as(&b));
    assert!(a.same_as(&a.clone()));
}

// ---------------------------------------------------------------- instrument

fn btc_perp() -> Instrument {
    Instrument {
        symbol: sym(),
        base: "BTC".into(),
        quote: "USDT".into(),
        margin_asset: "USDT".into(),
        tick_size: dec("0.10"),
        step_size: dec("0.001"),
        min_qty: dec("0.001"),
        min_notional: dec("5"),
        trading: true,
    }
}

#[test]
fn rounding_never_makes_an_order_more_aggressive() {
    let i = btc_perp();
    assert_eq!(i.round_price(dec("64123.4567")), dec("64123.4"));
    assert_eq!(i.round_qty(dec("0.0019")), dec("0.001"));
}

#[test]
fn zero_grid_leaves_the_value_untouched() {
    let mut i = btc_perp();
    i.tick_size = Decimal::zero();
    assert_eq!(i.round_price(dec("64123.4567")), dec("64123.4567"));
}

#[test]
fn check_catches_what_the_venue_would_reject() {
    let i = btc_perp();
    assert_eq!(i.check(dec("64123.4"), dec("0.001")), Ok(()));
    assert_eq!(i.check(dec("64123.45"), dec("0.001")), Err(OrderCheck::PriceOffTick));
    assert_eq!(i.check(dec("64123.4"), dec("0.0015")), Err(OrderCheck::QtyOffStep));
    assert_eq!(i.check(dec("64123.4"), dec("0.0005")), Err(OrderCheck::QtyBelowMin));

    // On the tick and step grids, but too small to be worth sending.
    let mut cheap = btc_perp();
    cheap.min_qty = dec("0.001");
    assert_eq!(cheap.check(dec("1000"), dec("0.001")), Err(OrderCheck::NotionalBelowMin));
}

#[test]
fn halted_instrument_is_rejected_before_anything_else() {
    let mut i = btc_perp();
    i.trading = false;
    assert_eq!(i.check(dec("64123.4"), dec("0.001")), Err(OrderCheck::NotTrading));
}

#[test]
fn rounding_keeps_to_the_grid_on_both_sides_of_zero() {
    let i = btc_perp();
    assert_eq!(i.round_price(dec("-64123.4567")), dec("-64123.4"));
    assert_eq!(i.round_price(dec("64123.4")), dec("64123.4"));
    assert_eq!(i.round_qty(Decimal::zero()), Decimal::zero());
}

#[test]
fn a_refused_order_says_why() {
    assert_eq!(OrderCheck::NotTrading.to_string(), "instrument is not trading");
    assert_eq!(OrderCheck::QtyBelowMin.to_string(), "quantity is below the venue minimum");
}

// -------------------------------------------------------------------- market

fn levels(side: Vec<(&str, &str)>) -> Vec<BookLevel> {
    side.into_iter().map(|(p, q)| BookLevel { price: dec(p), qty: dec(q) }).collect()
}

fn delta(
    prev: u64,
    last: u64,
    bids: Vec<(&str, &str)>,
    asks: Vec<(&str, &str)>,
) -> BookDelta {
    BookDelta {
        symbol: sym(),
        prev_update_id: prev,
        last_update_id: last,
        bids: levels(bids),
        asks: levels(asks),
        ts: Timestamp::from_millis(1),
    }
}

fn seeded() -> OrderBook {
    let mut book = OrderBook::default();
    book.apply(&delta(0, 10, vec![("100", "1")], vec![("101", "2")]));
    book
}

fn prices(side: &[BookLevel]) -> Vec<Decimal> {
    side.iter().map(|l| l.price).collect()
}

#[test]
fn sides_stay_sorted_best_first() {
    let mut book = seeded();
    book.apply(&delta(10, 11, vec![("99", "5"), ("100.5", "3")], vec![("102", "1")]));

    assert_eq!(prices(&book.bids), vec![dec("100.5"), dec("100"), dec("99")]);
    assert_eq!(prices(&book.asks), vec![dec("101"), dec("102")]);
    assert_eq!(book.best_bid().unwrap().price, dec("100.5"));
    assert_eq!(book.best_ask().unwrap().price, dec("101"));
}

#[test]
fn zero_quantity_removes_the_level() {
    let mut book = seeded();
    book.apply(&delta(10, 11, vec![("100", "0")], vec![]));
    assert!(book.bids.is_empty());
    assert!(book.best_bid().is_none());
}

#[test]
fn a_sequence_gap_is_reported_and_not_applied() {
    let mut book = seeded();
    // The venue jumped: this update follows 42, but we last applied 10.
    let out = book.apply(&delta(42, 43, vec![("100", "9")], vec![]));

    assert_eq!(out, ApplyOutcome::Gap { expected: 10, got: 42 });
    // Crucially the book was left untouched, so a resync starts from a known state.
    assert_eq!(book.last_update_id, 10);
    assert_eq!(book.best_bid().unwrap().qty, dec("1"));
}

#[test]
fn replayed_updates_are_dropped_as_stale() {
    let mut book = seeded();
    assert_eq!(book.apply(&delta(0, 10, vec![], vec![])), ApplyOutcome::Stale);
    assert_eq!(book.last_update_id, 10);
}

#[test]
fn mid_and_spread_need_both_sides() {
    let book = seeded();
    assert_eq!(book.mid(), Some(dec("100.5")));
    assert_eq!(book.spread(), Some(dec("1")));
    assert_eq!(OrderBook::default().mid(), None);
    assert_eq!(OrderBook::default().spread(), None);
}

#[test]
fn levels_are_absolute_and_not_added_up() {
    let mut book = seeded();
    book.apply(&delta(10, 11, vec![("100", "4"), ("100.00", "6")], vec![("101", "1")]));
    // The same number with other zeros behind it is the same level, and the last word wins.
    assert_eq!(book.bids.len(), 1);
    assert_eq!(book.best_bid().unwrap().qty, dec("6"));
    assert_eq!(book.best_ask().unwrap().qty, dec("1"));
}

#[test]
fn removing_a_level_that_is_not_there_changes_nothing() {
    let mut book = seeded();
    assert_eq!(book.apply(&delta(10, 12, vec![("50", "0")], vec![])), ApplyOutcome::Applied);
    assert_eq!(prices(&book.bids), vec![dec("100")]);
    assert_eq!(book.last_update_id, 12);
}

#[test]
fn the_first_update_only_has_to_reach_over_the_snapshot() {
    let mut book = OrderBook { last_update_id: 1_000, ..OrderBook::default() };
    assert!(!book.synced);
    assert_eq!(book.apply(&delta(990, 1_010, vec![], vec![])), ApplyOutcome::Applied);
    assert!(book.synced);
    // From here on each has to chain to the one before it.
    assert_eq!(
        book.apply(&delta(1_009, 1_020, vec![], vec![])),
        ApplyOutcome::Gap { expected: 1_010, got: 1_009 }
    );
}

// --------------------------------------------------------------------- order

#[test]
fn side_sign_drives_position_maths() {
    assert_eq!(Side::Buy.sign(), dec("1"));
    assert_eq!(Side::Sell.sign(), dec("-1"));
    assert_eq!(Side::Buy.opposite(), Side::Sell);
}

#[test]
fn a_terminal_order_can_never_be_reopened() {
    // The scenario this exists for: a stale `New` arriving after the fill.
    assert!(!OrderStatus::Filled.can_advance_to(OrderStatus::New));
    assert!(!OrderStatus::Canceled.can_advance_to(OrderStatus::PartiallyFilled));
    assert!(!OrderStatus::Rejected.can_advance_to(OrderStatus::New));
}

#[test]
fn state_only_moves_forward() {
    assert!(OrderStatus::Pending.can_advance_to(OrderStatus::New));
    assert!(OrderStatus::New.can_advance_to(OrderStatus::PartiallyFilled));
    assert!(OrderStatus::PartiallyFilled.can_advance_to(OrderStatus::Filled));
    assert!(!OrderStatus::PartiallyFilled.can_advance_to(OrderStatus::New));
}

#[test]
fn successive_partial_fills_are_allowed() {
    // The one legal same-rank transition: partial -> partial as more volume fills.
    assert!(OrderStatus::PartiallyFilled.can_advance_to(OrderStatus::PartiallyFilled));
    assert!(!OrderStatus::New.can_advance_to(OrderStatus::New));
}

#[test]
fn nothing_follows_a_terminal_state() {
    let all = [
        OrderStatus::Pending,
        OrderStatus::New,
        OrderStatus::PartiallyFilled,
        OrderStatus::Filled,
        OrderStatus::Canceled,
        OrderStatus::Rejected,
        OrderStatus::Expired,
    ];
    for from in all {
        assert_eq!(from.is_terminal(), !from.is_open());
        if from.is_terminal() {
            for to in all {
                assert!(!from.can_advance_to(to));
            }
        }
    }
}

fn order() -> Order {
    Order {
        client_id: ClientOrderId("c-1".into()),
        venue_id: None,
        symbol: sym(),
        side: Side::Buy,
        order_type: OrderType::Limit,
        status: OrderStatus::PartiallyFilled,
        qty: dec("1"),
        filled_qty: dec("0.4"),
        price: Some(dec("64000")),
        trigger_price: None,
        avg_price: dec("64000"),
        tif: TimeInForce::Gtc,
        position_side: PositionSide::Both,
        reduce_only: false,
        created_at: Timestamp::from_millis(1),
        updated_at: Timestamp::from_millis(2),
    }
}

#[test]
fn remaining_qty_never_goes_negative() {
    let mut order = order();
    assert_eq!(order.remaining_qty(), dec("0.6"));

    // Venues occasionally report a filled quantity a hair above the order size.
    order.filled_qty = dec("1.0001");
    assert_eq!(order.remaining_qty(), Decimal::zero());
}

#[test]
fn an_order_is_open_until_its_state_is_terminal() {
    let mut order = order();
    assert!(order.is_open());
    order.status = OrderStatus::Expired;
    assert!(!order.is_open());
    assert_eq!(order.client_id.to_string(), "c-1");
}

#[test]
fn order_type_declares_the_fields_it_needs() {
    assert!(OrderType::Limit.needs_price());
    assert!(!OrderType::Market.needs_price());
    assert!(OrderType::StopLimit.needs_trigger_price());
    assert!(!OrderType::Limit.needs_trigger_price());
}

// ---------------------------------------------------------------------- time

#[test]
fn age_is_signed_so_clock_drift_stays_visible() {
    let stamp = Timestamp::from_millis(1_000);
    assert_eq!(stamp.age_millis_from(Timestamp::from_millis(1_500)), 500);
    assert_eq!(stamp.age_millis_from(Timestamp::from_millis(400)), -600);
}

#[test]
fn a_stamp_prints_as_its_milliseconds() {
    assert_eq!(Timestamp::from_millis(-1_700).to_string(), "-1700");
    assert_eq!(Timestamp::default(), Timestamp::zero());
    assert!(Timestamp::zero().is_zero());
    assert_eq!(Timestamp::from_millis(7).millis(), 7);
}

#[test]
fn a_rounded_value_stays_on_its_side_of_the_asked_one() {
    let mut i = btc_perp();
    assert_eq!(i.round_price(dec("-64123.4567")), dec("-64123.4"));
    // However close to the next multiple, a value is not rounded up to it.
    i.tick_size = dec("2");
    assert_eq!(i.round_price(dec("1.9999999999999999999999999999")), dec("0"));
    assert_eq!(i.round_price(dec("-1.9999999999999999999999999999")), dec("0"));
    assert_eq!(
        i.round_price(dec("79228162514264337593543950335")),
        dec("79228162514264337593543950334")
    );
    // The largest number there is rounds too.
    i.tick_size = dec("10");
    assert_eq!(
        i.round_price(dec("79228162514264337593543950335")),
        dec("79228162514264337593543950330")
    );
    assert_eq!(
        i.round_price(dec("-79228162514264337593543950335")),
        dec("-79228162514264337593543950330")
    );
    // A quotient that is rounded down is the right one already.
    i.tick_size = dec("3");
    assert_eq!(i.round_price(dec("3.0000000000000000000000000001")), dec("3"));
    // On the grid already.
    i.tick_size = dec("0.25");
    assert_eq!(i.round_price(dec("10.75")), dec("10.75"));
    assert_eq!(i.check(i.round_price(dec("10.80")), dec("1")), Ok(()));
    let once = i.round_price(dec("10.80"));
    assert_eq!(i.round_price(once), once);
}

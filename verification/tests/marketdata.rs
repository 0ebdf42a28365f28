use moon_own::decimal::Decimal;
use moon_own::domain::ids::{ExchangeId, MarketKind, Symbol};
use moon_own::domain::market::{BookDelta, BookLevel, OrderBook, PublicTrade};
use moon_own::domain::order::Side;
use moon_own::domain::time::Timestamp;
use moon_own::marketdata::books::{BookSet, Need, REQUEST_DEADLINE_MS};
use moon_own::marketdata::candles::{CandleSet, Update, DEFAULT_CAPACITY};
use moon_own::table::Table;

fn dec(text: &str) -> Decimal {
    Decimal::parse(text).unwrap()
}

// --------------------------------------------------------------------- books

fn perp() -> Symbol {
    Symbol::new(ExchangeId::Binance, MarketKind::LinearPerp, "BTCUSDT")
}

fn delta(prev: u64, last: u64, bid_qty: &str) -> BookDelta {
    BookDelta {
        symbol: perp(),
        prev_update_id: prev,
        last_update_id: last,
        bids: vec![BookLevel { price: dec("100"), qty: dec(bid_qty) }],
        asks: vec![BookLevel { price: dec("101"), qty: dec("1") }],
        ts: Timestamp::from_millis(1),
    }
}

fn snapshot(last_update_id: u64) -> OrderBook {
    OrderBook {
        symbol: Some(perp()),
        bids: vec![BookLevel { price: dec("100"), qty: dec("1") }],
        asks: vec![BookLevel { price: dec("101"), qty: dec("1") }],
        last_update_id,
        ts: Timestamp::from_millis(1),
        synced: false,
    }
}

fn at(ms: i64) -> Timestamp {
    Timestamp::from_millis(ms)
}

#[test]
fn the_first_delta_asks_for_a_snapshot_and_is_kept_for_replay() {
    let mut books = BookSet::default();
    assert_eq!(books.on_delta(delta(990, 1_010, "5"), at(0)).need, Need::Snapshot(perp()));

    // Nothing publishable yet: the book has not joined the stream.
    assert!(books.book(&perp().key()).is_none());
}

#[test]
fn deltas_that_arrive_while_the_snapshot_is_in_flight_are_replayed_onto_it() {
    let mut books = BookSet::default();
    books.on_delta(delta(990, 1_010, "5"), at(0));
    books.on_delta(delta(1_010, 1_020, "7"), at(10));

    let published = books.install_snapshot(snapshot(1_000), at(20)).expect("joins the stream");

    assert_eq!(published.last_update_id, 1_020, "both buffered updates replayed");
    assert_eq!(published.best_bid().unwrap().qty, dec("7"), "the later update won");
    assert!(published.synced);
}

#[test]
fn no_further_snapshot_is_requested_while_one_is_in_flight() {
    let mut books = BookSet::default();
    assert_eq!(books.on_delta(delta(990, 1_010, "5"), at(0)).need, Need::Snapshot(perp()));

    // Every subsequent delta must NOT trigger another fetch, or we hammer the venue.
    assert_eq!(books.on_delta(delta(1_010, 1_020, "6"), at(5)).need, Need::Nothing);
    assert_eq!(books.on_delta(delta(1_020, 1_030, "7"), at(9)).need, Need::Nothing);
}

#[test]
fn a_gap_rebuilds_the_book_and_stops_publishing_it() {
    let mut books = BookSet::default();
    books.on_delta(delta(990, 1_010, "5"), at(0));
    books.install_snapshot(snapshot(1_000), at(10));
    assert!(books.book(&perp().key()).is_some());

    // The venue skipped updates: 1_010 -> 1_500 is not a chain.
    let out = books.on_delta(delta(1_500, 1_520, "9"), at(2_000));

    assert_eq!(out.need, Need::Snapshot(perp()));
    assert!(!out.forward, "the update that exposed the gap must not reach consumers");
    assert!(books.book(&perp().key()).is_none(), "a torn book must not be served");
}

#[test]
fn resync_requests_are_rate_limited_after_a_gap() {
    let mut books = BookSet::new(1_000);
    books.on_delta(delta(990, 1_010, "5"), at(0));
    books.install_snapshot(snapshot(1_000), at(0));

    assert_eq!(
        books.on_delta(delta(1_500, 1_520, "9"), at(1_000)).need,
        Need::Snapshot(perp())
    );
    books.install_snapshot(snapshot(1_400), at(1_010)); // too old, book stays absent

    // Inside the cooldown: hold off even though a book is still missing.
    assert_eq!(books.on_delta(delta(1_600, 1_620, "9"), at(1_500)).need, Need::Nothing);
    // Past it: ask again.
    assert_eq!(
        books.on_delta(delta(1_620, 1_640, "9"), at(2_200)).need,
        Need::Snapshot(perp())
    );
}

#[test]
fn a_snapshot_the_stream_already_overran_is_rejected_not_installed() {
    let mut books = BookSet::default();
    books.on_delta(delta(5_000, 5_010, "5"), at(0));

    // Snapshot from long before the buffered updates: they cannot chain onto it.
    assert!(books.install_snapshot(snapshot(1_000), at(10)).is_none());
    assert!(books.book(&perp().key()).is_none());
}

#[test]
fn a_snapshot_with_no_delta_yet_is_held_back_until_it_joins() {
    let mut books = BookSet::default();
    books.on_delta(delta(990, 1_010, "5"), at(0));

    // Snapshot ahead of the one buffered delta: nothing chains yet, so nothing is published.
    assert!(books.install_snapshot(snapshot(2_000), at(10)).is_none());
}

#[test]
fn a_frozen_book_is_reported_stale() {
    let mut books = BookSet::default();
    books.on_delta(delta(990, 1_010, "5"), at(0));
    books.install_snapshot(snapshot(1_000), at(1_000));

    assert!(books.stale(at(3_000), 5_000).is_empty());
    assert_eq!(books.stale(at(10_000), 5_000), vec![perp()]);
}

#[test]
fn a_book_that_joins_later_is_still_announced_to_consumers() {
    let mut books = BookSet::default();
    books.on_delta(delta(990, 1_000, "1"), at(0));

    // Snapshot is ahead of everything buffered: nothing chains, nothing is published.
    assert!(books.install_snapshot(snapshot(2_000), at(10)).is_none());
    assert!(books.book(&perp().key()).is_none());

    // Stream is still behind: dropped as the expected overlap, still nothing to announce.
    let out = books.on_delta(delta(1_500, 1_900, "2"), at(20));
    assert!(!out.attached);
    assert!(!out.forward);

    // And now the delta that spans the snapshot. This is the moment consumers must be handed
    // the whole book.
    let out = books.on_delta(delta(1_990, 2_010, "3"), at(30));
    assert!(out.attached, "the join must be announced");
    assert!(!out.forward, "a delta is useless to a consumer with no book");
    assert_eq!(books.book(&perp().key()).unwrap().best_bid().unwrap().qty, dec("3"));

    // Afterwards it is an ordinary chained stream again.
    let out = books.on_delta(delta(2_010, 2_020, "4"), at(40));
    assert!(!out.attached);
    assert!(out.forward);
}

#[test]
fn a_failed_fetch_does_not_cost_the_instrument_its_book_forever() {
    let mut books = BookSet::new(1_000);
    assert_eq!(books.on_delta(delta(990, 1_010, "5"), at(0)).need, Need::Snapshot(perp()));

    // The fetch fails; nothing is ever installed.
    books.snapshot_failed(&perp());

    // Inside the cooldown, still quiet.
    assert_eq!(books.on_delta(delta(1_010, 1_020, "5"), at(500)).need, Need::Nothing);
    // Past it, the book asks again instead of giving up.
    assert_eq!(
        books.on_delta(delta(1_020, 1_030, "5"), at(1_200)).need,
        Need::Snapshot(perp())
    );
}

#[test]
fn a_fetch_that_never_reports_back_stops_blocking_after_the_deadline() {
    let mut books = BookSet::new(1_000);
    assert_eq!(books.on_delta(delta(990, 1_010, "5"), at(0)).need, Need::Snapshot(perp()));

    let just_inside = REQUEST_DEADLINE_MS - 1;
    assert_eq!(
        books.on_delta(delta(1_010, 1_020, "5"), at(just_inside)).need,
        Need::Nothing
    );
    assert_eq!(
        books.on_delta(delta(1_020, 1_030, "5"), at(REQUEST_DEADLINE_MS + 1)).need,
        Need::Snapshot(perp())
    );
}

#[test]
fn reset_forgets_everything_because_sequence_numbers_do_not_survive_a_reconnect() {
    let mut books = BookSet::default();
    books.on_delta(delta(990, 1_010, "5"), at(0));
    books.install_snapshot(snapshot(1_000), at(10));
    assert!(books.book(&perp().key()).is_some());

    books.reset();
    assert!(books.book(&perp().key()).is_none());
    // And the next delta starts a clean rebuild immediately, no cooldown carried over.
    assert_eq!(books.on_delta(delta(1_010, 1_020, "5"), at(20)).need, Need::Snapshot(perp()));
}

#[test]
fn a_consumer_that_follows_holds_the_same_book() {
    let mut books = BookSet::default();
    books.on_delta(delta(990, 1_010, "5"), at(0));
    let mut copy = books.install_snapshot(snapshot(1_000), at(10)).unwrap();
    for (prev, last, qty) in [(1_010, 1_020, "6"), (1_020, 1_021, "0"), (1_021, 1_040, "2.5")] {
        let update = delta(prev, last, qty);
        let forwarded = delta(prev, last, qty);
        if books.on_delta(update, at(20)).forward {
            copy.apply(&forwarded);
        }
        assert_eq!(&copy, books.book(&perp().key()).unwrap());
    }
}

// ------------------------------------------------------------------- candles

fn sym() -> Symbol {
    Symbol::new(ExchangeId::Binance, MarketKind::Spot, "BTCUSDT")
}

fn trade(ts: i64, price: &str, qty: &str) -> PublicTrade {
    PublicTrade {
        symbol: sym(),
        price: dec(price),
        qty: dec(qty),
        taker_side: Side::Buy,
        ts: Timestamp::from_millis(ts),
        id: ts as u64,
    }
}

fn set() -> CandleSet {
    CandleSet::new(1_000, DEFAULT_CAPACITY)
}

#[test]
fn the_first_trade_opens_a_candle_on_the_bucket_boundary() {
    let mut candles = set();
    let Update::Formed(candle) = candles.on_trade(&trade(1_700_000_000_123, "100", "2")) else {
        panic!("expected a forming candle");
    };

    assert_eq!(candle.open_time.millis(), 1_700_000_000_000, "snapped down to the bucket");
    assert_eq!(
        (candle.open, candle.high, candle.low, candle.close),
        (dec("100"), dec("100"), dec("100"), dec("100"))
    );
    assert_eq!(candle.volume, dec("2"));
    assert!(!candle.closed);
}

#[test]
fn trades_in_one_bucket_extend_the_same_candle() {
    let mut candles = set();
    candles.on_trade(&trade(1_000, "100", "1"));
    candles.on_trade(&trade(1_400, "105", "1"));
    candles.on_trade(&trade(1_800, "97", "3"));

    let all = candles.iter(&sym().key());
    let candle = all.last().unwrap();
    assert_eq!(candle.open, dec("100"));
    assert_eq!(candle.high, dec("105"));
    assert_eq!(candle.low, dec("97"));
    assert_eq!(candle.close, dec("97"), "the last print is the close");
    assert_eq!(candle.volume, dec("5"));
    assert_eq!(candles.len(&sym().key()), 1);
}

#[test]
fn crossing_a_boundary_closes_the_previous_candle_and_opens_the_next() {
    let mut candles = set();
    candles.on_trade(&trade(1_500, "100", "1"));

    let Update::Closed { closed, opened } = candles.on_trade(&trade(2_100, "102", "4")) else {
        panic!("expected a close");
    };

    assert!(closed.closed, "consumers must be told the bar is final");
    assert_eq!(closed.open_time.millis(), 1_000);
    assert_eq!(closed.close, dec("100"));

    assert!(!opened.closed);
    assert_eq!(opened.open_time.millis(), 2_000);
    assert_eq!(opened.open, dec("102"));
    assert_eq!(candles.len(&sym().key()), 2);
}

#[test]
fn a_replayed_trade_cannot_rewrite_a_drawn_candle() {
    let mut candles = set();
    candles.on_trade(&trade(1_500, "100", "1"));
    candles.on_trade(&trade(2_100, "102", "1"));

    assert_eq!(candles.on_trade(&trade(1_600, "999", "50")), Update::Ignored);

    let all = candles.iter(&sym().key());
    assert_eq!(all[0].high, dec("100"), "untouched");
    assert_eq!(candles.len(&sym().key()), 2);
}

#[test]
fn a_quiet_stretch_leaves_a_gap_rather_than_inventing_bars() {
    let mut candles = set();
    candles.on_trade(&trade(1_000, "100", "1"));
    candles.on_trade(&trade(11_000, "101", "1"));

    assert_eq!(candles.len(&sym().key()), 2);
    let times: Vec<i64> =
        candles.iter(&sym().key()).iter().map(|c| c.open_time.millis()).collect();
    assert_eq!(times, vec![1_000, 11_000]);
}

#[test]
fn the_ring_drops_the_oldest_candles() {
    let mut candles = CandleSet::new(1_000, 3);
    for second in 0..6 {
        candles.on_trade(&trade(second * 1_000, "100", "1"));
    }

    assert_eq!(candles.len(&sym().key()), 3);
    let times: Vec<i64> =
        candles.iter(&sym().key()).iter().map(|c| c.open_time.millis()).collect();
    assert_eq!(times, vec![3_000, 4_000, 5_000]);
}

#[test]
fn instruments_do_not_share_a_series() {
    let mut candles = set();
    let other = Symbol::new(ExchangeId::Binance, MarketKind::LinearPerp, "BTCUSDT");
    let mut perp_trade = trade(1_000, "200", "1");
    perp_trade.symbol = other.clone();

    candles.on_trade(&trade(1_000, "100", "1"));
    candles.on_trade(&perp_trade);

    assert_eq!(candles.len(&sym().key()), 1);
    assert_eq!(candles.len(&other.key()), 1);
    assert_eq!(candles.iter(&other.key())[0].open, dec("200"));
    assert_eq!(candles.keys(), vec![other.key(), sym().key()]);
}

#[test]
fn clearing_forgets_one_instrument_only() {
    let mut candles = set();
    candles.on_trade(&trade(1_000, "100", "1"));
    assert!(!candles.is_empty(&sym().key()));

    candles.clear(&sym());
    assert!(candles.is_empty(&sym().key()));
}

#[test]
fn a_zero_interval_is_clamped_rather_than_dividing_by_zero() {
    let mut candles = CandleSet::new(0, 10);
    assert_eq!(candles.interval_ms(), 1);
    candles.on_trade(&trade(1_500, "100", "1"));
    assert_eq!(candles.len(&sym().key()), 1);
}

#[test]
fn an_unknown_instrument_reports_empty_rather_than_panicking() {
    let candles = set();
    assert!(candles.is_empty("binance:spot:NOPE"));
    assert_eq!(candles.iter("binance:spot:NOPE").len(), 0);
    assert!(candles.forming("binance:spot:NOPE").is_none());
}

#[test]
fn a_trade_before_the_epoch_falls_into_the_bucket_below_it() {
    let mut candles = set();
    candles.on_trade(&trade(-1, "100", "1"));
    assert_eq!(candles.forming(&sym().key()).unwrap().open_time.millis(), -1_000);
}

#[test]
fn a_volume_that_leaves_the_range_changes_nothing() {
    let mut candles = set();
    candles.on_trade(&trade(1_000, "100", "79228162514264337593543950335"));
    assert!(candles.try_on_trade(&trade(1_100, "101", "1")).is_none());
    assert_eq!(candles.forming(&sym().key()).unwrap().close, dec("100"));
}

// --------------------------------------------------------------------- table

#[test]
fn a_table_is_walked_in_text_order() {
    let mut table: Table<u64> = Table::new();
    table.insert("b".into(), 2);
    table.insert("a".into(), 1);
    table.insert("c".into(), 3);
    table.insert("a".into(), 10);
    assert_eq!(table.len(), 3);
    let keys: Vec<String> = (0..3).map(|i| table.key_at(i).clone()).collect();
    assert_eq!(keys, vec!["a", "b", "c"]);
    assert_eq!(*table.value_at(0), 10);
    *table.get_mut("b").unwrap() += 5;
    assert_eq!(table.get("b"), Some(&7));
    assert_eq!(table.remove("a"), Some(10));
    assert_eq!(table.remove("a"), None);
    assert!(!table.contains("a"));
    table.clear();
    assert_eq!(table.len(), 0);
}

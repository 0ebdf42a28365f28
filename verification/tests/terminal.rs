use moon_own::decimal::Decimal;
use moon_own::domain::event::{ConnectionEvent, Event, MarketEvent};
use moon_own::domain::ids::{ExchangeId, MarketKind, Symbol};
use moon_own::domain::market::{BookDelta, BookLevel, Candle, OrderBook, PublicTrade};
use moon_own::domain::order::Side;
use moon_own::domain::time::Timestamp;
use moon_own::exchange::error::Subscription;
use moon_own::service::session::{ClientMsg, ErrorCode, ServerMsg, PROTOCOL_VERSION};
use moon_own::terminal::book_view::{depth_view, ratio, try_mid, try_spread};
use moon_own::terminal::chart::{chart_view, pad};
use moon_own::terminal::clock::{hms, hms_millis, now_millis, stamp_of};
use moon_own::terminal::feed::{Feed, FeedState, Incoming, Outgoing, Status};
use moon_own::terminal::panels;
use moon_own::terminal::panels::{LogLevel, LogLine, Panel};

fn dec(text: &str) -> Decimal {
    Decimal::parse(text).unwrap()
}

const MS_PER_DAY: i64 = 86_400_000;

// --------------------------------------------------------------------- clock

#[test]
fn formats_time_of_day_in_utc() {
    // 2023-11-14T22:13:20Z
    assert_eq!(hms(1_700_000_000_000), "22:13:20");
    assert_eq!(hms_millis(1_700_000_000_123), "22:13:20.123");
}

#[test]
fn midnight_and_the_last_second_of_the_day_both_render() {
    assert_eq!(hms(0), "00:00:00");
    assert_eq!(hms(MS_PER_DAY - 1_000), "23:59:59");
    assert_eq!(hms(MS_PER_DAY), "00:00:00", "the next day starts over");
}

#[test]
fn a_stamp_before_the_epoch_wraps_rather_than_going_negative() {
    // A corrupt frame must not put `-1:-3:-20` in the log.
    let rendered = hms(-1_000);
    assert_eq!(rendered, "23:59:59");
    assert!(!rendered.contains('-'));
}

#[test]
fn the_clock_advances() {
    let first = now_millis();
    assert!(first > 1_700_000_000_000, "a plausible wall clock");
    assert!(now_millis() >= first);
}

#[test]
fn the_same_time_comes_back_every_day() {
    for day in [-3, -1, 1, 400] {
        assert_eq!(hms_millis(12_345_678 + day * MS_PER_DAY), hms_millis(12_345_678));
    }
    assert_eq!(hms_millis(i64::MIN), "16:47:04.192");
    assert_eq!(hms_millis(i64::MAX), "07:12:55.807");
}

#[test]
fn a_clock_before_the_epoch_reads_as_the_epoch() {
    assert_eq!(stamp_of(None), 0);
    assert_eq!(stamp_of(Some(1_700_000_000_000)), 1_700_000_000_000);
}

// ----------------------------------------------------------------- book view

fn level((price, qty): &(&str, &str)) -> BookLevel {
    BookLevel { price: dec(price), qty: dec(qty) }
}

fn book(bids: &[(&str, &str)], asks: &[(&str, &str)]) -> OrderBook {
    OrderBook {
        symbol: None,
        bids: bids.iter().map(level).collect(),
        asks: asks.iter().map(level).collect(),
        last_update_id: 1,
        ts: Timestamp::from_millis(1),
        synced: true,
    }
}

fn sample() -> OrderBook {
    book(
        &[("100", "1"), ("99", "2"), ("98", "3")],
        &[("102", "4"), ("103", "5"), ("104", "6")],
    )
}

#[test]
fn cumulative_size_accumulates_outward_from_the_touch() {
    let view = depth_view(&sample(), 3).unwrap();

    assert_eq!(
        view.bids.iter().map(|l| l.cumulative).collect::<Vec<_>>(),
        vec![dec("1"), dec("3"), dec("6")]
    );
    // Asks are drawn far-to-near, so the largest cumulative is at the top.
    assert_eq!(
        view.asks.iter().map(|l| l.price).collect::<Vec<_>>(),
        vec![dec("104"), dec("103"), dec("102")]
    );
    assert_eq!(
        view.asks.iter().map(|l| l.cumulative).collect::<Vec<_>>(),
        vec![dec("15"), dec("9"), dec("4")]
    );
}

#[test]
fn the_touch_sits_next_to_the_spread_row() {
    // Best ask must be the last ask row and best bid the first bid row, or the book reads
    // inside-out.
    let view = depth_view(&sample(), 3).unwrap();
    assert_eq!(view.asks.last().unwrap().price, dec("102"));
    assert_eq!(view.bids.first().unwrap().price, dec("100"));
}

#[test]
fn distance_from_mid_is_signed() {
    let view = depth_view(&sample(), 3).unwrap();
    assert_eq!(view.mid, Some(dec("101")));

    assert!(view.bids[0].from_mid_pct < Decimal::zero(), "bids sit below mid");
    assert!(view.asks[0].from_mid_pct > Decimal::zero(), "asks sit above mid");
    // 100 against a mid of 101 is a shade under one percent below.
    assert!(view.bids[0].from_mid_pct > dec("-0.99015"));
    assert!(view.bids[0].from_mid_pct < dec("-0.99005"));
}

#[test]
fn both_sides_share_one_bar_scale_so_imbalance_shows() {
    // Asks carry 15 against the bids' 6; if each side were scaled to itself, both would end in
    // a full bar and the imbalance would be invisible.
    let view = depth_view(&sample(), 3).unwrap();

    assert_eq!(view.asks[0].fill, Decimal::one(), "the deepest level anywhere fills the bar");
    assert_eq!(view.bids[2].fill, dec("0.4"), "6 of 15");
    assert!(view.bids.iter().all(|l| l.fill < Decimal::one()));
}

#[test]
fn spread_is_reported_in_price_and_in_percent() {
    let view = depth_view(&sample(), 3).unwrap();
    assert_eq!(view.spread, Some(dec("2")));
    let pct = view.spread_pct.unwrap();
    assert!(pct > dec("1.98015") && pct < dec("1.98025"));
}

#[test]
fn a_one_sided_book_does_not_produce_a_mid_or_a_percentage() {
    // Happens for a moment after a resync, and dividing by an absent mid would panic.
    let view = depth_view(&book(&[("100", "1")], &[]), 3).unwrap();

    assert_eq!(view.mid, None);
    assert_eq!(view.spread, None);
    assert_eq!(view.spread_pct, None);
    assert_eq!(view.bids[0].from_mid_pct, Decimal::zero());
}

#[test]
fn an_empty_book_yields_empty_rows_rather_than_a_division_by_zero() {
    let view = depth_view(&OrderBook::default(), 10).unwrap();
    assert!(view.asks.is_empty() && view.bids.is_empty());
    assert_eq!(view.mid, None);
}

#[test]
fn asking_for_more_levels_than_exist_is_not_an_error() {
    let view = depth_view(&sample(), 50).unwrap();
    assert_eq!(view.bids.len(), 3);
    assert_eq!(view.asks.len(), 3);
}

#[test]
fn levels_beyond_the_requested_depth_do_not_affect_the_bar_scale() {
    // The bar answers "how big is this against what I can see", not against the whole book.
    let deep = book(
        &[("100", "1"), ("99", "1"), ("98", "1000")],
        &[("102", "1"), ("103", "1")],
    );
    let view = depth_view(&deep, 2).unwrap();

    assert_eq!(view.bids[1].fill, Decimal::one(), "2 of the 2 visible, not 2 of 1002");
}

#[test]
fn a_book_whose_numbers_leave_the_range_is_not_drawn() {
    let most = "79228162514264337593543950335";
    assert!(depth_view(&book(&[("1", most), ("0.5", "1")], &[]), 5).is_none());
    assert!(try_mid(&book(&[(most, "1")], &[(most, "1")])).is_none());
    assert_eq!(try_spread(&book(&[("1", "1")], &[])), Some(None));
}

#[test]
fn a_fraction_stays_between_zero_and_one() {
    assert_eq!(ratio(dec("3"), dec("4")), Some(dec("0.75")));
    assert_eq!(ratio(dec("5"), dec("4")), Some(Decimal::one()));
    assert_eq!(ratio(dec("-5"), dec("4")), Some(Decimal::zero()));
    assert_eq!(ratio(dec("5"), Decimal::zero()), Some(Decimal::zero()));
}

// --------------------------------------------------------------------- chart

fn candle(open_time: i64, open: &str, high: &str, low: &str, close: &str) -> Candle {
    Candle {
        symbol: Symbol::new(ExchangeId::Binance, MarketKind::Spot, "BTCUSDT"),
        open_time: Timestamp::from_millis(open_time),
        interval_ms: 1_000,
        open: dec(open),
        high: dec(high),
        low: dec(low),
        close: dec(close),
        volume: dec("1"),
        closed: true,
    }
}

fn series() -> Vec<Candle> {
    vec![
        candle(1_000, "100", "105", "99", "104"),
        candle(2_000, "104", "108", "103", "106"),
        candle(3_000, "106", "107", "100", "101"),
    ]
}

#[test]
fn bars_are_ordered_left_to_right_by_time() {
    let view = chart_view(&series(), 3).unwrap();
    let slots: Vec<usize> = view.bars.iter().map(|b| b.slot).collect();

    assert_eq!(
        view.bars.iter().map(|b| b.open_time).collect::<Vec<_>>(),
        vec![1_000, 2_000, 3_000]
    );
    assert!(slots.windows(2).all(|w| w[0] < w[1]));
    assert!(slots.iter().all(|s| *s < view.slots));
}

#[test]
fn a_partly_filled_chart_keeps_its_slot_width_and_grows_from_the_left() {
    let full = chart_view(&series(), 3).unwrap();
    let partial = chart_view(&series(), 10).unwrap();

    assert!(partial.bars[0].slot * 2 > partial.slots, "three of ten sit at the right-hand end");
    assert!(partial.slots > full.slots);
    assert_eq!(partial.bars.len(), 3);
    assert_eq!(partial.bars.iter().map(|b| b.slot).collect::<Vec<_>>(), vec![7, 8, 9]);
}

#[test]
fn only_the_most_recent_candles_are_shown() {
    let view = chart_view(&series(), 2).unwrap();
    assert_eq!(view.bars.iter().map(|b| b.open_time).collect::<Vec<_>>(), vec![2_000, 3_000]);
}

#[test]
fn direction_comes_from_open_against_close() {
    let view = chart_view(&series(), 3).unwrap();
    assert!(view.bars[0].rising, "100 -> 104");
    assert!(!view.bars[2].rising, "106 -> 101");
}

#[test]
fn a_doji_counts_as_rising_rather_than_falling() {
    let flat = vec![candle(1_000, "100", "101", "99", "100")];
    assert!(chart_view(&flat, 1).unwrap().bars[0].rising);
}

#[test]
fn a_flat_series_does_not_divide_by_zero() {
    // Happens on an illiquid instrument that printed once and stopped.
    let flat = vec![candle(1_000, "100", "100", "100", "100")];
    let view = chart_view(&flat, 5).unwrap();

    assert!(view.high > view.low, "the range is nudged apart");
    assert!(view.low <= view.bars[0].close && view.bars[0].close <= view.high);
}

#[test]
fn an_empty_series_yields_an_empty_chart_rather_than_a_panic() {
    let view = chart_view(&[], 10).unwrap();
    assert!(view.bars.is_empty());
    assert_eq!(view.slots, 0);
    assert_eq!(view.last, None);
}

#[test]
fn the_drawn_range_is_padded_beyond_the_extremes() {
    let view = chart_view(&series(), 3).unwrap();
    assert!(view.high > dec("108"), "the top of the wick is not flush with the edge");
    assert!(view.low < dec("99"));
    // Nine high, eight hundredths of it on either side.
    assert_eq!(view.high, dec("108.72"));
    assert_eq!(view.low, dec("98.28"));
}

#[test]
fn the_last_close_is_reported_with_its_position() {
    let view = chart_view(&series(), 3).unwrap();
    assert_eq!(view.last, Some(dec("101")));
    assert_eq!(view.last, Some(view.bars[2].close));
}

#[test]
fn a_range_without_height_is_nudged_apart() {
    assert_eq!(pad(dec("100"), dec("100")), Some((dec("100.1"), dec("99.9"))));
    assert_eq!(pad(dec("0"), dec("0")), Some((dec("1"), dec("-1"))));
    assert_eq!(pad(dec("-50"), dec("-50")), Some((dec("-49.95"), dec("-50.05"))));
}

// ---------------------------------------------------------------------- feed

fn sym() -> Symbol {
    Symbol::new(ExchangeId::Binance, MarketKind::LinearPerp, "BTCUSDT")
}

fn snapshot_event(id: u64) -> Event {
    Event::market(
        Timestamp::from_millis(1),
        MarketEvent::BookSnapshot(OrderBook {
            symbol: Some(sym()),
            bids: vec![level(&("100", "1"))],
            asks: vec![level(&("101", "1"))],
            last_update_id: id,
            ts: Timestamp::from_millis(1),
            synced: true,
        }),
    )
}

fn delta_event(prev: u64, last: u64) -> Event {
    Event::market(
        Timestamp::from_millis(2),
        MarketEvent::BookDelta(BookDelta {
            symbol: sym(),
            prev_update_id: prev,
            last_update_id: last,
            bids: vec![level(&("100", "9"))],
            asks: vec![],
            ts: Timestamp::from_millis(2),
        }),
    )
}

fn print_event() -> Event {
    Event::market(Timestamp::from_millis(1), MarketEvent::Trade(print()))
}

fn print() -> PublicTrade {
    PublicTrade {
        symbol: sym(),
        price: dec("100"),
        qty: dec("1"),
        taker_side: Side::Buy,
        ts: Timestamp::from_millis(1),
        id: 1,
    }
}

#[test]
fn a_snapshot_then_deltas_build_the_book() {
    let mut state = FeedState::default();
    state.apply(snapshot_event(1_000));
    state.apply(delta_event(1_000, 1_010));

    assert_eq!(state.book(&sym().key()).unwrap().best_bid().unwrap().qty, dec("9"));
}

#[test]
fn a_desync_drops_the_book_rather_than_drawing_a_stale_one() {
    let mut state = FeedState::default();
    state.apply(snapshot_event(1_000));
    state.apply(delta_event(5_000, 5_010));

    assert!(state.is_empty(), "a book that disagrees with the core must not be shown");
    assert!(state.core_note().unwrap().contains("desynced"));
}

#[test]
fn trades_are_counted_per_instrument() {
    let mut state = FeedState::default();
    for _ in 0..3 {
        state.apply(print_event());
    }
    assert_eq!(state.trades(&sym().key()), 3);
    assert_eq!(state.trades("binance:spot:BTCUSDT"), 0);
}

#[test]
fn core_health_notices_are_surfaced_and_cleared() {
    let mut state = FeedState::default();
    state.apply(Event::connection(
        Timestamp::from_millis(1),
        ConnectionEvent::Resyncing { reason: "rebuilding book".into() },
    ));
    assert_eq!(state.core_note().map(|n| n.as_str()), Some("rebuilding book"));

    state.apply(Event::connection(Timestamp::from_millis(2), ConnectionEvent::Ready));
    assert!(state.core_note().is_none());

    state.apply(Event::connection(
        Timestamp::from_millis(3),
        ConnectionEvent::Disconnected { reason: "reset".into() },
    ));
    assert_eq!(
        state.core_note().map(|n| n.as_str()),
        Some("core lost its venue feed: reset")
    );
}

#[test]
fn a_refusal_reads_differently_from_a_dropped_connection() {
    // The UI must not invite the user to wait out something that will never resolve.
    assert!(Status::Refused("Unauthorized".into()).label().starts_with("refused"));
    assert!(Status::Lost("reset".into()).label().starts_with("reconnecting"));
    assert!(Status::Live.is_live());
    assert!(!Status::Connecting.is_live());
}

fn feed() -> Feed {
    Feed::new("token".into(), vec![Subscription::Book(sym())])
}

#[test]
fn the_client_greets_subscribes_and_is_live() {
    let mut f = feed();
    assert_eq!(
        f.step(Incoming::Connected),
        Outgoing::Send(ClientMsg::Hello { protocol: PROTOCOL_VERSION, token: "token".into() })
    );
    assert_eq!(f.step(Incoming::Sent), Outgoing::Receive);
    assert_eq!(f.snapshot().status(), &Status::Connecting);
    assert_eq!(
        f.step(Incoming::Message(ServerMsg::Welcome { protocol: PROTOCOL_VERSION })),
        Outgoing::Send(ClientMsg::Subscribe(vec![Subscription::Book(sym())]))
    );
    assert_eq!(f.step(Incoming::Sent), Outgoing::Receive);
    assert!(f.snapshot().status().is_live());
    assert_eq!(f.step(Incoming::Message(ServerMsg::Event(snapshot_event(1)))), Outgoing::Receive);
    assert_eq!(f.snapshot().len(), 1);
    assert_eq!(f.step(Incoming::Undecodable), Outgoing::Receive);
    assert_eq!(f.step(Incoming::Other), Outgoing::Receive);
    assert_eq!(f.step(Incoming::Message(ServerMsg::Pong(0))), Outgoing::Receive);

    // A dropped connection takes its books with it, and another is made.
    assert_eq!(f.step(Incoming::Closed), Outgoing::Rest);
    assert!(f.snapshot().is_empty());
    assert_eq!(f.snapshot().status().label(), "reconnecting: core closed the connection");
    assert_eq!(f.step(Incoming::Rested), Outgoing::Connect);
    assert_eq!(f.snapshot().status(), &Status::Connecting);
}

#[test]
fn a_rejected_token_stops_the_client() {
    let mut f = feed();
    let refused =
        ServerMsg::Failed { code: ErrorCode::Unauthorized, message: "token not accepted".into() };
    assert_eq!(f.step(Incoming::Message(refused)), Outgoing::Stop);
    assert_eq!(f.snapshot().status().label(), "refused: Unauthorized: token not accepted");

    let mut f = feed();
    let passing = ServerMsg::Failed { code: ErrorCode::Malformed, message: "bad".into() };
    assert_eq!(f.step(Incoming::Message(passing)), Outgoing::Rest);
    assert_eq!(f.step(Incoming::Broken("reset".into())), Outgoing::Rest);
    assert_eq!(f.step(Incoming::Unsendable("too large".into())), Outgoing::Stop);
}

// -------------------------------------------------------------------- panels

fn live() -> FeedState {
    let mut state = FeedState::default();
    state.apply(snapshot_event(1_000));
    state.apply(print_event());
    state
}

#[test]
fn numbers_are_shown_without_padding() {
    assert_eq!(panels::show(dec("62958.64000000")), "62958.64");
    assert_eq!(panels::level_text(Some(level(&("100.50", "2.0")))), "100.5  × 2");
    assert_eq!(panels::level_text(None), "—");
    assert_eq!(panels::label("binance:spot:BTCUSDT"), "spot:BTCUSDT");
    assert_eq!(panels::label("bybit:spot:BTCUSDT"), "bybit:spot:BTCUSDT");
}

#[test]
fn the_book_panel_has_the_spread_between_its_sides() {
    let state = live();
    let rows = match panels::order_book(&state, &sym().key()) {
        Some(Panel::Rows(rows)) => rows,
        other => panic!("got {other:?}"),
    };
    assert_eq!(rows[0], vec!["price", "size", "total", "% mid"]);
    assert_eq!(rows[1], vec!["101", "1", "1", "+0.497"]);
    assert_eq!(rows[2], vec!["100.5   spread 1  (0.995%)"]);
    assert_eq!(rows[3], vec!["100", "1", "1", "-0.497"]);
    assert_eq!(
        panels::order_book(&FeedState::default(), "x"),
        Some(Panel::Note("not connected to a core".into()))
    );
}

#[test]
fn a_percentage_without_room_makes_no_panel() {
    let mut wide = book(
        &[("0.00000001", "1")],
        &[("0.00000001", "1"), ("3000000000000000000", "1")],
    );
    let view = depth_view(&wide, 3).unwrap();
    assert!(view.asks.iter().any(|l| !l.from_mid_pct.fits_thousandths()));
    wide.symbol = Some(sym());
    let mut state = FeedState::default();
    state.apply(Event::market(Timestamp::from_millis(1), MarketEvent::BookSnapshot(wide)));
    assert_eq!(panels::order_book(&state, &sym().key()), None);
}

#[test]
fn a_one_sided_market_says_so() {
    let view = depth_view(&book(&[("100", "1")], &[]), 3).unwrap();
    assert_eq!(panels::spread_row(&view), "no two-sided market");
}

#[test]
fn the_tape_tells_silence_from_absence() {
    assert_eq!(
        panels::tape(&[], true),
        Panel::Note("book is live but no trades have arrived".into())
    );
    assert_eq!(panels::tape(&[], false), Panel::Note("waiting for the instrument".into()));
    assert_eq!(
        panels::tape(&[print()], true),
        Panel::Rows(vec![
            vec!["time".into(), "price".into(), "size".into(), "taker".into()],
            vec!["00:00:00.001".into(), "100".into(), "1".into(), "buy".into()],
        ])
    );
    let many: Vec<PublicTrade> = (0..50).map(|_| print()).collect();
    assert!(matches!(panels::tape(&many, true), Panel::Rows(rows) if rows.len() == 41));
}

#[test]
fn an_instrument_without_a_book_stays_listed() {
    let watching = vec![sym().key(), "binance:spot:ETHUSDT".to_string()];
    assert_eq!(
        panels::instruments_heading(),
        vec!["instrument", "bid", "ask", "spread", "trades"]
    );
    let rows = panels::instruments(&live(), &watching).unwrap();
    assert_eq!(
        rows[0].cells,
        vec!["linear_perp:BTCUSDT", "100  × 1", "101  × 1", "1", "1"]
    );
    assert!(rows[0].attached);
    assert_eq!(rows[1].cells, vec!["spot:ETHUSDT", "—", "—", "—", "0"]);
    assert!(!rows[1].attached);
}

#[test]
fn the_status_panel_counts_the_books_that_are_there() {
    let watching = vec![sym().key(), "binance:spot:ETHUSDT".to_string()];
    let rows = panels::core_status(&live(), "ws://core", &watching);
    assert_eq!(rows[0], vec!["core", "ws://core"]);
    assert_eq!(rows[1], vec!["connection", "connecting"]);
    assert_eq!(rows[2], vec!["books", "1 of 2 subscribed"]);
    assert_eq!(rows[3], vec!["keys", "none on this machine — they live in the core"]);
    assert_eq!(rows[4], vec!["last note", "—"]);
}

#[test]
fn the_log_is_stamped() {
    assert_eq!(panels::log(&[]), Panel::Note("nothing logged yet".into()));
    let line = LogLine { at: 61_005, level: LogLevel::Warn, text: "careful".into() };
    assert_eq!(
        panels::log(&[line]),
        Panel::Rows(vec![vec!["00:01:01.005".into(), "careful".into()]])
    );
}

#[test]
fn the_shell_lists_every_book_with_all_its_digits() {
    let rows = panels::book_rows(&live()).unwrap();
    assert_eq!(
        rows,
        Panel::Rows(vec![vec![
            "linear_perp:BTCUSDT".into(),
            "100  × 1".into(),
            "101  × 1".into(),
            "spread 1".into(),
            "1 trades".into(),
        ]])
    );
    assert_eq!(
        panels::book_rows(&FeedState::default()),
        Some(Panel::Note("not connected to a core".into()))
    );
    assert_eq!(panels::header(&live(), "ws://core"), vec!["moonterm", "ws://core", "connecting"]);
    assert_eq!(
        panels::status_bar(&live()),
        vec!["connecting", "1 books", "no keys on this machine"]
    );
}

#[test]
fn the_chart_area_says_that_it_is_not_built() {
    assert_eq!(
        panels::chart_placeholder(&live(), &sym().key()).unwrap(),
        vec!["100.5", "linear_perp:BTCUSDT", "tick chart is not built yet"]
    );
    assert_eq!(panels::chart_placeholder(&live(), "x").unwrap()[0], "—");
}

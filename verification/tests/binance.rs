use moon_own::binance::connector::{
    Action, Command, Connector, Exit, Input, SnapshotResult, BACKOFF_MAX_MS, BACKOFF_START_MS,
    SNAPSHOT_DEPTH,
};
use moon_own::binance::endpoints::{legal_depth_limit, Endpoints};
use moon_own::binance::frames::{decode, trade_from, Decoded, TradeFields};
use moon_own::binance::rest;
use moon_own::binance::streams::{control_frame, stream_name};
use moon_own::binance::wire::{
    AggTrade, DepthSnapshot, DepthUpdate, ExchangeInfo, Filter, RawLevel, SymbolInfo,
};
use moon_own::decimal::Decimal;
use moon_own::domain::event::{ConnectionEvent, MarketEvent, Payload};
use moon_own::domain::ids::{ExchangeId, MarketKind, Symbol};
use moon_own::domain::market::{ApplyOutcome, BookLevel, OrderBook};
use moon_own::domain::order::Side;
use moon_own::domain::time::Timestamp;
use moon_own::exchange::error::{Error, Subscription};

fn dec(text: &str) -> Decimal {
    Decimal::parse(text).unwrap()
}

fn perp() -> Symbol {
    Symbol::new(ExchangeId::Binance, MarketKind::LinearPerp, "BTCUSDT")
}

// ----------------------------------------------------------------- endpoints

#[test]
fn each_market_gets_its_own_host() {
    assert_eq!(Endpoints::for_market(MarketKind::Spot).unwrap().rest, "https://api.binance.com");
    assert_eq!(
        Endpoints::for_market(MarketKind::LinearPerp).unwrap().rest,
        "https://fapi.binance.com"
    );
}

#[test]
fn coin_margined_is_refused_not_misrouted() {
    // Silently sending COIN-M requests to the USD-M host would return plausible-looking data
    // for the wrong contract.
    assert!(Endpoints::for_market(MarketKind::InversePerp).is_err());
}

#[test]
fn depth_limits_snap_up_to_a_value_binance_accepts() {
    assert_eq!(legal_depth_limit(1), 5);
    assert_eq!(legal_depth_limit(20), 20);
    assert_eq!(legal_depth_limit(21), 50);
    assert_eq!(legal_depth_limit(101), 500);
    assert_eq!(legal_depth_limit(99_999), 5000);
}

#[test]
fn urls_are_built_per_market() {
    let usdm = Endpoints::for_market(MarketKind::LinearPerp).unwrap();
    assert_eq!(usdm.exchange_info_url(), "https://fapi.binance.com/fapi/v1/exchangeInfo");
    assert_eq!(
        usdm.depth_url("BTCUSDT", 100),
        "https://fapi.binance.com/fapi/v1/depth?symbol=BTCUSDT&limit=100"
    );
}

// ------------------------------------------------------------------- streams

#[test]
fn stream_names_are_lowercased_as_binance_requires() {
    assert_eq!(stream_name(&Subscription::Trades(perp())).unwrap(), "btcusdt@aggTrade");
    assert_eq!(stream_name(&Subscription::Book(perp())).unwrap(), "btcusdt@depth@100ms");
}

#[test]
fn candle_intervals_map_to_binance_names() {
    let sub = Subscription::Candles { symbol: perp(), interval_ms: 60_000 };
    assert_eq!(stream_name(&sub).unwrap(), "btcusdt@kline_1m");
}

#[test]
fn an_interval_binance_does_not_publish_is_refused_up_front() {
    // Better a clear error here than a subscription the venue silently ignores.
    let sub = Subscription::Candles { symbol: perp(), interval_ms: 45_000 };
    assert!(stream_name(&sub).is_err());
}

#[test]
fn control_frames_are_valid_json() {
    let frame = control_frame(
        "SUBSCRIBE",
        &["btcusdt@aggTrade".into(), "btcusdt@depth@100ms".into()],
        7,
    );
    let parsed: serde_json::Value = serde_json::from_str(&frame).unwrap();

    assert_eq!(parsed["method"], "SUBSCRIBE");
    assert_eq!(parsed["id"], 7);
    assert_eq!(parsed["params"][1], "btcusdt@depth@100ms");
}

#[test]
fn an_empty_subscription_list_still_produces_valid_json() {
    let parsed: serde_json::Value =
        serde_json::from_str(&control_frame("SUBSCRIBE", &[], 1)).unwrap();
    assert_eq!(parsed["params"].as_array().unwrap().len(), 0);
}

#[test]
fn one_bad_subscription_refuses_the_whole_request() {
    let good = Subscription::Trades(perp());
    let bad = Subscription::Candles { symbol: perp(), interval_ms: 45_000 };
    assert_eq!(
        rest::stream_names(&[good.clone(), Subscription::Book(perp())]).unwrap(),
        vec!["btcusdt@aggTrade", "btcusdt@depth@100ms"]
    );
    assert!(rest::stream_names(&[good, bad]).is_err());
}

// ---------------------------------------------------------------------- wire

fn agg_trade(buyer_is_maker: bool) -> AggTrade {
    AggTrade {
        symbol: "BTCUSDT".into(),
        agg_id: 99,
        price: dec("64000.10"),
        qty: dec("0.235"),
        trade_time: 1_700_000_000_000,
        buyer_is_maker,
    }
}

#[test]
fn taker_side_is_the_inverse_of_binance_maker_flag() {
    let out = agg_trade(true).into_domain(perp());

    // buyer_is_maker = true means the SELLER crossed the spread.
    assert_eq!(out.taker_side, Side::Sell);
    assert_eq!(out.price, dec("64000.10"));
    assert_eq!(out.qty, dec("0.235"));
    assert_eq!(out.id, 99);
    assert_eq!(agg_trade(false).into_domain(perp()).taker_side, Side::Buy);

    // And the same from the text of the frame.
    let raw = r#"{"e":"aggTrade","E":1,"s":"BTCUSDT","a":99,"p":"64000.10","q":"0.235","f":1,"l":2,"T":1700000000000,"m":true}"#;
    match decode(raw, MarketKind::LinearPerp) {
        Some(Decoded::Trade(t)) => assert_eq!(t, out),
        _ => panic!("expected a trade"),
    }
}

fn depth(first: u64, last: u64, prev: Option<u64>, bids: Vec<RawLevel>) -> DepthUpdate {
    DepthUpdate {
        symbol: "BTCUSDT".into(),
        first_update_id: first,
        final_update_id: last,
        prev_final_update_id: prev,
        bids,
        asks: vec![],
        event_time: 1_700_000_000_000,
    }
}

#[test]
fn futures_book_sequencing_uses_pu_verbatim() {
    let raw = r#"{"e":"depthUpdate","E":1700000000000,"T":1,"s":"BTCUSDT","U":157,"u":160,"pu":149,"b":[["64000.1","10"]],"a":[["64001.0","5"]]}"#;
    let out = match decode(raw, MarketKind::LinearPerp) {
        Some(Decoded::Delta(d)) => d,
        _ => panic!("expected a book delta"),
    };

    assert_eq!(out.prev_update_id, 149);
    assert_eq!(out.last_update_id, 160);
    assert_eq!(out.bids[0].price, dec("64000.1"));
}

#[test]
fn spot_book_sequencing_derives_the_previous_id_from_u() {
    // Spot omits `pu` entirely but guarantees U == previous u + 1.
    let out = depth(157, 160, None, vec![])
        .into_domain(Symbol::new(ExchangeId::Binance, MarketKind::Spot, "BTCUSDT"));

    assert_eq!(out.prev_update_id, 156, "spot's previous final id is U - 1");
}

#[test]
fn spot_and_futures_deltas_chain_without_false_gaps() {
    // The regression this guards: reading spot's `U` as `pu` flags a gap every event.
    let mut book = OrderBook { last_update_id: 156, ..Default::default() };
    let raw = r#"{"e":"depthUpdate","E":1,"s":"BTCUSDT","U":157,"u":160,"b":[["100","1"]],"a":[]}"#;
    let delta = match decode(raw, MarketKind::Spot) {
        Some(Decoded::Delta(d)) => d,
        _ => panic!("expected a book delta"),
    };

    assert_eq!(book.apply(&delta), ApplyOutcome::Applied);
}

fn symbol_info(filters: Vec<Filter>) -> SymbolInfo {
    SymbolInfo {
        symbol: "BTCUSDT".into(),
        status: None,
        contract_status: None,
        base_asset: "BTC".into(),
        quote_asset: "USDT".into(),
        margin_asset: None,
        filters,
    }
}

#[test]
fn spot_instrument_carries_both_grids_and_the_notional() {
    let mut info = symbol_info(vec![
        Filter::Price { tick_size: dec("0.01000000") },
        Filter::LotSize { step_size: dec("0.00001000"), min_qty: dec("0.00001000") },
        Filter::Notional { min_notional: Some(dec("5.00000000")) },
        Filter::Other,
    ]);
    info.status = Some("TRADING".into());
    let out = info.into_domain(MarketKind::Spot).unwrap();

    assert_eq!(out.tick_size, dec("0.01"));
    assert_eq!(out.step_size, dec("0.00001"));
    assert_eq!(out.min_notional, dec("5"));
    assert_eq!(out.margin_asset, "USDT", "spot margins in the quote asset");
    assert!(out.trading);
}

#[test]
fn futures_instrument_reads_contract_status_and_the_notional_alias() {
    // USD-M spells the minimum "notional" and the state "contractStatus".
    let mut info = symbol_info(vec![
        Filter::Price { tick_size: dec("0.10") },
        Filter::LotSize { step_size: dec("0.001"), min_qty: dec("0.001") },
        Filter::MinNotional { min_notional: None, notional: Some(dec("5")) },
    ]);
    info.contract_status = Some("TRADING".into());
    info.margin_asset = Some("USDT".into());
    let out = info.into_domain(MarketKind::LinearPerp).unwrap();

    assert_eq!(out.min_notional, dec("5"));
    assert_eq!(out.tick_size, dec("0.10"));
    assert!(out.trading);
}

#[test]
fn a_halted_instrument_is_marked_not_trading_rather_than_dropped() {
    let mut info = symbol_info(vec![
        Filter::Price { tick_size: dec("0.01") },
        Filter::LotSize { step_size: dec("1"), min_qty: dec("1") },
    ]);
    info.status = Some("BREAK".into());
    assert!(!info.into_domain(MarketKind::Spot).unwrap().trading);
}

#[test]
fn a_symbol_without_grids_is_a_parse_error_not_a_silent_default() {
    let mut info = symbol_info(vec![]);
    info.status = Some("TRADING".into());
    assert!(info.into_domain(MarketKind::Spot).is_err());
}

#[test]
fn depth_snapshot_keeps_the_sequence_id_for_resync() {
    let snap = DepthSnapshot {
        last_update_id: 1027024,
        bids: vec![RawLevel(dec("64000.1"), dec("1.5"))],
        asks: vec![RawLevel(dec("64001.2"), dec("2.0"))],
    };
    let book = snap.into_domain(perp(), Timestamp::from_millis(7));

    assert_eq!(book.last_update_id, 1027024);
    assert_eq!(book.best_bid().unwrap().price, dec("64000.1"));
    assert_eq!(book.spread(), Some(dec("1.1")));
    assert!(!book.synced);
}

#[test]
fn an_instrument_that_cannot_be_read_does_not_cost_the_others() {
    let mut good = symbol_info(vec![
        Filter::Price { tick_size: dec("0.01") },
        Filter::LotSize { step_size: dec("1"), min_qty: dec("1") },
    ]);
    good.status = Some("TRADING".into());
    let info = ExchangeInfo { symbols: vec![symbol_info(vec![]), good] };
    let out = info.into_instruments(MarketKind::Spot);
    assert_eq!(out.len(), 1);
    assert_eq!(out[0].symbol.key(), "binance:spot:BTCUSDT");
}

// -------------------------------------------------------------------- frames

#[test]
fn decodes_a_trade_frame() {
    let raw = r#"{"e":"aggTrade","E":1,"s":"BTCUSDT","a":99,"p":"64000.10","q":"0.235","f":1,"l":2,"T":1700000000000,"m":false}"#;
    match decode(raw, MarketKind::LinearPerp) {
        Some(Decoded::Trade(t)) => {
            assert_eq!(t.symbol.market, MarketKind::LinearPerp);
            assert_eq!(t.taker_side, Side::Buy);
            assert_eq!(t.price.to_string(), "64000.10");
            assert_eq!(t.ts.millis(), 1_700_000_000_000);
        }
        _ => panic!("expected a trade"),
    }
}

#[test]
fn the_same_ticker_decodes_to_distinct_symbols_per_market() {
    // Running spot and futures in one process hinges on this not collapsing.
    let raw = r#"{"e":"aggTrade","E":1,"s":"BTCUSDT","a":1,"p":"1","q":"1","f":1,"l":1,"T":1,"m":false}"#;
    let key = |market| match decode(raw, market) {
        Some(Decoded::Trade(t)) => t.symbol.key(),
        _ => unreachable!(),
    };
    assert_eq!(key(MarketKind::Spot), "binance:spot:BTCUSDT");
    assert_eq!(key(MarketKind::LinearPerp), "binance:linear_perp:BTCUSDT");
}

#[test]
fn control_acks_and_unknown_streams_are_ignored_not_errors() {
    // Binance answers every SUBSCRIBE with this; it carries no "e" field.
    assert!(decode(r#"{"result":null,"id":1}"#, MarketKind::Spot).is_none());
    assert!(decode(r#"{"e":"markPriceUpdate","s":"BTCUSDT"}"#, MarketKind::Spot).is_none());
    assert!(decode("not json at all", MarketKind::Spot).is_none());
}

#[test]
fn a_book_frame_decodes_with_its_sequence_numbers_intact() {
    let raw = r#"{"e":"depthUpdate","E":1700000000000,"T":1,"s":"BTCUSDT","U":157,"u":160,"pu":149,"b":[["64000.1","10"]],"a":[]}"#;
    match decode(raw, MarketKind::LinearPerp) {
        Some(Decoded::Delta(d)) => {
            assert_eq!(d.prev_update_id, 149);
            assert_eq!(d.last_update_id, 160);
        }
        _ => panic!("expected a book delta"),
    }
}

#[test]
fn a_frame_with_a_field_missing_or_of_another_kind_is_ignored() {
    let raw = r#"{"e":"aggTrade","s":"BTCUSDT","a":99,"p":"64000.10","q":"0.235","T":1700000000000}"#;
    assert!(decode(raw, MarketKind::Spot).is_none());
    let raw = r#"{"e":"aggTrade","s":"BTCUSDT","a":99,"p":"abc","q":"0.235","T":1,"m":true}"#;
    assert!(decode(raw, MarketKind::Spot).is_none());
    let raw = r#"{"e":"depthUpdate","E":1,"s":"BTCUSDT","U":1,"u":2,"b":[["1"]],"a":[]}"#;
    assert!(decode(raw, MarketKind::Spot).is_none());
    let raw = r#"{"e":"depthUpdate","E":1,"s":"BTCUSDT","U":1,"u":2,"pu":null,"b":[],"a":[]}"#;
    assert!(decode(raw, MarketKind::Spot).is_some());
}

#[test]
fn fields_make_a_trade_only_when_all_are_there() {
    let fields = |qty: Option<String>| TradeFields {
        symbol: Some("ETHUSDT".into()),
        agg_id: Some(5),
        price: Some("2000.5".into()),
        qty,
        trade_time: Some(12),
        buyer_is_maker: Some(true),
    };
    let t = trade_from(fields(Some("3".into())), MarketKind::Spot).unwrap();
    assert_eq!((t.id, t.ts.millis(), t.taker_side), (5, 12, Side::Sell));
    assert_eq!((t.price, t.qty), (dec("2000.5"), dec("3")));
    assert!(trade_from(fields(None), MarketKind::Spot).is_none());
}

// ---------------------------------------------------------------------- rest

#[test]
fn a_status_decides_what_a_body_is() {
    assert_eq!(rest::accept(200, "{}".into()).unwrap(), "{}");
    assert!(matches!(rest::accept(429, "slow".into()), Err(Error::RateLimited { .. })));
    assert!(matches!(rest::accept(418, "banned".into()), Err(Error::RateLimited { .. })));
    match rest::accept(400, "bad".into()) {
        Err(Error::Rejected { code, message }) => {
            assert_eq!(code, "400");
            assert_eq!(message, "bad");
        }
        other => panic!("expected a rejection, got {other:?}"),
    }
}

#[test]
fn a_long_text_is_cut_between_characters() {
    assert_eq!(rest::truncate("hello", 3), "hel");
    assert_eq!(rest::truncate("hello", 10), "hello");
    // Counted in characters: one that takes two bytes is kept whole or not at all.
    assert_eq!(rest::truncate("aéb", 2), "aé");
    let e = rest::unreadable("expected value", "<html>");
    assert!(matches!(e, Error::Malformed(_)));
    assert!(e.to_string().contains("<html>"));
}

#[test]
fn a_connector_serves_its_own_market_only() {
    assert!(rest::serves(MarketKind::Spot, MarketKind::Spot).is_ok());
    assert!(rest::serves(MarketKind::Spot, MarketKind::LinearPerp).is_err());
}

// ----------------------------------------------------------------- connector

fn now(ms: i64) -> Timestamp {
    Timestamp::from_millis(ms)
}

fn text_of(actions: &[Action]) -> Vec<String> {
    actions
        .iter()
        .filter_map(|a| match a {
            Action::Write { frame, .. } => Some(frame.clone()),
            _ => None,
        })
        .collect()
}

#[test]
fn what_was_subscribed_survives_a_reconnect() {
    let mut c = Connector::new(MarketKind::Spot);
    let sent = c.step(
        Input::Command(Some(Command::Subscribe(vec!["btcusdt@aggTrade".into()]))),
        now(0),
    );
    assert_eq!(text_of(&sent).len(), 1);
    assert!(text_of(&sent)[0].contains("SUBSCRIBE"));

    c.lost("gone".into(), now(1));
    let again = c.step(Input::Opened, now(2));
    assert_eq!(text_of(&again).len(), 1);
    assert!(text_of(&again)[0].contains("btcusdt@aggTrade"));

    c.step(
        Input::Command(Some(Command::Unsubscribe(vec!["btcusdt@aggTrade".into()]))),
        now(3),
    );
    assert!(text_of(&c.step(Input::Opened, now(4))).is_empty());
}

#[test]
fn the_pause_doubles_up_to_its_ceiling_and_starts_over_when_reached() {
    let mut c = Connector::new(MarketKind::Spot);
    let mut expected = BACKOFF_START_MS;
    for _ in 0..10 {
        assert_eq!(c.pause(), expected);
        expected = (expected * 2).min(BACKOFF_MAX_MS);
    }
    c.reached();
    assert_eq!(c.pause(), BACKOFF_START_MS);
}

#[test]
fn a_book_is_published_whole_and_then_update_by_update() {
    let mut c = Connector::new(MarketKind::Spot);
    let frame = |first: u64, last: u64| {
        format!(
            r#"{{"e":"depthUpdate","E":1,"s":"BTCUSDT","U":{first},"u":{last},"b":[["100","1"]],"a":[]}}"#
        )
    };
    let asked = c.step(Input::Text(frame(991, 1_010)), now(0));
    let symbol = match asked.as_slice() {
        [Action::Publish(notice), Action::Fetch { symbol, depth }] => {
            assert!(matches!(
                notice.payload,
                Payload::Connection(ConnectionEvent::Resyncing { .. })
            ));
            assert_eq!(*depth, SNAPSHOT_DEPTH);
            symbol.clone()
        }
        other => panic!("expected a fetch, got {} actions", other.len()),
    };
    let book = OrderBook {
        symbol: Some(symbol.clone()),
        bids: vec![BookLevel { price: dec("99"), qty: dec("2") }],
        asks: vec![],
        last_update_id: 1_000,
        synced: false,
        ts: now(0),
    };
    let published = c.step(Input::Snapshot(SnapshotResult::Fetched(book)), now(10));
    assert!(published.iter().any(|a| matches!(a, Action::Publish(e)
        if matches!(&e.payload, Payload::Market(MarketEvent::BookSnapshot(b)) if b.last_update_id == 1_010))));

    let chained = c.step(Input::Text(frame(1_011, 1_020)), now(20));
    assert!(chained.iter().any(|a| matches!(a, Action::Publish(e)
        if matches!(&e.payload, Payload::Market(MarketEvent::BookDelta(d)) if d.last_update_id == 1_020))));
}

#[test]
fn a_trade_is_published_with_the_bar_it_formed() {
    let mut c = Connector::new(MarketKind::Spot);
    let raw = r#"{"e":"aggTrade","E":1,"s":"BTCUSDT","a":1,"p":"100","q":"1","f":1,"l":1,"T":1500,"m":false}"#;
    let out = c.step(Input::Text(raw.into()), now(0));
    assert!(matches!(&out[0], Action::Publish(e)
        if matches!(e.payload, Payload::Market(MarketEvent::Candle(_)))));
    assert!(matches!(&out[1], Action::Publish(e)
        if matches!(e.payload, Payload::Market(MarketEvent::Trade(_)))));
}

#[test]
fn a_ping_is_answered_and_an_end_is_left() {
    let mut c = Connector::new(MarketKind::LinearPerp);
    assert_eq!(c.market(), MarketKind::LinearPerp);
    assert!(matches!(&c.step(Input::Ping(vec![1, 2]), now(0))[..],
        [Action::Pong { payload, .. }] if payload == &vec![1, 2]));
    assert!(matches!(
        &c.step(Input::Command(None), now(0))[..],
        [Action::Leave(Exit::Shutdown)]
    ));
    assert!(matches!(&c.step(Input::Closed, now(0))[..], [Action::Leave(Exit::Reconnect(_))]));
    assert!(matches!(&c.step(Input::Ended, now(0))[..], [Action::Leave(Exit::Reconnect(_))]));
    assert!(matches!(&c.step(Input::Failed("x".into()), now(0))[..],
        [Action::Leave(Exit::Reconnect(_))]));
    assert!(matches!(
        c.connecting(now(0)).payload,
        Payload::Connection(ConnectionEvent::Connecting)
    ));
}

use moon_own::decimal::Decimal;
use moon_own::domain::ids::{ExchangeId, MarketKind, Symbol};
use moon_own::domain::instrument::Instrument;
use moon_own::domain::registry::{ResolveError, SymbolId, SymbolRegistry};
use moon_own::domain::scaled::{ScaleError, Scaled, ScaledLevel};

fn dec(text: &str) -> Decimal {
    Decimal::parse(text).unwrap()
}

/// BTCUSDT on Binance USD-M: a cent tick and a milli-BTC step.
fn btc() -> Instrument {
    Instrument {
        symbol: Symbol::new(ExchangeId::Binance, MarketKind::LinearPerp, "BTCUSDT"),
        base: "BTC".into(),
        quote: "USDT".into(),
        margin_asset: "USDT".into(),
        tick_size: dec("0.01"),
        step_size: dec("0.001"),
        min_qty: dec("0.001"),
        min_notional: dec("5"),
        trading: true,
    }
}

/// A cheap instrument, where the tick is small and the numbers are large.
fn shib() -> Instrument {
    Instrument {
        symbol: Symbol::new(ExchangeId::Binance, MarketKind::Spot, "SHIBUSDT"),
        base: "SHIB".into(),
        quote: "USDT".into(),
        margin_asset: "USDT".into(),
        tick_size: dec("0.00000001"),
        step_size: dec("1"),
        min_qty: dec("1"),
        min_notional: dec("5"),
        trading: true,
    }
}

#[test]
fn every_price_on_the_tick_grid_survives_the_round_trip_exactly() {
    // Checked across the grid rather than on one value, because an off-by-one in the scaling
    // shows up at some magnitudes and not others.
    for instrument in [btc(), shib()] {
        let tick = instrument.tick_size;
        let mut price = tick;
        for _ in 0..10_000 {
            let scaled = instrument.scale_price(price).expect("on the grid");
            assert_eq!(
                instrument.unscale_price(scaled),
                price,
                "{} did not survive on {}",
                price.to_string(),
                instrument.symbol.to_string()
            );
            price = price.plus(tick);
        }
    }
}

#[test]
fn realistic_prices_and_quantities_round_trip() {
    let btc = btc();
    for price in [dec("63096.01"), dec("0.01"), dec("120000.00"), dec("99999.99")] {
        let scaled = btc.scale_price(price).unwrap();
        assert_eq!(btc.unscale_price(scaled), price);
    }
    for qty in [dec("0.001"), dec("1.234"), dec("1000")] {
        let scaled = btc.scale_qty(qty).unwrap();
        assert_eq!(btc.unscale_qty(scaled), qty);
    }
}

#[test]
fn a_satoshi_scale_tick_does_not_lose_precision() {
    let shib = shib();
    let price = dec("0.00002417");
    let scaled = shib.scale_price(price).unwrap();
    assert_eq!(scaled, Scaled(2_417));
    assert_eq!(shib.unscale_price(scaled), price);
}

#[test]
fn a_price_off_the_tick_grid_is_refused_not_rounded() {
    let btc = btc();
    let err = btc.scale_price(dec("63096.015")).unwrap_err();
    assert!(matches!(err, ScaleError::OffGrid { .. }), "got {err:?}");
    assert!(err.to_string().contains("63096.015"), "the message must name the value");
}

#[test]
fn rounding_remains_available_but_has_to_be_asked_for() {
    let btc = btc();
    let rounded = btc.round_price(dec("63096.015"));
    assert!(btc.scale_price(rounded).is_ok(), "what was rounded is on the grid");
}

#[test]
fn a_quantity_off_the_step_grid_is_refused() {
    let btc = btc();
    assert!(matches!(btc.scale_qty(dec("0.0015")), Err(ScaleError::OffGrid { .. })));
    assert!(btc.scale_qty(dec("0.002")).is_ok());
}

#[test]
fn a_zero_increment_is_an_error_rather_than_a_division_by_zero() {
    // A malformed instrument from a venue must not panic a connector.
    let mut broken = btc();
    broken.tick_size = Decimal::zero();
    assert_eq!(broken.scale_price(dec("1")), Err(ScaleError::ZeroIncrement));
}

#[test]
fn a_value_too_large_for_an_i64_is_refused_rather_than_wrapping() {
    // A wrap would produce a plausible-looking price of the wrong sign.
    let shib = shib();
    let absurd = Decimal::from_i64(i64::MAX).times(dec("0.00000001")).times(dec("1000"));
    assert!(matches!(shib.scale_price(absurd), Err(ScaleError::OutOfRange { .. })));
}

#[test]
fn a_value_just_off_the_grid_is_refused() {
    let mut broad = btc();
    broad.tick_size = dec("2");
    assert!(matches!(
        broad.scale_price(dec("1.9999999999999999999999999999")),
        Err(ScaleError::OffGrid { .. })
    ));
    assert_eq!(broad.scale_price(dec("-4.0")), Ok(Scaled(-2)));
    broad.tick_size = dec("3961408126900000000.0000000000");
    assert_eq!(
        broad.scale_price(dec("34028236698326827597900000000")),
        Ok(Scaled(8_589_934_591))
    );
}

#[test]
fn zero_is_a_legal_scaled_value() {
    let btc = btc();
    assert_eq!(btc.scale_qty(Decimal::zero()), Ok(Scaled(0)));
    assert_eq!(btc.unscale_qty(Scaled(0)), Decimal::zero());
}

#[test]
fn a_negative_value_scales_symmetrically() {
    let btc = btc();
    assert_eq!(btc.scale_price(dec("-63096.01")), Ok(Scaled(-6_309_601)));
    assert_eq!(btc.unscale_price(Scaled(-6_309_601)), dec("-63096.01"));
}

#[test]
fn a_scaled_book_frame_fits_the_budget() {
    // Measured against the decimal form it replaces, because the ratio is what justifies
    // carrying a second representation at all.
    let btc = btc();
    let levels: Vec<ScaledLevel> = (0..100)
        .map(|i| {
            let price = dec("63096.01").plus(Decimal::from_i64(i).times(btc.tick_size));
            ScaledLevel::new(btc.scale_price(price).unwrap(), btc.scale_qty(dec("0.123")).unwrap())
        })
        .collect();

    let as_decimals: Vec<(String, String)> = levels
        .iter()
        .map(|l| {
            (btc.unscale_price(l.price()).to_string(), btc.unscale_qty(l.qty()).to_string())
        })
        .collect();
    let frame: Vec<(i64, i64)> = levels.iter().map(|l| l.0).collect();

    let scaled_bytes = rmp_serde::to_vec_named(&frame).unwrap().len();
    let decimal_bytes = rmp_serde::to_vec_named(&as_decimals).unwrap().len();

    assert!(scaled_bytes < 1024, "a 100-level frame must fit a kibibyte, got {scaled_bytes}");
    assert!(
        scaled_bytes * 2 < decimal_bytes,
        "the scaled form must be worth having: {scaled_bytes} against {decimal_bytes}"
    );
}

#[test]
fn a_level_carries_no_field_names() {
    let level = ScaledLevel::new(Scaled(6_309_601), Scaled(123));
    let encoded = rmp_serde::to_vec_named(&level.0).unwrap();
    assert!(encoded.len() <= 10, "encoded as {} bytes: {encoded:02x?}", encoded.len());

    let decoded = ScaledLevel(rmp_serde::from_slice(&encoded).unwrap());
    assert_eq!(decoded, level);
    assert_eq!((decoded.price(), decoded.qty()), (Scaled(6_309_601), Scaled(123)));
}

#[test]
fn a_scaled_value_is_meaningless_without_its_instrument() {
    let (btc, shib) = (btc(), shib());
    let scaled = btc.scale_price(dec("63096.01")).unwrap();
    assert_ne!(
        shib.unscale_price(scaled),
        btc.unscale_price(scaled),
        "the same integer must not be read as the same price"
    );
}

#[test]
fn a_scale_error_says_what_was_wrong() {
    assert!(ScaleError::ZeroIncrement.to_string().contains("zero"));
    let e = ScaleError::OutOfRange { value: dec("12.5"), increment: dec("0.1") };
    assert!(e.to_string().contains("12.5"));
}

// ------------------------------------------------------------------ registry

fn sym(raw: &str) -> Symbol {
    Symbol::new(ExchangeId::Binance, MarketKind::LinearPerp, raw)
}

#[test]
fn interning_is_idempotent_within_an_epoch() {
    // A terminal resubscribing must not invalidate ids it already holds.
    let mut registry = SymbolRegistry::new(1);
    let first = registry.intern(&sym("BTCUSDT"));
    assert_eq!(registry.intern(&sym("BTCUSDT")), first);
    assert_eq!(registry.len(), 1);
}

#[test]
fn different_instruments_get_different_ids() {
    let mut registry = SymbolRegistry::new(1);
    let btc = registry.intern(&sym("BTCUSDT"));
    let eth = registry.intern(&sym("ETHUSDT"));
    assert_ne!(btc, eth);

    // The same ticker on a different market is a different instrument.
    let spot = registry.intern(&Symbol::new(ExchangeId::Binance, MarketKind::Spot, "BTCUSDT"));
    assert_ne!(spot, btc);
}

#[test]
fn an_id_from_a_foreign_epoch_is_refused() {
    let mut registry = SymbolRegistry::new(7);
    let id = registry.intern(&sym("BTCUSDT"));

    assert!(registry.resolve(id, 7).is_ok());
    assert_eq!(registry.resolve(id, 6), Err(ResolveError::ForeignEpoch(id, 6, 7)));
    assert_eq!(registry.epoch(), 7);
}

#[test]
fn the_epoch_is_checked_before_existence() {
    let registry = SymbolRegistry::new(2);
    assert!(matches!(registry.resolve(SymbolId(999), 1), Err(ResolveError::ForeignEpoch(..))));
    assert!(matches!(registry.resolve(SymbolId(999), 2), Err(ResolveError::Unknown(_))));
}

#[test]
fn ids_are_stable_and_never_recycled() {
    let mut registry = SymbolRegistry::new(1);
    let btc = registry.intern(&sym("BTCUSDT"));
    let eth = registry.intern(&sym("ETHUSDT"));

    assert_eq!(registry.resolve(btc, 1).unwrap().raw, "BTCUSDT");
    assert_eq!(registry.resolve(eth, 1).unwrap().raw, "ETHUSDT");
    assert_eq!(registry.intern(&sym("BTCUSDT")), btc, "still the same after others joined");
}

#[test]
fn a_symbol_still_describes_itself_in_full() {
    let mut registry = SymbolRegistry::new(1);
    let id = registry.intern(&sym("BTCUSDT"));
    assert_eq!(registry.resolve(id, 1).unwrap().key(), "binance:linear_perp:BTCUSDT");
    assert_eq!(id.to_string(), "sid:0", "and the id prints as obviously an id");
}

#[test]
fn lookup_does_not_assign() {
    let mut registry = SymbolRegistry::new(1);
    assert!(registry.lookup(&sym("BTCUSDT")).is_none());
    assert!(registry.is_empty());

    registry.intern(&sym("BTCUSDT"));
    assert!(registry.lookup(&sym("BTCUSDT")).is_some());
}

#[test]
fn the_assignment_list_is_ordered_by_id() {
    let mut registry = SymbolRegistry::new(1);
    for raw in ["BTCUSDT", "ETHUSDT", "SOLUSDT"] {
        registry.intern(&sym(raw));
    }
    let assignments = registry.assignments();
    assert_eq!(assignments.len(), 3);
    for (index, (symbol, id)) in assignments.iter().enumerate() {
        assert_eq!(*id, SymbolId(index as u32));
        assert_eq!(registry.resolve(*id, 1).unwrap(), symbol);
    }
}

#[test]
fn an_id_is_four_bytes_on_the_wire_not_a_nested_value() {
    let encoded = rmp_serde::to_vec_named(&SymbolId(70_000).0).unwrap();
    assert!(encoded.len() <= 5, "encoded as {} bytes: {encoded:02x?}", encoded.len());
    assert_eq!(SymbolId(rmp_serde::from_slice::<u32>(&encoded).unwrap()), SymbolId(70_000));
}

#[test]
fn the_saving_against_a_full_key_is_what_it_is_supposed_to_be() {
    let symbol = sym("BTCUSDT");
    let long = rmp_serde::to_vec_named(&symbol.key()).unwrap().len();
    let short = rmp_serde::to_vec_named(&SymbolId(1).0).unwrap().len();
    assert!(short * 4 < long, "the short form must be worth the epoch it requires");
}

#[test]
fn a_refused_id_says_which_epoch_it_came_from() {
    let e = ResolveError::ForeignEpoch(SymbolId(3), 6, 7);
    assert_eq!(
        e.to_string(),
        "symbol id sid:3 was issued under dictionary epoch 6, this core is at 7"
    );
    assert_eq!(
        ResolveError::Unknown(SymbolId(9)).to_string(),
        "symbol id sid:9 has never been issued"
    );
}

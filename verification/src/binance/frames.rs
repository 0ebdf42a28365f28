//! Reading stream frames.
//!
//! A frame is JSON. The fields that matter are taken out of it by `serde_json`; what they add up
//! to is decided here.

use crate::binance::wire;
use crate::binance::wire::{AggTrade, DepthUpdate, RawLevel};
use crate::decimal;
use crate::decimal::Decimal;
use crate::domain::ids::{ExchangeId, MarketKind, Symbol, SymbolView};
use crate::domain::market::{BookDelta, BookDeltaView, BookLevel, PublicTrade, TradeView};
use crate::domain::order::Side;
use crate::domain::time::Timestamp;
use crate::text;
use vstd::prelude::*;

verus! {

/// The text that `serde_json` finds under a key.
pub uninterp spec fn json_text(frame: Seq<char>, key: Seq<char>) -> Option<Seq<char>>;

/// The unsigned integer that `serde_json` finds under a key.
pub uninterp spec fn json_u64(frame: Seq<char>, key: Seq<char>) -> Option<u64>;

/// The integer that `serde_json` finds under a key.
pub uninterp spec fn json_i64(frame: Seq<char>, key: Seq<char>) -> Option<i64>;

/// The truth value that `serde_json` finds under a key.
pub uninterp spec fn json_bool(frame: Seq<char>, key: Seq<char>) -> Option<bool>;

/// The unsigned integer that `serde_json` finds under a key that may be missing.
pub uninterp spec fn json_optional_u64(frame: Seq<char>, key: Seq<char>) -> Option<Option<u64>>;

/// The rows of texts that `serde_json` finds under a key.
pub uninterp spec fn json_rows(frame: Seq<char>, key: Seq<char>) -> Option<Seq<Seq<Seq<char>>>>;

/// What an optional string says.
pub open spec fn text_view(s: Option<String>) -> Option<Seq<char>> {
    match s {
        Some(s) => Some(s@),
        None => None,
    }
}

/// What rows of strings say.
pub open spec fn rows_view(rows: Seq<Vec<String>>) -> Seq<Seq<Seq<char>>> {
    rows.map_values(|row: Vec<String>| row@.map_values(|s: String| s@))
}

/// Calls `serde_json::from_str`, then `get` and `as_str` of the value.
///
/// Claimed: what is found depends on the frame and the key alone.
#[verifier::external_body]
fn text_at(frame: &str, key: &str) -> (r: Option<String>)
    ensures
        text_view(r) == json_text(frame@, key@),
{
    let value: serde_json::Value = serde_json::from_str(frame).ok()?;
    Some(value.get(key)?.as_str()?.to_owned())
}

/// Calls `serde_json::from_str`, then `get` and `as_u64` of the value.
///
/// Claimed: what is found depends on the frame and the key alone.
#[verifier::external_body]
fn u64_at(frame: &str, key: &str) -> (r: Option<u64>)
    ensures
        r == json_u64(frame@, key@),
{
    let value: serde_json::Value = serde_json::from_str(frame).ok()?;
    value.get(key)?.as_u64()
}

/// Calls `serde_json::from_str`, then `get` and `as_i64` of the value.
///
/// Claimed: what is found depends on the frame and the key alone.
#[verifier::external_body]
fn i64_at(frame: &str, key: &str) -> (r: Option<i64>)
    ensures
        r == json_i64(frame@, key@),
{
    let value: serde_json::Value = serde_json::from_str(frame).ok()?;
    value.get(key)?.as_i64()
}

/// Calls `serde_json::from_str`, then `get` and `as_bool` of the value.
///
/// Claimed: what is found depends on the frame and the key alone.
#[verifier::external_body]
fn bool_at(frame: &str, key: &str) -> (r: Option<bool>)
    ensures
        r == json_bool(frame@, key@),
{
    let value: serde_json::Value = serde_json::from_str(frame).ok()?;
    value.get(key)?.as_bool()
}

/// Calls `serde_json::from_str` and `get` of the value, then `serde_json::from_value` for an
/// optional integer. A missing key is an absent integer.
///
/// Claimed: what is found depends on the frame and the key alone.
#[verifier::external_body]
fn optional_u64_at(frame: &str, key: &str) -> (r: Option<Option<u64>>)
    ensures
        r == json_optional_u64(frame@, key@),
{
    let value: serde_json::Value = serde_json::from_str(frame).ok()?;
    serde_json::from_value(value.get(key).cloned().unwrap_or_default()).ok()
}

/// Calls `serde_json::from_str` and `get` of the value, then `serde_json::from_value` for lists
/// of strings.
///
/// Claimed: what is found depends on the frame and the key alone.
#[verifier::external_body]
fn rows_at(frame: &str, key: &str) -> (r: Option<Vec<Vec<String>>>)
    ensures
        match r {
            Some(rows) => json_rows(frame@, key@) == Some(rows_view(rows@)),
            None => json_rows(frame@, key@) is None,
        },
{
    let value: serde_json::Value = serde_json::from_str(frame).ok()?;
    serde_json::from_value(value.get(key)?.clone()).ok()
}

/// What one stream frame turned out to be.
#[derive(Debug, PartialEq, Eq)]
pub enum Decoded {
    Trade(PublicTrade),
    Delta(BookDelta),
}

/// What a [`Decoded`] says.
pub enum DecodedView {
    Trade(TradeView),
    Delta(BookDeltaView),
}

impl View for Decoded {
    type V = DecodedView;

    open spec fn view(&self) -> DecodedView {
        match self {
            Decoded::Trade(t) => DecodedView::Trade(t@),
            Decoded::Delta(d) => DecodedView::Delta(d@),
        }
    }
}

pub open spec fn decoded_view(d: Option<Decoded>) -> Option<DecodedView> {
    match d {
        Some(d) => Some(d@),
        None => None,
    }
}

/// The fields of a print, as a frame has them.
pub struct TradeFields {
    pub symbol: Option<String>,
    pub agg_id: Option<u64>,
    pub price: Option<String>,
    pub qty: Option<String>,
    pub trade_time: Option<i64>,
    pub buyer_is_maker: Option<bool>,
}

/// What [`TradeFields`] say.
pub struct TradeFieldsView {
    pub symbol: Option<Seq<char>>,
    pub agg_id: Option<u64>,
    pub price: Option<Seq<char>>,
    pub qty: Option<Seq<char>>,
    pub trade_time: Option<i64>,
    pub buyer_is_maker: Option<bool>,
}

impl View for TradeFields {
    type V = TradeFieldsView;

    open spec fn view(&self) -> TradeFieldsView {
        TradeFieldsView {
            symbol: text_view(self.symbol),
            agg_id: self.agg_id,
            price: text_view(self.price),
            qty: text_view(self.qty),
            trade_time: self.trade_time,
            buyer_is_maker: self.buyer_is_maker,
        }
    }
}

/// The number a text field holds, in either notation.
pub open spec fn number(field: Option<Seq<char>>) -> Option<Decimal> {
    match field {
        Some(t) => match decimal::any_parsed(t) {
            Some(parts) => Some(decimal::of_parts(parts)),
            None => None,
        },
        None => None,
    }
}

/// The trade that the fields of a print make. Every field has to be there.
pub open spec fn trade_of(f: TradeFieldsView, market: MarketKind) -> Option<TradeView> {
    match (f.symbol, f.agg_id, number(f.price), number(f.qty), f.trade_time, f.buyer_is_maker) {
        (Some(raw), Some(id), Some(price), Some(qty), Some(time), Some(maker)) => Some(
            TradeView {
                symbol: SymbolView { exchange: ExchangeId::Binance, market, raw },
                price,
                qty,
                taker_side: if maker {
                    Side::Sell
                } else {
                    Side::Buy
                },
                ts: Timestamp(time),
                id,
            },
        ),
        _ => None,
    }
}

fn number_in(field: &Option<String>) -> (r: Option<Decimal>)
    ensures
        r == number(text_view(*field)),
{
    match field {
        Some(t) => {
            let r = Decimal::parse_any(t.as_str());
            proof {
                if r is Some {
                    decimal::lemma_of_parts(r->0);
                }
            }
            r
        },
        None => None,
    }
}

/// The trade that the fields of a print make.
pub fn trade_from(f: TradeFields, market: MarketKind) -> (r: Option<PublicTrade>)
    ensures
        match r {
            Some(t) => trade_of(f@, market) == Some(t@),
            None => trade_of(f@, market) is None,
        },
{
    let price = number_in(&f.price)?;
    let qty = number_in(&f.qty)?;
    let raw = AggTrade {
        symbol: f.symbol?,
        agg_id: f.agg_id?,
        price,
        qty,
        trade_time: f.trade_time?,
        buyer_is_maker: f.buyer_is_maker?,
    };
    let symbol = Symbol::new(ExchangeId::Binance, market, raw.symbol.as_str());
    Some(raw.into_domain(symbol))
}

/// The fields of a book update, as a frame has them.
pub struct DepthFields {
    pub symbol: Option<String>,
    pub first_update_id: Option<u64>,
    pub final_update_id: Option<u64>,
    /// Absent where the field is no integer; inside it, absent where there is no field.
    pub prev_final_update_id: Option<Option<u64>>,
    pub bids: Option<Vec<Vec<String>>>,
    pub asks: Option<Vec<Vec<String>>>,
    pub event_time: Option<i64>,
}

/// What [`DepthFields`] say.
pub struct DepthFieldsView {
    pub symbol: Option<Seq<char>>,
    pub first_update_id: Option<u64>,
    pub final_update_id: Option<u64>,
    pub prev_final_update_id: Option<Option<u64>>,
    pub bids: Option<Seq<Seq<Seq<char>>>>,
    pub asks: Option<Seq<Seq<Seq<char>>>>,
    pub event_time: Option<i64>,
}

pub open spec fn optional_rows_view(rows: Option<Vec<Vec<String>>>) -> Option<
    Seq<Seq<Seq<char>>>,
> {
    match rows {
        Some(rows) => Some(rows_view(rows@)),
        None => None,
    }
}

impl View for DepthFields {
    type V = DepthFieldsView;

    open spec fn view(&self) -> DepthFieldsView {
        DepthFieldsView {
            symbol: text_view(self.symbol),
            first_update_id: self.first_update_id,
            final_update_id: self.final_update_id,
            prev_final_update_id: self.prev_final_update_id,
            bids: optional_rows_view(self.bids),
            asks: optional_rows_view(self.asks),
            event_time: self.event_time,
        }
    }
}

/// The level a row makes: two numbers, neither more nor less.
pub open spec fn level_of(row: Seq<Seq<char>>) -> Option<BookLevel> {
    if row.len() == 2 {
        match (number(Some(row[0])), number(Some(row[1]))) {
            (Some(price), Some(qty)) => Some(BookLevel { price, qty }),
            _ => None,
        }
    } else {
        None
    }
}

/// The levels that rows make; none where one of them makes no level.
pub open spec fn levels_of(rows: Seq<Seq<Seq<char>>>) -> Option<Seq<BookLevel>>
    decreases rows.len(),
{
    if rows.len() == 0 {
        Some(Seq::empty())
    } else {
        match (levels_of(rows.drop_last()), level_of(rows.last())) {
            (Some(rest), Some(level)) => Some(rest.push(level)),
            _ => None,
        }
    }
}

/// The delta that the fields of a book update make.
pub open spec fn delta_of(f: DepthFieldsView, market: MarketKind) -> Option<BookDeltaView> {
    match (
        f.symbol,
        f.first_update_id,
        f.final_update_id,
        f.prev_final_update_id,
        f.bids,
        f.asks,
        f.event_time,
    ) {
        (
            Some(raw),
            Some(first),
            Some(last),
            Some(prev),
            Some(bids),
            Some(asks),
            Some(time),
        ) => match (levels_of(bids), levels_of(asks)) {
            (Some(bids), Some(asks)) => Some(
                BookDeltaView {
                    symbol: SymbolView { exchange: ExchangeId::Binance, market, raw },
                    prev_update_id: wire::previous_id(prev, first),
                    last_update_id: last,
                    bids,
                    asks,
                    ts: Timestamp(time),
                },
            ),
            _ => None,
        },
        _ => None,
    }
}

fn number_text(t: &String) -> (r: Option<Decimal>)
    ensures
        r == number(Some(t@)),
{
    let r = Decimal::parse_any(t.as_str());
    proof {
        if r is Some {
            decimal::lemma_of_parts(r->0);
        }
    }
    r
}

/// A failing row is not saved by later ones.
proof fn lemma_levels_fail(rows: Seq<Seq<Seq<char>>>, n: int)
    requires
        0 <= n <= rows.len(),
        levels_of(rows.take(n)) is None,
    ensures
        levels_of(rows) is None,
    decreases rows.len() - n,
{
    if n < rows.len() {
        assert(rows.take(n + 1).drop_last() =~= rows.take(n));
        lemma_levels_fail(rows, n + 1);
    } else {
        assert(rows.take(n) =~= rows);
    }
}

fn levels_in(rows: &Vec<Vec<String>>) -> (r: Option<Vec<RawLevel>>)
    ensures
        match r {
            Some(levels) => levels_of(rows_view(rows@)) == Some(wire::as_levels(levels@)),
            None => levels_of(rows_view(rows@)) is None,
        },
{
    let ghost views = rows_view(rows@);
    let mut r: Vec<RawLevel> = Vec::new();
    let mut i: usize = 0;
    assert(views.take(0) =~= Seq::<Seq<Seq<char>>>::empty());
    assert(wire::as_levels(r@) =~= Seq::<BookLevel>::empty());
    while i < rows.len()
        invariant
            i <= rows@.len(),
            views == rows_view(rows@),
            levels_of(views.take(i as int)) == Some(wire::as_levels(r@)),
        decreases rows@.len() - i,
    {
        let row = &rows[i];
        proof {
            assert(views.take(i + 1).drop_last() =~= views.take(i as int));
            assert(views.take(i + 1).last() =~= row@.map_values(|s: String| s@));
            if level_of(views[i as int]) is None {
                lemma_levels_fail(views, i + 1);
            }
        }
        if row.len() != 2 {
            return None;
        }
        let price = number_text(&row[0])?;
        let qty = number_text(&row[1])?;
        let ghost before = r@;
        r.push(RawLevel(price, qty));
        assert(wire::as_levels(r@) =~= wire::as_levels(before).push(BookLevel { price, qty }));
        i += 1;
    }
    assert(views.take(i as int) =~= views);
    Some(r)
}

/// The delta that the fields of a book update make.
pub fn delta_from(f: DepthFields, market: MarketKind) -> (r: Option<BookDelta>)
    ensures
        match r {
            Some(d) => delta_of(f@, market) == Some(d@),
            None => delta_of(f@, market) is None,
        },
{
    let symbol = f.symbol?;
    let first_update_id: u64 = f.first_update_id?;
    let final_update_id: u64 = f.final_update_id?;
    let prev_final_update_id = f.prev_final_update_id?;
    let bids = f.bids?;
    let asks = f.asks?;
    let event_time: i64 = f.event_time?;
    let raw = DepthUpdate {
        symbol,
        first_update_id,
        final_update_id,
        prev_final_update_id,
        bids: levels_in(&bids)?,
        asks: levels_in(&asks)?,
        event_time,
    };
    let symbol = Symbol::new(ExchangeId::Binance, market, raw.symbol.as_str());
    Some(raw.into_domain(symbol))
}

/// The fields of a print in a frame.
pub open spec fn trade_fields(frame: Seq<char>) -> TradeFieldsView {
    TradeFieldsView {
        symbol: json_text(frame, "s"@),
        agg_id: json_u64(frame, "a"@),
        price: json_text(frame, "p"@),
        qty: json_text(frame, "q"@),
        trade_time: json_i64(frame, "T"@),
        buyer_is_maker: json_bool(frame, "m"@),
    }
}

/// The fields of a book update in a frame.
pub open spec fn depth_fields(frame: Seq<char>) -> DepthFieldsView {
    DepthFieldsView {
        symbol: json_text(frame, "s"@),
        first_update_id: json_u64(frame, "U"@),
        final_update_id: json_u64(frame, "u"@),
        prev_final_update_id: json_optional_u64(frame, "pu"@),
        bids: json_rows(frame, "b"@),
        asks: json_rows(frame, "a"@),
        event_time: json_i64(frame, "E"@),
    }
}

/// What a frame is: a print, a book update, or nothing that is recognised.
pub open spec fn decoded(frame: Seq<char>, market: MarketKind) -> Option<DecodedView> {
    match json_text(frame, "e"@) {
        Some(kind) => if kind == "aggTrade"@ {
            match trade_of(trade_fields(frame), market) {
                Some(t) => Some(DecodedView::Trade(t)),
                None => None,
            }
        } else if kind == "depthUpdate"@ {
            match delta_of(depth_fields(frame), market) {
                Some(d) => Some(DecodedView::Delta(d)),
                None => None,
            }
        } else {
            None
        },
        None => None,
    }
}

/// Whether a text holds a number, plain or in scientific notation.
pub open spec fn readable(text: Seq<char>) -> bool {
    decimal::decimal_parsed(text) is Some || decimal::decimal_scientific(text) is Some
}

/// Whether the number that a text holds is this one. The plain notation comes first.
pub open spec fn reads(text: Seq<char>, d: Decimal) -> bool {
    &&& readable(text)
    &&& d == decimal::of_parts(
        if decimal::decimal_parsed(text) is Some {
            decimal::decimal_parsed(text)->0
        } else {
            decimal::decimal_scientific(text)->0
        },
    )
}

/// Whether every row is a price and a quantity.
pub open spec fn rows_readable(rows: Seq<Seq<Seq<char>>>) -> bool {
    forall|i: int|
        0 <= i < rows.len() ==> (#[trigger] rows[i]).len() == 2 && readable(rows[i][0]) && readable(
            rows[i][1],
        )
}

/// Whether there is one level to a row, in order: its price the first text, its quantity the
/// second.
pub open spec fn rows_read(rows: Seq<Seq<Seq<char>>>, levels: Seq<BookLevel>) -> bool {
    &&& levels.len() == rows.len()
    &&& forall|i: int|
        0 <= i < rows.len() ==> (#[trigger] rows[i]).len() == 2 && reads(
            rows[i][0],
            levels[i].price,
        ) && reads(rows[i][1], levels[i].qty)
}

/// Rows make levels, one to a row and in order, exactly where each of them is two numbers: the
/// first is the price and the second the quantity.
pub proof fn rows_make_levels(rows: Seq<Seq<Seq<char>>>)
    ensures
        levels_of(rows) is Some <==> rows_readable(rows),
        levels_of(rows) matches Some(levels) ==> rows_read(rows, levels),
        levels_of(rows) matches Some(levels) ==> forall|i: int|
            0 <= i < rows.len() && decimal::decimal_parsed(rows[i][0]) is Some
                && decimal::decimal_parsed(rows[i][1]) is Some ==> (#[trigger] levels[i])
                == (BookLevel {
                price: decimal::of_parts(decimal::decimal_parsed(rows[i][0])->0),
                qty: decimal::of_parts(decimal::decimal_parsed(rows[i][1])->0),
            }),
    decreases rows.len(),
{
    if rows.len() > 0 {
        let rest = rows.drop_last();
        rows_make_levels(rest);
        if rows_readable(rows) {
            assert forall|i: int| 0 <= i < rest.len() implies (#[trigger] rest[i]).len() == 2
                && readable(rest[i][0]) && readable(rest[i][1]) by {
                assert(rest[i] == rows[i]);
            }
            assert(rows[rows.len() - 1].len() == 2);
        }
        if levels_of(rows) is Some {
            let levels = levels_of(rows)->0;
            let old = levels_of(rest)->0;
            assert forall|i: int| 0 <= i < rows.len() implies (#[trigger] rows[i]).len() == 2
                && reads(rows[i][0], levels[i].price) && reads(rows[i][1], levels[i].qty) by {
                if i < rest.len() {
                    assert(rest[i] == rows[i]);
                    assert(levels[i] == old[i]);
                }
            }
        }
    }
}

/// A book update is made of what stands under its keys: the instrument under `s`, the bids under
/// `b`, the asks under `a`, the moment under `E`, and where it ends under `u`. Where it starts is
/// under `pu`; where that is absent it is one before what stands under `U`.
pub proof fn a_book_update_is_read_by_its_keys(frame: Seq<char>, market: MarketKind)
    requires
        json_text(frame, "e"@) == Some("depthUpdate"@),
    ensures
        decoded(frame, market) is Some <==> {
            &&& json_text(frame, "s"@) is Some
            &&& json_u64(frame, "U"@) is Some
            &&& json_u64(frame, "u"@) is Some
            &&& json_optional_u64(frame, "pu"@) is Some
            &&& json_rows(frame, "b"@) is Some && rows_readable(json_rows(frame, "b"@)->0)
            &&& json_rows(frame, "a"@) is Some && rows_readable(json_rows(frame, "a"@)->0)
            &&& json_i64(frame, "E"@) is Some
        },
        decoded(frame, market) is Some ==> decoded(frame, market)->0 is Delta,
        decoded(frame, market) matches Some(DecodedView::Delta(d)) ==> {
            &&& d.symbol.exchange == ExchangeId::Binance
            &&& d.symbol.market == market
            &&& json_text(frame, "s"@) == Some(d.symbol.raw)
            &&& json_u64(frame, "u"@) == Some(d.last_update_id)
            &&& json_i64(frame, "E"@) == Some(d.ts.0)
            &&& json_optional_u64(frame, "pu"@)->0 matches Some(prev) ==> d.prev_update_id == prev
            &&& json_optional_u64(frame, "pu"@)->0 is None && json_u64(frame, "U"@)->0 > 0
                ==> d.prev_update_id == json_u64(frame, "U"@)->0 - 1
            &&& json_optional_u64(frame, "pu"@)->0 is None && json_u64(frame, "U"@)->0 == 0
                ==> d.prev_update_id == 0
            &&& rows_read(json_rows(frame, "b"@)->0, d.bids)
            &&& rows_read(json_rows(frame, "a"@)->0, d.asks)
        },
{
    reveal_strlit("aggTrade");
    reveal_strlit("depthUpdate");
    assert("aggTrade"@.len() != "depthUpdate"@.len());
    if json_rows(frame, "b"@) is Some {
        rows_make_levels(json_rows(frame, "b"@)->0);
    }
    if json_rows(frame, "a"@) is Some {
        rows_make_levels(json_rows(frame, "a"@)->0);
    }
}

/// A print is made of what stands under its keys: the instrument under `s`, its number under `a`,
/// the price under `p`, the quantity under `q`, the moment under `T`. Under `m` stands whether the
/// buyer was there first; the one who took was then the seller.
pub proof fn a_print_is_read_by_its_keys(frame: Seq<char>, market: MarketKind)
    requires
        json_text(frame, "e"@) == Some("aggTrade"@),
    ensures
        decoded(frame, market) is Some <==> {
            &&& json_text(frame, "s"@) is Some
            &&& json_u64(frame, "a"@) is Some
            &&& json_text(frame, "p"@) is Some && readable(json_text(frame, "p"@)->0)
            &&& json_text(frame, "q"@) is Some && readable(json_text(frame, "q"@)->0)
            &&& json_i64(frame, "T"@) is Some
            &&& json_bool(frame, "m"@) is Some
        },
        decoded(frame, market) is Some ==> decoded(frame, market)->0 is Trade,
        decoded(frame, market) matches Some(DecodedView::Trade(t)) ==> {
            &&& t.symbol.exchange == ExchangeId::Binance
            &&& t.symbol.market == market
            &&& json_text(frame, "s"@) == Some(t.symbol.raw)
            &&& json_u64(frame, "a"@) == Some(t.id)
            &&& reads(json_text(frame, "p"@)->0, t.price)
            &&& reads(json_text(frame, "q"@)->0, t.qty)
            &&& json_i64(frame, "T"@) == Some(t.ts.0)
            &&& json_bool(frame, "m"@)->0 ==> t.taker_side == Side::Sell
            &&& !json_bool(frame, "m"@)->0 ==> t.taker_side == Side::Buy
        },
{
}

/// A frame of any other kind, or of none, is nothing that is recognised.
pub proof fn other_frames_are_left_alone(frame: Seq<char>, market: MarketKind)
    requires
        json_text(frame, "e"@) != Some("aggTrade"@),
        json_text(frame, "e"@) != Some("depthUpdate"@),
    ensures
        decoded(frame, market) is None,
{
}

/// Turn one stream frame into something that is recognised. Control acknowledgements and unknown
/// stream types yield `None` rather than an error: the venue adds fields freely.
pub fn decode(frame: &str, market: MarketKind) -> (r: Option<Decoded>)
    ensures
        decoded_view(r) == decoded(frame@, market),
        match r {
            Some(Decoded::Delta(d)) => {
                &&& json_text(frame@, "e"@) == Some("depthUpdate"@)
                &&& d.symbol.exchange == ExchangeId::Binance
                &&& d.symbol.market == market
                &&& json_text(frame@, "s"@) == Some(d.symbol.raw@)
                &&& json_u64(frame@, "u"@) == Some(d.last_update_id)
                &&& json_i64(frame@, "E"@) == Some(d.ts.0)
                &&& json_optional_u64(frame@, "pu"@)->0 matches Some(prev) ==> d.prev_update_id
                    == prev
                &&& json_optional_u64(frame@, "pu"@)->0 is None && json_u64(frame@, "U"@)->0 > 0
                    ==> d.prev_update_id == json_u64(frame@, "U"@)->0 - 1
                &&& json_optional_u64(frame@, "pu"@)->0 is None && json_u64(frame@, "U"@)->0 == 0
                    ==> d.prev_update_id == 0
                &&& json_rows(frame@, "b"@) is Some && rows_read(
                    json_rows(frame@, "b"@)->0,
                    d.bids@,
                )
                &&& json_rows(frame@, "a"@) is Some && rows_read(
                    json_rows(frame@, "a"@)->0,
                    d.asks@,
                )
            },
            Some(Decoded::Trade(t)) => {
                &&& json_text(frame@, "e"@) == Some("aggTrade"@)
                &&& t.symbol.exchange == ExchangeId::Binance
                &&& t.symbol.market == market
                &&& json_text(frame@, "s"@) == Some(t.symbol.raw@)
                &&& json_u64(frame@, "a"@) == Some(t.id)
                &&& json_text(frame@, "p"@) is Some && reads(json_text(frame@, "p"@)->0, t.price)
                &&& json_text(frame@, "q"@) is Some && reads(json_text(frame@, "q"@)->0, t.qty)
                &&& json_i64(frame@, "T"@) == Some(t.ts.0)
                &&& json_bool(frame@, "m"@) == Some(t.taker_side is Sell)
            },
            None => {
                &&& json_text(frame@, "e"@) == Some("depthUpdate"@) ==> {
                    ||| json_text(frame@, "s"@) is None
                    ||| json_u64(frame@, "U"@) is None
                    ||| json_u64(frame@, "u"@) is None
                    ||| json_optional_u64(frame@, "pu"@) is None
                    ||| json_rows(frame@, "b"@) is None
                    ||| json_rows(frame@, "a"@) is None
                    ||| !rows_readable(json_rows(frame@, "b"@)->0)
                    ||| !rows_readable(json_rows(frame@, "a"@)->0)
                    ||| json_i64(frame@, "E"@) is None
                }
                &&& json_text(frame@, "e"@) == Some("aggTrade"@) ==> {
                    ||| json_text(frame@, "s"@) is None
                    ||| json_u64(frame@, "a"@) is None
                    ||| json_text(frame@, "p"@) is None || !readable(json_text(frame@, "p"@)->0)
                    ||| json_text(frame@, "q"@) is None || !readable(json_text(frame@, "q"@)->0)
                    ||| json_i64(frame@, "T"@) is None
                    ||| json_bool(frame@, "m"@) is None
                }
            },
        },
{
    proof {
        if json_text(frame@, "e"@) == Some("depthUpdate"@) {
            a_book_update_is_read_by_its_keys(frame@, market);
        }
        if json_text(frame@, "e"@) == Some("aggTrade"@) {
            a_print_is_read_by_its_keys(frame@, market);
        }
    }
    let kind = text_at(frame, "e")?;
    if text::same(kind.as_str(), "aggTrade") {
        let fields = TradeFields {
            symbol: text_at(frame, "s"),
            agg_id: u64_at(frame, "a"),
            price: text_at(frame, "p"),
            qty: text_at(frame, "q"),
            trade_time: i64_at(frame, "T"),
            buyer_is_maker: bool_at(frame, "m"),
        };
        assert(fields@ == trade_fields(frame@));
        match trade_from(fields, market) {
            Some(t) => Some(Decoded::Trade(t)),
            None => None,
        }
    } else if text::same(kind.as_str(), "depthUpdate") {
        let fields = DepthFields {
            symbol: text_at(frame, "s"),
            first_update_id: u64_at(frame, "U"),
            final_update_id: u64_at(frame, "u"),
            prev_final_update_id: optional_u64_at(frame, "pu"),
            bids: rows_at(frame, "b"),
            asks: rows_at(frame, "a"),
            event_time: i64_at(frame, "E"),
        };
        assert(fields@ == depth_fields(frame@));
        match delta_from(fields, market) {
            Some(d) => Some(Decoded::Delta(d)),
            None => None,
        }
    } else {
        None
    }
}

} // verus!

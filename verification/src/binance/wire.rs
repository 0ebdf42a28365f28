//! Binance payloads and their translation into domain types.
//!
//! The tricky parts are the aggressor-side inversion and the two different book-sequencing
//! schemes.

use crate::decimal::Decimal;
use crate::domain::ids::{ExchangeId, MarketKind, Symbol, SymbolView};
use crate::domain::instrument::Instrument;
use crate::domain::market::{
    BookDelta, BookDeltaView, BookLevel, OrderBook, OrderBookView, PublicTrade, TradeView,
};
use crate::domain::order::Side;
use crate::domain::time::Timestamp;
use crate::exchange::error::Error;
use crate::text;
use vstd::prelude::*;

verus! {

/// A price and a quantity.
#[derive(Clone, Copy, Debug)]
pub struct RawLevel(pub Decimal, pub Decimal);

/// What a list of raw levels says.
pub open spec fn as_levels(raw: Seq<RawLevel>) -> Seq<BookLevel> {
    raw.map_values(|l: RawLevel| BookLevel { price: l.0, qty: l.1 })
}

/// Levels are taken over one by one: the first number is the price, the second the quantity.
pub proof fn levels_are_taken_over(raw: Seq<RawLevel>, i: int)
    requires
        0 <= i < raw.len(),
    ensures
        as_levels(raw).len() == raw.len(),
        as_levels(raw)[i].price == raw[i].0,
        as_levels(raw)[i].qty == raw[i].1,
{
}

fn levels(raw: Vec<RawLevel>) -> (r: Vec<BookLevel>)
    ensures
        r@ == as_levels(raw@),
{
    let mut r: Vec<BookLevel> = Vec::new();
    let mut i: usize = 0;
    while i < raw.len()
        invariant
            i <= raw@.len(),
            r@ == as_levels(raw@).take(i as int),
        decreases raw@.len() - i,
    {
        r.push(BookLevel { price: raw[i].0, qty: raw[i].1 });
        i += 1;
        assert(as_levels(raw@).take(i as int) =~= as_levels(raw@).take(i - 1).push(
            as_levels(raw@)[i - 1],
        ));
    }
    assert(as_levels(raw@).take(i as int) =~= as_levels(raw@));
    r
}

/// One print of the trade stream.
#[derive(Debug)]
pub struct AggTrade {
    pub symbol: String,
    pub agg_id: u64,
    pub price: Decimal,
    pub qty: Decimal,
    /// Trade time.
    pub trade_time: i64,
    /// True when the buyer was the maker.
    pub buyer_is_maker: bool,
}

impl AggTrade {
    /// The print as a trade of the given instrument.
    ///
    /// The venue reports who made the market, a trade says who took it. If the buyer was the
    /// maker then the seller crossed the spread.
    pub fn into_domain(self, symbol: Symbol) -> (t: PublicTrade)
        ensures
            t.symbol == symbol,
            t@ == (TradeView {
                symbol: symbol@,
                price: self.price,
                qty: self.qty,
                taker_side: if self.buyer_is_maker {
                    Side::Sell
                } else {
                    Side::Buy
                },
                ts: Timestamp(self.trade_time),
                id: self.agg_id,
            }),
    {
        PublicTrade {
            symbol,
            price: self.price,
            qty: self.qty,
            taker_side: if self.buyer_is_maker {
                Side::Sell
            } else {
                Side::Buy
            },
            ts: Timestamp::from_millis(self.trade_time),
            id: self.agg_id,
        }
    }
}

/// One update of the book stream.
#[derive(Debug)]
pub struct DepthUpdate {
    pub symbol: String,
    /// First update id in this event.
    pub first_update_id: u64,
    /// Final update id in this event.
    pub final_update_id: u64,
    /// Final update id of the previous event. USD-M futures only.
    pub prev_final_update_id: Option<u64>,
    pub bids: Vec<RawLevel>,
    pub asks: Vec<RawLevel>,
    /// Event time.
    pub event_time: i64,
}

/// The id of the update before one.
///
/// USD-M futures state it outright; spot does not, but guarantees that updates follow each other
/// without a hole, so it is one less than the first id of the update.
pub open spec fn previous_id(stated: Option<u64>, first: u64) -> u64 {
    match stated {
        Some(id) => id,
        None => if first == 0 {
            0
        } else {
            (first - 1) as u64
        },
    }
}

impl DepthUpdate {
    /// The update as a delta of the given instrument.
    pub fn into_domain(self, symbol: Symbol) -> (d: BookDelta)
        ensures
            d@ == (BookDeltaView {
                symbol: symbol@,
                prev_update_id: previous_id(self.prev_final_update_id, self.first_update_id),
                last_update_id: self.final_update_id,
                bids: as_levels(self.bids@),
                asks: as_levels(self.asks@),
                ts: Timestamp(self.event_time),
            }),
    {
        let prev: u64 = match self.prev_final_update_id {
            Some(id) => id,
            None => self.first_update_id.saturating_sub(1),
        };
        BookDelta {
            symbol,
            prev_update_id: prev,
            last_update_id: self.final_update_id,
            bids: levels(self.bids),
            asks: levels(self.asks),
            ts: Timestamp::from_millis(self.event_time),
        }
    }
}

/// A book snapshot.
#[derive(Debug)]
pub struct DepthSnapshot {
    pub last_update_id: u64,
    pub bids: Vec<RawLevel>,
    pub asks: Vec<RawLevel>,
}

impl DepthSnapshot {
    /// The snapshot as a book that has not joined its delta stream yet.
    pub fn into_domain(self, symbol: Symbol, ts: Timestamp) -> (b: OrderBook)
        ensures
            b@ == (OrderBookView {
                symbol: Some(symbol@),
                bids: as_levels(self.bids@),
                asks: as_levels(self.asks@),
                last_update_id: self.last_update_id,
                synced: false,
                ts,
            }),
    {
        OrderBook {
            symbol: Some(symbol),
            bids: levels(self.bids),
            asks: levels(self.asks),
            last_update_id: self.last_update_id,
            synced: false,
            ts,
        }
    }
}

/// The instruments of a market as the venue describes them.
#[derive(Debug)]
pub struct ExchangeInfo {
    pub symbols: Vec<SymbolInfo>,
}

/// One instrument as the venue describes it.
#[derive(Debug)]
pub struct SymbolInfo {
    pub symbol: String,
    /// The state of the instrument as spot reports it.
    pub status: Option<String>,
    /// The state of the instrument as futures report it.
    pub contract_status: Option<String>,
    pub base_asset: String,
    pub quote_asset: String,
    pub margin_asset: Option<String>,
    pub filters: Vec<Filter>,
}

/// The filters that constrain an order. Everything else is passed over, so a new kind of filter
/// cannot break anything.
#[derive(Clone, Copy, Debug)]
pub enum Filter {
    Price { tick_size: Decimal },
    LotSize { step_size: Decimal, min_qty: Decimal },
    /// Spot gives it the first name; USD-M futures the second.
    MinNotional { min_notional: Option<Decimal>, notional: Option<Decimal> },
    Notional { min_notional: Option<Decimal> },
    Other,
}

/// What the filters of an instrument add up to.
pub struct Grids {
    pub tick_size: Option<Decimal>,
    /// The step and the least quantity.
    pub lot: Option<(Decimal, Decimal)>,
    pub min_notional: Option<Decimal>,
}

/// Filters taken one after the other, each replacing what an earlier one of its kind said.
pub open spec fn grids(filters: Seq<Filter>) -> Grids
    decreases filters.len(),
{
    if filters.len() == 0 {
        Grids { tick_size: None, lot: None, min_notional: None }
    } else {
        let rest = grids(filters.drop_last());
        match filters.last() {
            Filter::Price { tick_size } => Grids { tick_size: Some(tick_size), ..rest },
            Filter::LotSize { step_size, min_qty } => Grids {
                lot: Some((step_size, min_qty)),
                ..rest
            },
            Filter::MinNotional { min_notional, notional } => Grids {
                min_notional: if min_notional is Some {
                    min_notional
                } else {
                    notional
                },
                ..rest
            },
            Filter::Notional { min_notional } => Grids { min_notional, ..rest },
            Filter::Other => rest,
        }
    }
}

/// Of the filters of the price the last one counts, wherever the others stand; without one there is
/// no tick.
pub proof fn the_last_price_filter_counts(filters: Seq<Filter>, i: int)
    requires
        -1 <= i < filters.len(),
        forall|j: int| i < j < filters.len() ==> !((#[trigger] filters[j]) is Price),
        i >= 0 ==> filters[i] is Price,
    ensures
        i >= 0 ==> grids(filters).tick_size == Some(filters[i]->tick_size),
        i < 0 ==> grids(filters).tick_size is None,
    decreases filters.len(),
{
    if filters.len() > 0 {
        assert(filters[filters.len() - 1] == filters.last());
        if i < filters.len() - 1 {
            the_last_price_filter_counts(filters.drop_last(), i);
        }
    }
}

/// Of the filters of the quantity the last one counts, wherever the others stand; without one there
/// is no step.
pub proof fn the_last_lot_filter_counts(filters: Seq<Filter>, i: int)
    requires
        -1 <= i < filters.len(),
        forall|j: int| i < j < filters.len() ==> !((#[trigger] filters[j]) is LotSize),
        i >= 0 ==> filters[i] is LotSize,
    ensures
        i >= 0 ==> grids(filters).lot == Some((filters[i]->step_size, filters[i]->min_qty)),
        i < 0 ==> grids(filters).lot is None,
    decreases filters.len(),
{
    if filters.len() > 0 {
        assert(filters[filters.len() - 1] == filters.last());
        if i < filters.len() - 1 {
            the_last_lot_filter_counts(filters.drop_last(), i);
        }
    }
}

/// Of the filters of the notional, under either name, the last one counts, wherever the others
/// stand; without one there is no minimum.
pub proof fn the_last_notional_filter_counts(filters: Seq<Filter>, i: int)
    requires
        -1 <= i < filters.len(),
        forall|j: int|
            i < j < filters.len() ==> !((#[trigger] filters[j]) is MinNotional) && !(
            filters[j] is Notional),
        i >= 0 ==> filters[i] is MinNotional || filters[i] is Notional,
    ensures
        i >= 0 ==> grids(filters).min_notional == match filters[i] {
            Filter::MinNotional { min_notional: Some(d), .. } => Some(d),
            Filter::MinNotional { min_notional: None, notional } => notional,
            Filter::Notional { min_notional } => min_notional,
            _ => None,
        },
        i < 0 ==> grids(filters).min_notional is None,
    decreases filters.len(),
{
    if filters.len() > 0 {
        assert(filters[filters.len() - 1] == filters.last());
        if i < filters.len() - 1 {
            the_last_notional_filter_counts(filters.drop_last(), i);
        }
    }
}

/// An instrument trades exactly where the venue says `TRADING` of it: spot in its own word for the
/// state, futures in theirs, which counts only where spot's is missing. Margin is posted in the
/// asset that is named for it, and where none is, in the one that prices are quoted in.
pub proof fn an_instrument_is_as_described(info: SymbolInfo, market: MarketKind, i: Instrument)
    requires
        describes(info, market, i),
    ensures
        info.status matches Some(s) ==> i.trading == (s@ == "TRADING"@),
        info.status is None && info.contract_status is Some ==> i.trading == (
        info.contract_status->0@ == "TRADING"@),
        info.status is None && info.contract_status is None ==> !i.trading,
        info.margin_asset matches Some(asset) ==> i.margin_asset@ == asset@,
        info.margin_asset is None ==> i.margin_asset@ == info.quote_asset@,
        i.base@ == info.base_asset@,
        i.quote@ == info.quote_asset@,
        i.symbol.raw@ == info.symbol@,
        i.symbol.market == market,
        i.symbol.exchange == ExchangeId::Binance,
        grids(info.filters@).tick_size == Some(i.tick_size),
        grids(info.filters@).lot matches Some(l) && l.0 == i.step_size && l.1 == i.min_qty,
        grids(info.filters@).min_notional matches Some(d) ==> i.min_notional == d,
        grids(info.filters@).min_notional is None ==> i.min_notional.parts() == (0int, 0int),
{
}

/// A description is complete exactly where it has a filter of the price and one of the quantity,
/// whatever else it has or lacks.
pub proof fn a_description_needs_both_grids(info: SymbolInfo)
    ensures
        complete(info) <==> {
            &&& exists|i: int| 0 <= i < info.filters@.len() && (#[trigger] info.filters@[i]) is Price
            &&& exists|i: int|
                0 <= i < info.filters@.len() && (#[trigger] info.filters@[i]) is LotSize
        },
{
    lemma_grids_there(info.filters@);
}

proof fn lemma_grids_there(filters: Seq<Filter>)
    ensures
        grids(filters).tick_size is Some <==> exists|i: int|
            0 <= i < filters.len() && (#[trigger] filters[i]) is Price,
        grids(filters).lot is Some <==> exists|i: int|
            0 <= i < filters.len() && (#[trigger] filters[i]) is LotSize,
    decreases filters.len(),
{
    if filters.len() > 0 {
        let rest = filters.drop_last();
        lemma_grids_there(rest);
        assert(filters[filters.len() - 1] == filters.last());
        assert forall|i: int| 0 <= i < rest.len() implies #[trigger] rest[i] == filters[i] by {}
        if grids(rest).tick_size is Some {
            let i = choose|i: int| 0 <= i < rest.len() && (#[trigger] rest[i]) is Price;
            assert(filters[i] is Price);
        }
        if grids(rest).lot is Some {
            let i = choose|i: int| 0 <= i < rest.len() && (#[trigger] rest[i]) is LotSize;
            assert(filters[i] is LotSize);
        }
        if exists|i: int| 0 <= i < filters.len() && (#[trigger] filters[i]) is Price {
            let i = choose|i: int| 0 <= i < filters.len() && (#[trigger] filters[i]) is Price;
            if i < rest.len() {
                assert(rest[i] is Price);
            }
        }
        if exists|i: int| 0 <= i < filters.len() && (#[trigger] filters[i]) is LotSize {
            let i = choose|i: int| 0 <= i < filters.len() && (#[trigger] filters[i]) is LotSize;
            if i < rest.len() {
                assert(rest[i] is LotSize);
            }
        }
    }
}

/// Every instrument with both grids is listed, in the venue's order, and no other: as many as there
/// are, each as it is described.
pub proof fn every_complete_instrument_is_listed(
    infos: Seq<SymbolInfo>,
    market: MarketKind,
    out: Seq<Instrument>,
)
    requires
        lists(infos, market, out),
    ensures
        out.len() == infos.filter(|info: SymbolInfo| complete(info)).len(),
        forall|k: int|
            0 <= k < out.len() ==> describes(
                infos.filter(|info: SymbolInfo| complete(info))[k],
                market,
                #[trigger] out[k],
            ),
    decreases infos.len(),
{
    reveal(Seq::filter);
    if infos.len() > 0 {
        let rest = infos.drop_last();
        let kept = infos.filter(|info: SymbolInfo| complete(info));
        let before = rest.filter(|info: SymbolInfo| complete(info));
        if complete(infos.last()) {
            every_complete_instrument_is_listed(rest, market, out.drop_last());
            assert(kept =~= before.push(infos.last()));
            assert forall|k: int| 0 <= k < out.len() implies describes(
                kept[k],
                market,
                #[trigger] out[k],
            ) by {
                if k < out.len() - 1 {
                    assert(out.drop_last()[k] == out[k]);
                }
            }
        } else {
            every_complete_instrument_is_listed(rest, market, out);
            assert(kept =~= before);
        }
    }
}

/// A decimal, zero where there is none.
pub open spec fn or_zero(d: Option<Decimal>, r: Decimal) -> bool {
    match d {
        Some(v) => r == v,
        None => r.parts() == (0int, 0int),
    }
}

/// Whether an instrument is what its description says.
pub open spec fn describes(info: SymbolInfo, market: MarketKind, i: Instrument) -> bool {
    let g = grids(info.filters@);
    &&& g.tick_size == Some(i.tick_size)
    &&& g.lot == Some((i.step_size, i.min_qty))
    &&& or_zero(g.min_notional, i.min_notional)
    &&& i.symbol@ == (SymbolView { exchange: ExchangeId::Binance, market, raw: info.symbol@ })
    &&& i.base@ == info.base_asset@
    &&& i.quote@ == info.quote_asset@
    &&& i.margin_asset@ == match info.margin_asset {
        Some(asset) => asset@,
        None => info.quote_asset@,
    }
    &&& i.trading == info.trades()
}

/// Whether a description has both grids.
pub open spec fn complete(info: SymbolInfo) -> bool {
    grids(info.filters@).tick_size is Some && grids(info.filters@).lot is Some
}

impl SymbolInfo {
    /// Whether the instrument trades: spot's word for its state, else the futures' word.
    pub open spec fn trades(&self) -> bool {
        match self.status {
            Some(s) => s@ == "TRADING"@,
            None => self.contract_status matches Some(s) && s@ == "TRADING"@,
        }
    }

    /// What is said of an instrument that lacks a filter.
    pub open spec fn lacks(&self, what: Seq<char>) -> Seq<char> {
        self.symbol@ + " has no "@ + what + " filter"@
    }

    /// The instrument with its grids. One without a tick or a step is an error rather than a
    /// silent default; one that is halted is marked as not trading rather than dropped.
    pub fn into_domain(self, exchange_market: MarketKind) -> (r: Result<Instrument, Error>)
        ensures
            r is Ok == complete(self),
            match r {
                Ok(i) => describes(self, exchange_market, i),
                Err(e) => e matches Error::Malformed(why) && why@ == self.lacks(
                    if grids(self.filters@).tick_size is None {
                        "PRICE_FILTER"@
                    } else {
                        "LOT_SIZE"@
                    },
                ),
            },
            grids(self.filters@).tick_size is None ==> (r matches Err(Error::Malformed(why)) && why@
                == self.symbol@ + " has no "@ + "PRICE_FILTER"@ + " filter"@),
            grids(self.filters@).tick_size is Some && grids(self.filters@).lot is None ==> (
            r matches Err(Error::Malformed(why)) && why@ == self.symbol@ + " has no "@
                + "LOT_SIZE"@ + " filter"@),
    {
        self.instrument(exchange_market)
    }

    fn instrument(&self, exchange_market: MarketKind) -> (r: Result<Instrument, Error>)
        ensures
            r is Ok == complete(*self),
            match r {
                Ok(i) => describes(*self, exchange_market, i),
                Err(e) => e matches Error::Malformed(why) && why@ == self.lacks(
                    if grids(self.filters@).tick_size is None {
                        "PRICE_FILTER"@
                    } else {
                        "LOT_SIZE"@
                    },
                ),
            },
    {
        let mut tick_size: Option<Decimal> = None;
        let mut lot: Option<(Decimal, Decimal)> = None;
        let mut min_notional: Option<Decimal> = None;
        let mut i: usize = 0;
        assert(self.filters@.take(0) =~= Seq::<Filter>::empty());
        while i < self.filters.len()
            invariant
                i <= self.filters@.len(),
                grids(self.filters@.take(i as int)) == (Grids { tick_size, lot, min_notional }),
            decreases self.filters@.len() - i,
        {
            assert(self.filters@.take(i + 1).drop_last() =~= self.filters@.take(i as int));
            match self.filters[i] {
                Filter::Price { tick_size: t } => {
                    tick_size = Some(t);
                },
                Filter::LotSize { step_size, min_qty } => {
                    lot = Some((step_size, min_qty));
                },
                Filter::MinNotional { min_notional: a, notional: b } => {
                    min_notional = if a.is_some() {
                        a
                    } else {
                        b
                    };
                },
                Filter::Notional { min_notional: a } => {
                    min_notional = a;
                },
                Filter::Other => {},
            }
            i += 1;
        }
        assert(self.filters@.take(i as int) =~= self.filters@);
        let tick_size = match tick_size {
            Some(t) => t,
            None => {
                return Err(Error::Malformed(no_filter(self.symbol.as_str(), "PRICE_FILTER")));
            },
        };
        let (step_size, min_qty) = match lot {
            Some(l) => l,
            None => {
                return Err(Error::Malformed(no_filter(self.symbol.as_str(), "LOT_SIZE")));
            },
        };
        let trading = match &self.status {
            Some(s) => text::same(s.as_str(), "TRADING"),
            None => match &self.contract_status {
                Some(s) => text::same(s.as_str(), "TRADING"),
                None => false,
            },
        };
        let margin_asset = match &self.margin_asset {
            Some(asset) => asset.clone(),
            None => self.quote_asset.clone(),
        };
        Ok(
            Instrument {
                symbol: Symbol::new(ExchangeId::Binance, exchange_market, self.symbol.as_str()),
                base: self.base_asset.clone(),
                quote: self.quote_asset.clone(),
                margin_asset,
                tick_size,
                step_size,
                min_qty,
                min_notional: match min_notional {
                    Some(d) => d,
                    None => Decimal::zero(),
                },
                trading,
            },
        )
    }
}

/// Whether a list holds the instruments of the complete descriptions, in their order.
pub open spec fn lists(infos: Seq<SymbolInfo>, market: MarketKind, out: Seq<Instrument>) -> bool
    decreases infos.len(),
{
    if infos.len() == 0 {
        out.len() == 0
    } else if complete(infos.last()) {
        &&& out.len() > 0
        &&& describes(infos.last(), market, out.last())
        &&& lists(infos.drop_last(), market, out.drop_last())
    } else {
        lists(infos.drop_last(), market, out)
    }
}

impl ExchangeInfo {
    /// The instruments of a market. One that cannot be described does not cost the whole list:
    /// the venue carries oddities whose filters do not fit the normal shape.
    pub fn into_instruments(self, market: MarketKind) -> (r: Vec<Instrument>)
        ensures
            lists(self.symbols@, market, r@),
    {
        let mut r: Vec<Instrument> = Vec::new();
        let mut i: usize = 0;
        while i < self.symbols.len()
            invariant
                i <= self.symbols@.len(),
                lists(self.symbols@.take(i as int), market, r@),
            decreases self.symbols@.len() - i,
        {
            assert(self.symbols@.take(i + 1).drop_last() =~= self.symbols@.take(i as int));
            if let Ok(instrument) = self.symbols[i].instrument(market) {
                let ghost before = r@;
                r.push(instrument);
                assert(r@.drop_last() =~= before);
            }
            i += 1;
        }
        assert(self.symbols@.take(i as int) =~= self.symbols@);
        r
    }
}

fn no_filter(symbol: &str, what: &str) -> (r: String)
    ensures
        r@ == symbol@ + " has no "@ + what@ + " filter"@,
{
    let mut r = symbol.to_owned();
    r.append(" has no ");
    r.append(what);
    r.append(" filter");
    r
}

} // verus!

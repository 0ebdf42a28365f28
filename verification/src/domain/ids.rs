//! Venue, market and instrument identity.

use vstd::prelude::*;

verus! {

/// A trading venue there is a connector for.
#[derive(Clone, Copy, Debug, PartialEq, Eq, PartialOrd, Ord, Hash, Structural)]
pub enum ExchangeId {
    Binance,
    Bybit,
}

impl ExchangeId {
    pub open spec fn text(self) -> Seq<char> {
        match self {
            ExchangeId::Binance => "binance"@,
            ExchangeId::Bybit => "bybit"@,
        }
    }

    pub fn as_str(self) -> (r: &'static str)
        ensures
            r@ == self.text(),
    {
        match self {
            ExchangeId::Binance => "binance",
            ExchangeId::Bybit => "bybit",
        }
    }
}

/// Which market of a venue an instrument belongs to.
///
/// The account model differs per kind: spot has balances only, perpetuals add positions,
/// leverage and a margin mode.
#[derive(Clone, Copy, Debug, PartialEq, Eq, PartialOrd, Ord, Hash, Structural)]
pub enum MarketKind {
    /// Spot market. No positions, no leverage.
    Spot,
    /// USDT/USDC-margined perpetual. Binance calls this USD-M.
    LinearPerp,
    /// Coin-margined perpetual. Binance calls this COIN-M.
    InversePerp,
}

impl MarketKind {
    pub open spec fn text(self) -> Seq<char> {
        match self {
            MarketKind::Spot => "spot"@,
            MarketKind::LinearPerp => "linear_perp"@,
            MarketKind::InversePerp => "inverse_perp"@,
        }
    }

    /// Whether the market carries positions, leverage and a margin mode.
    pub fn has_positions(self) -> (r: bool)
        ensures
            r == (self != MarketKind::Spot),
    {
        match self {
            MarketKind::Spot => false,
            MarketKind::LinearPerp => true,
            MarketKind::InversePerp => true,
        }
    }

    pub fn as_str(self) -> (r: &'static str)
        ensures
            r@ == self.text(),
    {
        match self {
            MarketKind::Spot => "spot",
            MarketKind::LinearPerp => "linear_perp",
            MarketKind::InversePerp => "inverse_perp",
        }
    }
}

/// A fully qualified instrument: venue, market and the venue's own ticker.
///
/// `raw` is kept exactly as the venue spells it, because it is what goes back out on the wire.
#[derive(Debug, PartialEq, Eq, PartialOrd, Ord, Hash)]
pub struct Symbol {
    pub exchange: ExchangeId,
    pub market: MarketKind,
    pub raw: String,
}

/// What a [`Symbol`] says.
pub struct SymbolView {
    pub exchange: ExchangeId,
    pub market: MarketKind,
    pub raw: Seq<char>,
}

impl View for Symbol {
    type V = SymbolView;

    open spec fn view(&self) -> SymbolView {
        SymbolView { exchange: self.exchange, market: self.market, raw: self.raw@ }
    }
}

impl SymbolView {
    /// Venue, market and ticker, with colons between them.
    pub open spec fn key(self) -> Seq<char> {
        self.exchange.text() + ":"@ + self.market.text() + ":"@ + self.raw
    }
}

impl Clone for Symbol {
    fn clone(&self) -> (r: Self)
        ensures
            r == *self,
    {
        Symbol { exchange: self.exchange, market: self.market, raw: self.raw.clone() }
    }
}

impl Symbol {
    pub fn new(exchange: ExchangeId, market: MarketKind, raw: &str) -> (s: Symbol)
        ensures
            s@ == (SymbolView { exchange, market, raw: raw@ }),
    {
        Symbol { exchange, market, raw: raw.to_owned() }
    }

    /// Stable key for maps, logs and the wire protocol: `binance:linear_perp:BTCUSDT`.
    pub fn key(&self) -> (r: String)
        ensures
            r@ == self@.key(),
    {
        let mut r = String::new();
        r.append(self.exchange.as_str());
        r.append(":");
        r.append(self.market.as_str());
        r.append(":");
        r.append(self.raw.as_str());
        assert(r@ =~= self@.key());
        r
    }

    pub fn to_string(&self) -> (r: String)
        ensures
            r@ == self@.key(),
    {
        self.key()
    }

    /// Whether this names the same instrument.
    pub fn same_as(&self, other: &Symbol) -> (r: bool)
        ensures
            r == (self@ == other@),
    {
        self.exchange == other.exchange && self.market == other.market && self.raw == other.raw
    }
}

/// A key is the venue, the market and the ticker as the venue spells it, with colons between them.
pub proof fn a_key_spells_the_instrument_out(symbol: SymbolView)
    ensures
        symbol.key() == (match symbol.exchange {
            ExchangeId::Binance => "binance:"@,
            ExchangeId::Bybit => "bybit:"@,
        }) + (match symbol.market {
            MarketKind::Spot => "spot:"@,
            MarketKind::LinearPerp => "linear_perp:"@,
            MarketKind::InversePerp => "inverse_perp:"@,
        }) + symbol.raw,
{
    reveal_strlit("binance");
    reveal_strlit("binance:");
    reveal_strlit("bybit");
    reveal_strlit("bybit:");
    reveal_strlit("spot");
    reveal_strlit("spot:");
    reveal_strlit("linear_perp");
    reveal_strlit("linear_perp:");
    reveal_strlit("inverse_perp");
    reveal_strlit("inverse_perp:");
    reveal_strlit(":");
    let venue = match symbol.exchange {
        ExchangeId::Binance => "binance:"@,
        ExchangeId::Bybit => "bybit:"@,
    };
    let market = match symbol.market {
        MarketKind::Spot => "spot:"@,
        MarketKind::LinearPerp => "linear_perp:"@,
        MarketKind::InversePerp => "inverse_perp:"@,
    };
    assert(symbol.exchange.text() + ":"@ =~= venue);
    assert(symbol.market.text() + ":"@ =~= market);
    assert(symbol.key() =~= venue + market + symbol.raw);
}

/// Two instruments never share a key: the same ticker on two markets, or on two venues, is
/// told apart by it.
pub proof fn key_names_one_instrument(a: SymbolView, b: SymbolView)
    requires
        a.key() == b.key(),
    ensures
        a == b,
{
    reveal_strlit("binance");
    reveal_strlit("bybit");
    reveal_strlit("spot");
    reveal_strlit("linear_perp");
    reveal_strlit("inverse_perp");
    reveal_strlit(":");
    assert(a.key()[1] == a.exchange.text()[1]);
    assert(b.key()[1] == b.exchange.text()[1]);
    assert(a.exchange == b.exchange);
    let n = a.exchange.text().len() as int + 1;
    assert(a.key()[n] == a.market.text()[0]);
    assert(b.key()[n] == b.market.text()[0]);
    assert(a.market == b.market);
    let m = n + a.market.text().len() as int + 1;
    assert(a.raw =~= a.key().skip(m));
    assert(b.raw =~= b.key().skip(m));
}

} // verus!

//! What a venue can actually do.
//!
//! Venues differ in ways that matter. A connector faced with a call the venue cannot serve can
//! emulate it or say no, and only the second is honest: a cancel-replace dressed up as an amend
//! loses queue position and turns one atomic operation into two that can each fail separately.
//! So a connector returns [`Error::Unsupported`], and anything that wants the emulated behaviour
//! builds it deliberately.
//!
//! A bitmask, because it is queried per order and because it crosses the wire to the terminal,
//! so that a button can be greyed out rather than producing an error when pressed.

use crate::domain::ids::MarketKind;
use crate::exchange::error::Error;
use vstd::prelude::*;

verus! {

/// What a venue offers on one market.
///
/// Absent means unsupported. A connector that forgets to declare a capability loses it, rather
/// than claiming something it cannot do.
#[derive(Clone, Copy, Debug, PartialEq, Eq, Hash, Structural)]
pub struct Caps(pub u64);

impl Default for Caps {
    fn default() -> (r: Self)
        ensures
            r == Caps(0),
    {
        Caps(0)
    }
}

/// The bits of the capabilities.
impl Caps {
    /// A plain limit order.
    pub const LIMIT: u64 = 0x1;

    /// A market order.
    pub const MARKET: u64 = 0x2;

    /// Stop-market held at the venue.
    pub const STOP_MARKET: u64 = 0x4;

    /// Stop-limit held at the venue.
    pub const STOP_LIMIT: u64 = 0x8;

    /// Take-profit held at the venue.
    pub const TAKE_PROFIT: u64 = 0x10;

    /// Trailing stop held at the venue, following the market by itself.
    pub const TRAILING_STOP: u64 = 0x20;

    /// Post-only: refuse rather than cross the spread.
    pub const POST_ONLY: u64 = 0x40;

    /// Immediate-or-cancel.
    pub const IOC: u64 = 0x80;

    /// Fill-or-kill.
    pub const FOK: u64 = 0x100;

    /// The order may only reduce an existing position.
    pub const REDUCE_ONLY: u64 = 0x200;

    /// Change price or quantity without losing the order. Without it an amend is a cancel and a
    /// replace, with everything that implies.
    pub const AMEND_IN_PLACE: u64 = 0x400;

    /// Cancel everything on a symbol in one call rather than one at a time.
    pub const CANCEL_ALL: u64 = 0x800;

    /// The venue accepts a client's own identifier, so an order can be found after a reconnect.
    pub const CLIENT_ORDER_ID: u64 = 0x1000;

    /// Several orders in one request.
    pub const BATCH_ORDERS: u64 = 0x2000;

    /// Long and short at once on the same instrument.
    pub const HEDGE_MODE: u64 = 0x4000;

    /// Per-position margin as well as account-wide.
    pub const ISOLATED_MARGIN: u64 = 0x8000;

    /// Leverage can be set from the API rather than only in a web interface.
    pub const SET_LEVERAGE: u64 = 0x10000;

    /// The venue reports a liquidation price, so it need not be guessed at.
    pub const LIQUIDATION_PRICE: u64 = 0x20000;

    /// Funding is charged and reported.
    pub const FUNDING: u64 = 0x40000;

    /// Incremental book updates, as opposed to snapshots only.
    pub const BOOK_DELTAS: u64 = 0x80000;

    /// A book snapshot can be requested at a chosen depth.
    pub const BOOK_DEPTH_CHOICE: u64 = 0x100000;

    /// Liquidations are published.
    pub const LIQUIDATION_FEED: u64 = 0x200000;

    /// Historical candles can be fetched, not merely streamed.
    pub const CANDLE_HISTORY: u64 = 0x400000;

    /// Historical trades can be fetched.
    pub const TRADE_HISTORY: u64 = 0x800000;

    /// A mark price distinct from the last traded price.
    pub const MARK_PRICE: u64 = 0x1000000;

    /// Balances can be moved between the venue's own wallets.
    pub const WALLET_TRANSFER: u64 = 0x2000000;

    /// A private stream of account updates, rather than polling.
    pub const USER_STREAM: u64 = 0x4000000;

    /// The venue reports when the API key expires.
    pub const KEY_EXPIRY: u64 = 0x8000000;

    /// A test environment exists.
    pub const TESTNET: u64 = 0x10000000;

    pub const NONE: u64 = 0;
}

/// Every capability there is a name for, with its bit.
pub open spec fn catalogue() -> Seq<(u64, Seq<char>)> {
    seq![
        (Caps::LIMIT, "limit"@),
        (Caps::MARKET, "market"@),
        (Caps::STOP_MARKET, "stop_market"@),
        (Caps::STOP_LIMIT, "stop_limit"@),
        (Caps::TAKE_PROFIT, "take_profit"@),
        (Caps::TRAILING_STOP, "trailing_stop"@),
        (Caps::POST_ONLY, "post_only"@),
        (Caps::IOC, "ioc"@),
        (Caps::FOK, "fok"@),
        (Caps::REDUCE_ONLY, "reduce_only"@),
        (Caps::AMEND_IN_PLACE, "amend_in_place"@),
        (Caps::CANCEL_ALL, "cancel_all"@),
        (Caps::CLIENT_ORDER_ID, "client_order_id"@),
        (Caps::BATCH_ORDERS, "batch_orders"@),
        (Caps::HEDGE_MODE, "hedge_mode"@),
        (Caps::ISOLATED_MARGIN, "isolated_margin"@),
        (Caps::SET_LEVERAGE, "set_leverage"@),
        (Caps::LIQUIDATION_PRICE, "liquidation_price"@),
        (Caps::FUNDING, "funding"@),
        (Caps::BOOK_DELTAS, "book_deltas"@),
        (Caps::BOOK_DEPTH_CHOICE, "book_depth_choice"@),
        (Caps::LIQUIDATION_FEED, "liquidation_feed"@),
        (Caps::CANDLE_HISTORY, "candle_history"@),
        (Caps::TRADE_HISTORY, "trade_history"@),
        (Caps::MARK_PRICE, "mark_price"@),
        (Caps::WALLET_TRANSFER, "wallet_transfer"@),
        (Caps::USER_STREAM, "user_stream"@),
        (Caps::KEY_EXPIRY, "key_expiry"@),
        (Caps::TESTNET, "testnet"@),
    ]
}

/// The names of the capabilities among the first `n` of the catalogue that a set holds.
pub open spec fn named(caps: Caps, n: int) -> Seq<Seq<char>>
    decreases n,
{
    if n <= 0 {
        Seq::empty()
    } else {
        let rest = named(caps, n - 1);
        let (bit, name) = catalogue()[n - 1];
        if caps.holds(Caps(bit)) {
            rest.push(name)
        } else {
            rest
        }
    }
}

/// Names with a bar between each two.
pub open spec fn barred(names: Seq<Seq<char>>) -> Seq<char>
    decreases names.len(),
{
    if names.len() == 0 {
        Seq::empty()
    } else if names.len() == 1 {
        names[0]
    } else {
        barred(names.drop_last()) + " | "@ + names.last()
    }
}

fn listed() -> (r: Vec<(u64, &'static str)>)
    ensures
        r@.len() == catalogue().len(),
        forall|i: int|
            0 <= i < r@.len() ==> (#[trigger] r@[i]).0 == catalogue()[i].0 && r@[i].1@
                == catalogue()[i].1,
{
    let mut r: Vec<(u64, &'static str)> = Vec::new();
    r.push((Caps::LIMIT, "limit"));
    r.push((Caps::MARKET, "market"));
    r.push((Caps::STOP_MARKET, "stop_market"));
    r.push((Caps::STOP_LIMIT, "stop_limit"));
    r.push((Caps::TAKE_PROFIT, "take_profit"));
    r.push((Caps::TRAILING_STOP, "trailing_stop"));
    r.push((Caps::POST_ONLY, "post_only"));
    r.push((Caps::IOC, "ioc"));
    r.push((Caps::FOK, "fok"));
    r.push((Caps::REDUCE_ONLY, "reduce_only"));
    r.push((Caps::AMEND_IN_PLACE, "amend_in_place"));
    r.push((Caps::CANCEL_ALL, "cancel_all"));
    r.push((Caps::CLIENT_ORDER_ID, "client_order_id"));
    r.push((Caps::BATCH_ORDERS, "batch_orders"));
    r.push((Caps::HEDGE_MODE, "hedge_mode"));
    r.push((Caps::ISOLATED_MARGIN, "isolated_margin"));
    r.push((Caps::SET_LEVERAGE, "set_leverage"));
    r.push((Caps::LIQUIDATION_PRICE, "liquidation_price"));
    r.push((Caps::FUNDING, "funding"));
    r.push((Caps::BOOK_DELTAS, "book_deltas"));
    r.push((Caps::BOOK_DEPTH_CHOICE, "book_depth_choice"));
    r.push((Caps::LIQUIDATION_FEED, "liquidation_feed"));
    r.push((Caps::CANDLE_HISTORY, "candle_history"));
    r.push((Caps::TRADE_HISTORY, "trade_history"));
    r.push((Caps::MARK_PRICE, "mark_price"));
    r.push((Caps::WALLET_TRANSFER, "wallet_transfer"));
    r.push((Caps::USER_STREAM, "user_stream"));
    r.push((Caps::KEY_EXPIRY, "key_expiry"));
    r.push((Caps::TESTNET, "testnet"));
    r
}

impl Caps {
    /// Whether this has all the bits of the other.
    pub open spec fn holds(self, other: Caps) -> bool {
        self.0 & other.0 == other.0
    }

    pub fn contains(self, other: Caps) -> (r: bool)
        ensures
            r == self.holds(other),
    {
        self.0 & other.0 == other.0
    }

    pub fn union(self, other: Caps) -> (r: Caps)
        ensures
            r == Caps(self.0 | other.0),
    {
        Caps(self.0 | other.0)
    }

    pub fn without(self, other: Caps) -> (r: Caps)
        ensures
            r == Caps(self.0 & !other.0),
    {
        Caps(self.0 & !other.0)
    }

    pub fn is_empty(self) -> (r: bool)
        ensures
            r == (self == Caps(0)),
    {
        self.0 == 0
    }

    /// Guard for a connector: `Unsupported` unless the capability is present.
    pub fn require(self, needed: Caps, what: &'static str, market: MarketKind) -> (r: Result<
        (),
        Error,
    >)
        ensures
            r == if self.holds(needed) {
                Ok(())
            } else {
                Err(Error::Unsupported { what, market })
            },
    {
        if self.contains(needed) {
            Ok(())
        } else {
            Err(Error::Unsupported { what, market })
        }
    }

    /// Names of the flags present, for logs, diagnostics and the terminal's own display. A bit
    /// that has no name is passed over.
    pub fn names(self) -> (r: Vec<&'static str>)
        ensures
            r@.map_values(|s: &'static str| s@) == named(self, catalogue().len() as int),
    {
        let all = listed();
        let mut r: Vec<&'static str> = Vec::new();
        let mut i: usize = 0;
        assert(r@.map_values(|s: &'static str| s@) =~= named(self, 0));
        while i < all.len()
            invariant
                i <= all@.len(),
                all@.len() == catalogue().len(),
                forall|j: int|
                    0 <= j < all@.len() ==> (#[trigger] all@[j]).0 == catalogue()[j].0
                        && all@[j].1@ == catalogue()[j].1,
                r@.map_values(|s: &'static str| s@) == named(self, i as int),
            decreases all@.len() - i,
        {
            let (bit, name) = all[i];
            assert(all@[i as int].0 == catalogue()[i as int].0);
            let ghost before = r@;
            if self.contains(Caps(bit)) {
                r.push(name);
                assert(r@.map_values(|s: &'static str| s@) =~= before.map_values(
                    |s: &'static str| s@,
                ).push(name@));
            }
            i += 1;
        }
        r
    }

    /// Every flag there is a name for.
    pub fn all_known() -> (r: Caps)
        ensures
            r == Caps(0x1fff_ffff),
    {
        let bits: u64 = Caps::LIMIT
            | Caps::MARKET
            | Caps::STOP_MARKET
            | Caps::STOP_LIMIT
            | Caps::TAKE_PROFIT
            | Caps::TRAILING_STOP
            | Caps::POST_ONLY
            | Caps::IOC
            | Caps::FOK
            | Caps::REDUCE_ONLY
            | Caps::AMEND_IN_PLACE
            | Caps::CANCEL_ALL
            | Caps::CLIENT_ORDER_ID
            | Caps::BATCH_ORDERS
            | Caps::HEDGE_MODE
            | Caps::ISOLATED_MARGIN
            | Caps::SET_LEVERAGE
            | Caps::LIQUIDATION_PRICE
            | Caps::FUNDING
            | Caps::BOOK_DELTAS
            | Caps::BOOK_DEPTH_CHOICE
            | Caps::LIQUIDATION_FEED
            | Caps::CANDLE_HISTORY
            | Caps::TRADE_HISTORY
            | Caps::MARK_PRICE
            | Caps::WALLET_TRANSFER
            | Caps::USER_STREAM
            | Caps::KEY_EXPIRY
            | Caps::TESTNET;
        assert(0x1u64 | 0x2u64 | 0x4u64 | 0x8u64 | 0x10u64 | 0x20u64 | 0x40u64 | 0x80u64 | 0x100u64 | 0x200u64 | 0x400u64 | 0x800u64 | 0x1000u64 | 0x2000u64 | 0x4000u64 | 0x8000u64 | 0x10000u64 | 0x20000u64 | 0x40000u64 | 0x80000u64 | 0x100000u64 | 0x200000u64 | 0x400000u64 | 0x800000u64 | 0x1000000u64 | 0x2000000u64 | 0x4000000u64 | 0x8000000u64 | 0x10000000u64 == 0x1fff_ffffu64) by (bit_vector);
        Caps(bits)
    }

    /// The names present with bars between them, or `none`.
    pub fn to_string(&self) -> (r: String)
        ensures
            r@ == if *self == Caps(0) {
                "none"@
            } else {
                barred(named(*self, catalogue().len() as int))
            },
    {
        if self.is_empty() {
            return "none".to_owned();
        }
        let names = self.names();
        let ghost views = names@.map_values(|s: &'static str| s@);
        let mut r = String::new();
        let mut i: usize = 0;
        assert(r@ =~= barred(views.take(0)));
        while i < names.len()
            invariant
                i <= names@.len(),
                views == names@.map_values(|s: &'static str| s@),
                r@ == barred(views.take(i as int)),
            decreases names@.len() - i,
        {
            if i > 0 {
                r.append(" | ");
            }
            r.append(names[i]);
            i += 1;
            proof {
                let t = views.take(i as int);
                assert(t.drop_last() =~= views.take(i - 1));
                assert(t.last() == names@[i - 1]@);
                if i == 1 {
                    assert(r@ =~= t[0]);
                }
            }
        }
        assert(views.take(i as int) =~= views);
        r
    }
}

/// Binance spot, from its documented behaviour.
///
/// It has no amend endpoint, so an amend is refused rather than turned into a cancel and a
/// replace.
pub const BINANCE_SPOT: u64 = Caps::LIMIT | Caps::MARKET | Caps::STOP_LIMIT | Caps::POST_ONLY
    | Caps::IOC | Caps::FOK | Caps::CANCEL_ALL | Caps::CLIENT_ORDER_ID | Caps::BOOK_DELTAS
    | Caps::BOOK_DEPTH_CHOICE | Caps::CANDLE_HISTORY | Caps::TRADE_HISTORY | Caps::WALLET_TRANSFER
    | Caps::USER_STREAM | Caps::TESTNET;

/// Binance USD-margined perpetuals.
pub const BINANCE_USDM: u64 = BINANCE_SPOT | Caps::AMEND_IN_PLACE | Caps::STOP_MARKET
    | Caps::TAKE_PROFIT | Caps::TRAILING_STOP | Caps::REDUCE_ONLY | Caps::BATCH_ORDERS
    | Caps::HEDGE_MODE | Caps::ISOLATED_MARGIN | Caps::SET_LEVERAGE | Caps::LIQUIDATION_PRICE
    | Caps::FUNDING | Caps::LIQUIDATION_FEED | Caps::MARK_PRICE;

/// No two capabilities share a bit: declaring one never grants another.
pub proof fn no_flag_grants_another(i: int, j: int)
    requires
        0 <= i < catalogue().len(),
        0 <= j < catalogue().len(),
        i != j,
    ensures
        !Caps(catalogue()[i].0).holds(Caps(catalogue()[j].0)),
{
    lemma_flag_is_a_power(i);
    lemma_flag_is_a_power(j);
    let a = i as u64;
    let b = j as u64;
    assert((1u64 << a) & (1u64 << b) != 1u64 << b) by (bit_vector)
        requires
            a < 64,
            b < 64,
            a != b,
    ;
}

proof fn lemma_flag_is_a_power(i: int)
    requires
        0 <= i < 29,
    ensures
        catalogue().len() == 29,
        catalogue()[i].0 == 1u64 << (i as u64),
{
    assert(1u64 << 0u64 == 0x1u64
        && 1u64 << 1u64 == 0x2u64
        && 1u64 << 2u64 == 0x4u64
        && 1u64 << 3u64 == 0x8u64
        && 1u64 << 4u64 == 0x10u64
        && 1u64 << 5u64 == 0x20u64
        && 1u64 << 6u64 == 0x40u64
        && 1u64 << 7u64 == 0x80u64
        && 1u64 << 8u64 == 0x100u64
        && 1u64 << 9u64 == 0x200u64
        && 1u64 << 10u64 == 0x400u64
        && 1u64 << 11u64 == 0x800u64
        && 1u64 << 12u64 == 0x1000u64
        && 1u64 << 13u64 == 0x2000u64
        && 1u64 << 14u64 == 0x4000u64
        && 1u64 << 15u64 == 0x8000u64
        && 1u64 << 16u64 == 0x10000u64
        && 1u64 << 17u64 == 0x20000u64
        && 1u64 << 18u64 == 0x40000u64
        && 1u64 << 19u64 == 0x80000u64
        && 1u64 << 20u64 == 0x100000u64
        && 1u64 << 21u64 == 0x200000u64
        && 1u64 << 22u64 == 0x400000u64
        && 1u64 << 23u64 == 0x800000u64
        && 1u64 << 24u64 == 0x1000000u64
        && 1u64 << 25u64 == 0x2000000u64
        && 1u64 << 26u64 == 0x4000000u64
        && 1u64 << 27u64 == 0x8000000u64
        && 1u64 << 28u64 == 0x10000000u64) by (bit_vector);
}

/// The names of a set are those of the capabilities that it holds: every one of them, and no other.
pub proof fn names_are_of_what_is_held(caps: Caps, n: int)
    requires
        0 <= n <= catalogue().len(),
    ensures
        forall|i: int|
            0 <= i < n && caps.holds(Caps((#[trigger] catalogue()[i]).0)) ==> named(
                caps,
                n,
            ).contains(catalogue()[i].1),
        forall|k: int|
            0 <= k < named(caps, n).len() ==> exists|i: int|
                0 <= i < n && (#[trigger] catalogue()[i]).1 == #[trigger] named(caps, n)[k]
                    && caps.holds(Caps(catalogue()[i].0)),
    decreases n,
{
    if n > 0 {
        names_are_of_what_is_held(caps, n - 1);
        let all = named(caps, n);
        let rest = named(caps, n - 1);
        assert forall|i: int|
            0 <= i < n && caps.holds(Caps((#[trigger] catalogue()[i]).0)) implies all.contains(
            catalogue()[i].1,
        ) by {
            if i < n - 1 {
                let k = rest.index_of(catalogue()[i].1);
                assert(all[k] == catalogue()[i].1);
            } else {
                assert(all[all.len() - 1] == catalogue()[i].1);
            }
        }
        assert forall|k: int| 0 <= k < all.len() implies exists|i: int|
            0 <= i < n && (#[trigger] catalogue()[i]).1 == #[trigger] all[k] && caps.holds(
                Caps(catalogue()[i].0),
            ) by {
            if k < rest.len() {
                assert(all[k] == rest[k]);
            } else {
                assert(catalogue()[n - 1].1 == all[k]);
            }
        }
    }
}

/// Spot takes limit and market orders and carries no positions: nothing that goes with them is
/// offered, and neither is amending an order in place.
pub proof fn spot_offers_no_positions()
    ensures
        Caps(BINANCE_SPOT).holds(Caps(Caps::LIMIT)),
        Caps(BINANCE_SPOT).holds(Caps(Caps::MARKET)),
        Caps(BINANCE_SPOT).holds(Caps(Caps::CLIENT_ORDER_ID)),
        Caps(BINANCE_SPOT).holds(Caps(Caps::BOOK_DELTAS)),
        !Caps(BINANCE_SPOT).holds(Caps(Caps::AMEND_IN_PLACE)),
        !Caps(BINANCE_SPOT).holds(Caps(Caps::REDUCE_ONLY)),
        !Caps(BINANCE_SPOT).holds(Caps(Caps::HEDGE_MODE)),
        !Caps(BINANCE_SPOT).holds(Caps(Caps::ISOLATED_MARGIN)),
        !Caps(BINANCE_SPOT).holds(Caps(Caps::SET_LEVERAGE)),
        !Caps(BINANCE_SPOT).holds(Caps(Caps::LIQUIDATION_PRICE)),
        !Caps(BINANCE_SPOT).holds(Caps(Caps::FUNDING)),
        !Caps(BINANCE_SPOT).holds(Caps(Caps::TRAILING_STOP)),
        Caps(BINANCE_USDM).holds(Caps(Caps::AMEND_IN_PLACE)),
        Caps(BINANCE_USDM).holds(Caps(Caps::REDUCE_ONLY)),
        Caps(BINANCE_USDM).holds(Caps(Caps::FUNDING)),
        !Caps(BINANCE_USDM).holds(Caps(Caps::KEY_EXPIRY)),
        !Caps(BINANCE_SPOT).holds(Caps(Caps::KEY_EXPIRY)),
{
    assert(BINANCE_SPOT & Caps::LIMIT == Caps::LIMIT && BINANCE_SPOT & Caps::MARKET == Caps::MARKET
        && BINANCE_SPOT & Caps::CLIENT_ORDER_ID == Caps::CLIENT_ORDER_ID && BINANCE_SPOT
        & Caps::BOOK_DELTAS == Caps::BOOK_DELTAS) by (bit_vector);
    assert(BINANCE_SPOT & Caps::AMEND_IN_PLACE == 0 && BINANCE_SPOT & Caps::REDUCE_ONLY == 0
        && BINANCE_SPOT & Caps::HEDGE_MODE == 0 && BINANCE_SPOT & Caps::ISOLATED_MARGIN == 0
        && BINANCE_SPOT & Caps::SET_LEVERAGE == 0 && BINANCE_SPOT & Caps::LIQUIDATION_PRICE == 0
        && BINANCE_SPOT & Caps::FUNDING == 0 && BINANCE_SPOT & Caps::TRAILING_STOP == 0
        && BINANCE_SPOT & Caps::KEY_EXPIRY == 0) by (bit_vector);
    assert(BINANCE_USDM & Caps::AMEND_IN_PLACE == Caps::AMEND_IN_PLACE && BINANCE_USDM
        & Caps::REDUCE_ONLY == Caps::REDUCE_ONLY && BINANCE_USDM & Caps::FUNDING == Caps::FUNDING
        && BINANCE_USDM & Caps::KEY_EXPIRY == 0) by (bit_vector);
}

/// Asking for several capabilities is asking for each of them.
pub proof fn union_asks_for_both(caps: Caps, a: Caps, b: Caps)
    ensures
        caps.holds(Caps(a.0 | b.0)) <==> caps.holds(a) && caps.holds(b),
{
    let c = caps.0;
    let x = a.0;
    let y = b.0;
    assert((c & (x | y) == x | y) <==> (c & x == x && c & y == y)) by (bit_vector);
}

/// What was taken out is no longer held, and nothing else is lost.
pub proof fn without_takes_out_only_that(caps: Caps, gone: Caps, other: Caps)
    requires
        other.0 & gone.0 == 0,
    ensures
        Caps(caps.0 & !gone.0).holds(other) <==> caps.holds(other),
        gone.0 != 0 ==> !Caps(caps.0 & !gone.0).holds(gone),
{
    let c = caps.0;
    let g = gone.0;
    let o = other.0;
    assert((c & !g) & o == o <==> c & o == o) by (bit_vector)
        requires
            o & g == 0,
    ;
    assert(g != 0 ==> (c & !g) & g != g) by (bit_vector);
}

/// Futures offer everything that spot does.
pub proof fn futures_offer_what_spot_does()
    ensures
        Caps(BINANCE_USDM).holds(Caps(BINANCE_SPOT)),
{
    assert(BINANCE_USDM & BINANCE_SPOT == BINANCE_SPOT) by (bit_vector);
}

} // verus!
